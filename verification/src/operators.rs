//! The operand parsers: one per operand-list shape, each consuming characters
//! from the cursor position until its shape is satisfied and returning the raw
//! operand names or literal. Malformed operand syntax is a fatal parse
//! failure, reported as `None`; the scanner does not recover from it.
//!
//! Each parser has a spec-level model (`spec_parse_*`) defined character by
//! character over the source, and the exec parser is proved to return exactly
//! what its model says.

use vstd::prelude::*;
use vstd::string::{StrSliceExecFns, StringExecFns};
use crate::wire::{char_digit, dec_accumulate, dec_val, is_dec_digit};

verus! {

pub fn is_newline(character: char) -> (r: bool)
    ensures
        r == (character == '\n'),
{
    character == '\n'
}

// ---------------------------------------------------------------------------
// DEF: `? name value`
// ---------------------------------------------------------------------------

pub struct ParsedDEF {
    pub name: String,
    pub value: u64,
}

/// Spaces, then the `?` marker; anything else is malformed. Yields the
/// position after the marker.
pub open spec fn def_marker(s: Seq<char>, i: int) -> Option<int>
    decreases s.len() - i,
{
    if i < 0 || i >= s.len() {
        None
    } else if s[i] == '?' {
        Some(i + 1)
    } else if s[i] == ' ' {
        def_marker(s, i + 1)
    } else {
        None
    }
}

/// The variable name: characters up to a space; a newline or the end of the
/// source before the space is malformed, since the literal would be missing.
pub open spec fn def_name(s: Seq<char>, i: int, acc: Seq<char>) -> Option<(Seq<char>, int)>
    decreases s.len() - i,
{
    if i < 0 || i >= s.len() {
        None
    } else if s[i] == ' ' {
        Some((acc, i + 1))
    } else if s[i] == '\n' {
        None
    } else {
        def_name(s, i + 1, acc.push(s[i]))
    }
}

/// The literal: decimal digits up to a space or newline; other characters
/// among the digits are skipped; the end of the source before the terminator
/// is malformed.
pub open spec fn def_number(s: Seq<char>, i: int, digits: Seq<char>) -> Option<(Seq<char>, int)>
    decreases s.len() - i,
{
    if i < 0 || i >= s.len() {
        None
    } else if is_dec_digit(s[i]) {
        def_number(s, i + 1, digits.push(s[i]))
    } else if s[i] == '\n' || s[i] == ' ' {
        Some((digits, i + 1))
    } else {
        def_number(s, i + 1, digits)
    }
}

/// The whole `DEF` operand list: name, literal value, and the position after
/// the terminator. An empty digit run, or a literal too large for a machine
/// word, is malformed.
pub open spec fn spec_parse_def(s: Seq<char>, i: int) -> Option<(Seq<char>, u64, int)> {
    match def_marker(s, i) {
        None => None,
        Some(j) => match def_name(s, j, Seq::empty()) {
            None => None,
            Some((name, k)) => match def_number(s, k, Seq::empty()) {
                None => None,
                Some((digits, m)) => if digits.len() > 0 && dec_val(digits) <= u64::MAX {
                    Some((name, dec_val(digits) as u64, m))
                } else {
                    None
                },
            },
        },
    }
}

proof fn lemma_def_marker_range(s: Seq<char>, i: int)
    ensures
        def_marker(s, i) matches Some(j) ==> i < j <= s.len(),
    decreases s.len() - i,
{
    if 0 <= i < s.len() && s[i] == ' ' {
        lemma_def_marker_range(s, i + 1);
    }
}

proof fn lemma_def_name_range(s: Seq<char>, i: int, acc: Seq<char>)
    ensures
        def_name(s, i, acc) matches Some(t) ==> i < t.1 <= s.len(),
    decreases s.len() - i,
{
    if 0 <= i < s.len() && s[i] != ' ' && s[i] != '\n' {
        lemma_def_name_range(s, i + 1, acc.push(s[i]));
    }
}

proof fn lemma_def_number_range(s: Seq<char>, i: int, digits: Seq<char>)
    ensures
        def_number(s, i, digits) matches Some(t) ==> i < t.1 <= s.len(),
    decreases s.len() - i,
{
    if 0 <= i < s.len() {
        if is_dec_digit(s[i]) {
            lemma_def_number_range(s, i + 1, digits.push(s[i]));
        } else if s[i] != '\n' && s[i] != ' ' {
            lemma_def_number_range(s, i + 1, digits);
        }
    }
}

pub proof fn lemma_parse_def_range(s: Seq<char>, i: int)
    ensures
        spec_parse_def(s, i) matches Some(t) ==> i < t.2 <= s.len(),
{
    lemma_def_marker_range(s, i);
    if def_marker(s, i) is Some {
        let j = def_marker(s, i).unwrap();
        lemma_def_name_range(s, j, Seq::empty());
        if def_name(s, j, Seq::empty()) is Some {
            let k = def_name(s, j, Seq::empty()).unwrap().1;
            lemma_def_number_range(s, k, Seq::empty());
        }
    }
}

/// Parses the `DEF` operand list at `pos`; `None` on malformed syntax.
pub fn parse_def_operator(s: &str, pos: usize) -> (r: Option<(ParsedDEF, usize)>)
    requires
        pos <= s@.len(),
    ensures
        match r {
            Some(v) => spec_parse_def(s@, pos as int) == Some((v.0.name@, v.0.value, v.1 as int))
                && pos < v.1 <= s@.len(),
            None => spec_parse_def(s@, pos as int) is None,
        },
{
    let n = s.unicode_len();
    let mut i: usize = pos;
    loop
        invariant_except_break
            def_marker(s@, pos as int) == def_marker(s@, i as int),
        invariant
            pos <= i <= n,
            n == s@.len(),
        ensures
            pos < i <= n,
            def_marker(s@, pos as int) == Some(i as int),
        decreases n - i,
    {
        if i >= n {
            return None;
        }
        let c = s.get_char(i);
        if c == '?' {
            i = i + 1;
            break;
        }
        if c != ' ' {
            return None;
        }
        i = i + 1;
    }
    let name_start = i;
    let mut name_end: usize = 0;
    proof {
        assert(s@.subrange(name_start as int, name_start as int) =~= Seq::<char>::empty());
    }
    loop
        invariant_except_break
            def_name(s@, name_start as int, Seq::empty()) == def_name(
                s@,
                i as int,
                s@.subrange(name_start as int, i as int),
            ),
        invariant
            pos < name_start <= i <= n,
            n == s@.len(),
            pos <= s@.len(),
            def_marker(s@, pos as int) == Some(name_start as int),
        ensures
            name_start <= name_end < i <= n,
            i == name_end + 1,
            def_name(s@, name_start as int, Seq::empty()) == Some(
                (s@.subrange(name_start as int, name_end as int), i as int),
            ),
        decreases n - i,
    {
        if i >= n {
            return None;
        }
        let c = s.get_char(i);
        if c == ' ' {
            name_end = i;
            i = i + 1;
            break;
        }
        if c == '\n' {
            return None;
        }
        proof {
            assert(s@.subrange(name_start as int, i + 1) =~= s@.subrange(
                name_start as int,
                i as int,
            ).push(s@[i as int]));
        }
        i = i + 1;
    }
    let number_start: Ghost<int> = Ghost(i as int);
    let mut val: u64 = 0;
    let mut over: bool = false;
    let mut seen: bool = false;
    let ghost mut digs: Seq<char> = Seq::empty();
    loop
        invariant_except_break
            def_number(s@, number_start@, Seq::empty()) == def_number(s@, i as int, digs),
        invariant
            number_start@ <= i as int <= n as int,
            n == s@.len(),
            pos <= s@.len(),
            pos < name_start <= name_end <= n,
            def_marker(s@, pos as int) == Some(name_start as int),
            def_name(s@, name_start as int, Seq::empty()) == Some(
                (s@.subrange(name_start as int, name_end as int), number_start@),
            ),
            seen == (digs.len() > 0),
            dec_val(digs) >= 0,
            !over ==> val as int == dec_val(digs),
            over ==> dec_val(digs) > u64::MAX,
        ensures
            i <= n,
            number_start@ < i as int,
            def_number(s@, number_start@, Seq::empty()) == Some((digs, i as int)),
            seen == (digs.len() > 0),
            !over ==> val as int == dec_val(digs) && dec_val(digs) <= u64::MAX,
            over ==> dec_val(digs) > u64::MAX,
        decreases n - i,
    {
        if i >= n {
            return None;
        }
        let c = s.get_char(i);
        match char_digit(c) {
            Some(d) => {
                proof {
                    assert(digs.push(s@[i as int]).drop_last() =~= digs);
                    assert(dec_val(digs.push(s@[i as int])) == dec_val(digs) * 10 + d as int);
                }
                let acc2 = dec_accumulate(val, over, d);
                val = acc2.0;
                over = acc2.1;
                seen = true;
                proof {
                    digs = digs.push(s@[i as int]);
                }
                i = i + 1;
            },
            None => {
                if c == '\n' || c == ' ' {
                    i = i + 1;
                    break;
                }
                i = i + 1;
            },
        }
    }
    if !seen {
        return None;
    }
    if over {
        return None;
    }
    let name = String::from_str(s.substring_char(name_start, name_end));
    Some((ParsedDEF { name, value: val }, i))
}

// ---------------------------------------------------------------------------
// One address: `? name`
// ---------------------------------------------------------------------------

pub struct Parsed1ArgOperator {
    pub name: String,
}

/// Spaces, then the `?` marker; at the end of the source the operator is
/// accepted with whatever was gathered, which is an empty name.
pub open spec fn one_arg_marker(s: Seq<char>, i: int) -> Option<int>
    decreases s.len() - i,
{
    if i < 0 {
        None
    } else if i >= s.len() {
        Some(i)
    } else if s[i] == '?' {
        Some(i + 1)
    } else if s[i] == ' ' {
        one_arg_marker(s, i + 1)
    } else {
        None
    }
}

/// The name: characters up to a space or newline, which must not come
/// immediately; the end of the source accepts whatever was gathered.
pub open spec fn one_arg_name(s: Seq<char>, i: int, acc: Seq<char>) -> Option<(Seq<char>, int)>
    decreases s.len() - i,
{
    if i < 0 {
        None
    } else if i >= s.len() {
        Some((acc, i))
    } else if s[i] == '\n' || s[i] == ' ' {
        if acc.len() == 0 {
            None
        } else {
            Some((acc, i + 1))
        }
    } else {
        one_arg_name(s, i + 1, acc.push(s[i]))
    }
}

pub open spec fn spec_parse_1_arg(s: Seq<char>, i: int) -> Option<(Seq<char>, int)> {
    match one_arg_marker(s, i) {
        None => None,
        Some(j) => one_arg_name(s, j, Seq::empty()),
    }
}

proof fn lemma_one_arg_marker_range(s: Seq<char>, i: int)
    requires
        0 <= i <= s.len(),
    ensures
        one_arg_marker(s, i) matches Some(j) ==> i <= j <= s.len(),
    decreases s.len() - i,
{
    if i < s.len() && s[i] == ' ' {
        lemma_one_arg_marker_range(s, i + 1);
    }
}

proof fn lemma_one_arg_name_range(s: Seq<char>, i: int, acc: Seq<char>)
    requires
        0 <= i <= s.len(),
    ensures
        one_arg_name(s, i, acc) matches Some(t) ==> i <= t.1 <= s.len(),
    decreases s.len() - i,
{
    if i < s.len() && s[i] != '\n' && s[i] != ' ' {
        lemma_one_arg_name_range(s, i + 1, acc.push(s[i]));
    }
}

pub proof fn lemma_parse_1_arg_range(s: Seq<char>, i: int)
    requires
        0 <= i <= s.len(),
    ensures
        spec_parse_1_arg(s, i) matches Some(t) ==> i <= t.1 <= s.len(),
{
    lemma_one_arg_marker_range(s, i);
    if one_arg_marker(s, i) is Some {
        lemma_one_arg_name_range(s, one_arg_marker(s, i).unwrap(), Seq::empty());
    }
}

/// Parses a one-address operand list at `pos`; `None` on malformed syntax.
pub fn parse_1_arg_operator(s: &str, pos: usize) -> (r: Option<(Parsed1ArgOperator, usize)>)
    requires
        pos <= s@.len(),
    ensures
        match r {
            Some(v) => spec_parse_1_arg(s@, pos as int) == Some((v.0.name@, v.1 as int)) && pos
                <= v.1 <= s@.len(),
            None => spec_parse_1_arg(s@, pos as int) is None,
        },
{
    let n = s.unicode_len();
    let mut i: usize = pos;
    loop
        invariant_except_break
            one_arg_marker(s@, pos as int) == one_arg_marker(s@, i as int),
        invariant
            pos <= i <= n,
            n == s@.len(),
        ensures
            pos <= i <= n,
            one_arg_marker(s@, pos as int) == Some(i as int),
        decreases n - i,
    {
        if i >= n {
            break;
        }
        let c = s.get_char(i);
        if c == '?' {
            i = i + 1;
            break;
        }
        if c != ' ' {
            return None;
        }
        i = i + 1;
    }
    let start = i;
    let mut name_end: usize = 0;
    proof {
        assert(s@.subrange(start as int, start as int) =~= Seq::<char>::empty());
    }
    loop
        invariant_except_break
            one_arg_name(s@, start as int, Seq::empty()) == one_arg_name(
                s@,
                i as int,
                s@.subrange(start as int, i as int),
            ),
        invariant
            pos <= start <= i <= n,
            n == s@.len(),
            pos <= s@.len(),
            one_arg_marker(s@, pos as int) == Some(start as int),
        ensures
            start <= name_end <= i <= n,
            one_arg_name(s@, start as int, Seq::empty()) == Some(
                (s@.subrange(start as int, name_end as int), i as int),
            ),
        decreases n - i,
    {
        if i >= n {
            name_end = i;
            break;
        }
        let c = s.get_char(i);
        if c == '\n' || c == ' ' {
            if i == start {
                proof {
                    assert(s@.subrange(start as int, i as int).len() == 0);
                }
                return None;
            }
            name_end = i;
            i = i + 1;
            break;
        }
        proof {
            assert(s@.subrange(start as int, i + 1) =~= s@.subrange(start as int, i as int).push(
                s@[i as int],
            ));
        }
        i = i + 1;
    }
    let name = String::from_str(s.substring_char(start, name_end));
    Some((Parsed1ArgOperator { name }, i))
}


// ---------------------------------------------------------------------------
// JMP: `: label`
// ---------------------------------------------------------------------------

pub struct ParsedJMPOperator {
    pub label: String,
}

/// Spaces, then the `:` marker; anything else is malformed.
pub open spec fn jmp_marker(s: Seq<char>, i: int) -> Option<int>
    decreases s.len() - i,
{
    if i < 0 || i >= s.len() {
        None
    } else if s[i] == ':' {
        Some(i + 1)
    } else if s[i] == ' ' {
        jmp_marker(s, i + 1)
    } else {
        None
    }
}

/// The label name: characters up to a space, newline or the end of the
/// source; an empty name is malformed.
pub open spec fn jmp_name(s: Seq<char>, i: int, acc: Seq<char>) -> Option<(Seq<char>, int)>
    decreases s.len() - i,
{
    if i < 0 {
        None
    } else if i >= s.len() {
        if acc.len() == 0 {
            None
        } else {
            Some((acc, i))
        }
    } else if s[i] == '\n' || s[i] == ' ' {
        if acc.len() == 0 {
            None
        } else {
            Some((acc, i + 1))
        }
    } else {
        jmp_name(s, i + 1, acc.push(s[i]))
    }
}

pub open spec fn spec_parse_jmp(s: Seq<char>, i: int) -> Option<(Seq<char>, int)> {
    match jmp_marker(s, i) {
        None => None,
        Some(j) => jmp_name(s, j, Seq::empty()),
    }
}

proof fn lemma_jmp_marker_range(s: Seq<char>, i: int)
    ensures
        jmp_marker(s, i) matches Some(j) ==> i < j <= s.len(),
    decreases s.len() - i,
{
    if 0 <= i < s.len() && s[i] == ' ' {
        lemma_jmp_marker_range(s, i + 1);
    }
}

proof fn lemma_jmp_name_range(s: Seq<char>, i: int, acc: Seq<char>)
    requires
        0 <= i <= s.len(),
    ensures
        jmp_name(s, i, acc) matches Some(t) ==> i <= t.1 <= s.len(),
    decreases s.len() - i,
{
    if i < s.len() && s[i] != '\n' && s[i] != ' ' {
        lemma_jmp_name_range(s, i + 1, acc.push(s[i]));
    }
}

pub proof fn lemma_parse_jmp_range(s: Seq<char>, i: int)
    ensures
        spec_parse_jmp(s, i) matches Some(t) ==> i < t.1 <= s.len(),
{
    lemma_jmp_marker_range(s, i);
    if jmp_marker(s, i) is Some {
        lemma_jmp_name_range(s, jmp_marker(s, i).unwrap(), Seq::empty());
    }
}

/// Parses the `JMP` operand: a label reference; `None` on malformed syntax.
pub fn parse_jmp_argument_operator(s: &str, pos: usize) -> (r: Option<(ParsedJMPOperator, usize)>)
    requires
        pos <= s@.len(),
    ensures
        match r {
            Some(v) => spec_parse_jmp(s@, pos as int) == Some((v.0.label@, v.1 as int)) && pos
                < v.1 <= s@.len(),
            None => spec_parse_jmp(s@, pos as int) is None,
        },
{
    let n = s.unicode_len();
    let mut i: usize = pos;
    loop
        invariant_except_break
            jmp_marker(s@, pos as int) == jmp_marker(s@, i as int),
        invariant
            pos <= i <= n,
            n == s@.len(),
        ensures
            pos < i <= n,
            jmp_marker(s@, pos as int) == Some(i as int),
        decreases n - i,
    {
        if i >= n {
            return None;
        }
        let c = s.get_char(i);
        if c == ':' {
            i = i + 1;
            break;
        }
        if c != ' ' {
            return None;
        }
        i = i + 1;
    }
    let start = i;
    let mut name_end: usize = 0;
    proof {
        assert(s@.subrange(start as int, start as int) =~= Seq::<char>::empty());
    }
    loop
        invariant_except_break
            jmp_name(s@, start as int, Seq::empty()) == jmp_name(
                s@,
                i as int,
                s@.subrange(start as int, i as int),
            ),
        invariant
            pos < start <= i <= n,
            n == s@.len(),
            pos <= s@.len(),
            jmp_marker(s@, pos as int) == Some(start as int),
        ensures
            start <= name_end <= i <= n,
            start < i,
            jmp_name(s@, start as int, Seq::empty()) == Some(
                (s@.subrange(start as int, name_end as int), i as int),
            ),
        decreases n - i,
    {
        if i >= n {
            if i == start {
                proof {
                    assert(s@.subrange(start as int, i as int).len() == 0);
                }
                return None;
            }
            name_end = i;
            break;
        }
        let c = s.get_char(i);
        if c == '\n' || c == ' ' {
            if i == start {
                proof {
                    assert(s@.subrange(start as int, i as int).len() == 0);
                }
                return None;
            }
            name_end = i;
            i = i + 1;
            break;
        }
        proof {
            assert(s@.subrange(start as int, i + 1) =~= s@.subrange(start as int, i as int).push(
                s@[i as int],
            ));
        }
        i = i + 1;
    }
    let label = String::from_str(s.substring_char(start, name_end));
    Some((ParsedJMPOperator { label }, i))
}

// ---------------------------------------------------------------------------
// Three addresses: `?a ?b ?c`
// ---------------------------------------------------------------------------

pub struct Parsed3ArgOperator {
    pub a_name: String,
    pub b_name: String,
    pub c_name: String,
}

/// The three-slot operand scanner: a `?` marker precedes each name, slots
/// fill left to right, and a space or newline once the last slot is reached
/// ends the list; the end of the source accepts whatever was gathered. A
/// name character past the last slot is malformed.
pub open spec fn three_arg_rec(
    s: Seq<char>,
    i: int,
    idx: int,
    found: bool,
    a: Seq<char>,
    b: Seq<char>,
    c: Seq<char>,
) -> Option<(Seq<char>, Seq<char>, Seq<char>, int)>
    decreases s.len() - i,
{
    if i < 0 || i >= s.len() {
        Some((a, b, c, i))
    } else {
        let ch = s[i];
        if ch == '?' {
            three_arg_rec(
                s,
                i + 1,
                if found {
                    idx + 1
                } else {
                    idx
                },
                true,
                a,
                b,
                c,
            )
        } else if ch == ' ' || ch == '\n' {
            if idx == 2 {
                Some((a, b, c, i + 1))
            } else {
                three_arg_rec(s, i + 1, idx, found, a, b, c)
            }
        } else if !found {
            three_arg_rec(s, i + 1, idx, found, a, b, c)
        } else if idx == 0 {
            three_arg_rec(s, i + 1, idx, found, a.push(ch), b, c)
        } else if idx == 1 {
            three_arg_rec(s, i + 1, idx, found, a, b.push(ch), c)
        } else if idx == 2 {
            three_arg_rec(s, i + 1, idx, found, a, b, c.push(ch))
        } else {
            None
        }
    }
}

pub open spec fn spec_parse_3_arg(s: Seq<char>, i: int) -> Option<
    (Seq<char>, Seq<char>, Seq<char>, int),
> {
    three_arg_rec(s, i, 0, false, Seq::empty(), Seq::empty(), Seq::empty())
}

proof fn lemma_three_arg_rec_range(
    s: Seq<char>,
    i: int,
    idx: int,
    found: bool,
    a: Seq<char>,
    b: Seq<char>,
    c: Seq<char>,
)
    requires
        0 <= i <= s.len(),
    ensures
        three_arg_rec(s, i, idx, found, a, b, c) matches Some(t) ==> i <= t.3 <= s.len(),
    decreases s.len() - i,
{
    if i < s.len() {
        let ch = s[i];
        if ch == '?' {
            lemma_three_arg_rec_range(
                s,
                i + 1,
                if found {
                    idx + 1
                } else {
                    idx
                },
                true,
                a,
                b,
                c,
            );
        } else if ch == ' ' || ch == '\n' {
            if idx != 2 {
                lemma_three_arg_rec_range(s, i + 1, idx, found, a, b, c);
            }
        } else if !found {
            lemma_three_arg_rec_range(s, i + 1, idx, found, a, b, c);
        } else if idx == 0 {
            lemma_three_arg_rec_range(s, i + 1, idx, found, a.push(ch), b, c);
        } else if idx == 1 {
            lemma_three_arg_rec_range(s, i + 1, idx, found, a, b.push(ch), c);
        } else if idx == 2 {
            lemma_three_arg_rec_range(s, i + 1, idx, found, a, b, c.push(ch));
        }
    }
}

pub proof fn lemma_parse_3_arg_range(s: Seq<char>, i: int)
    requires
        0 <= i <= s.len(),
    ensures
        spec_parse_3_arg(s, i) matches Some(t) ==> i <= t.3 <= s.len(),
{
    lemma_three_arg_rec_range(s, i, 0, false, Seq::empty(), Seq::empty(), Seq::empty());
}

/// Parses a three-address operand list at `pos`; `None` on malformed syntax.
pub fn parse_3_argument_operator(s: &str, pos: usize) -> (r: Option<(Parsed3ArgOperator, usize)>)
    requires
        pos <= s@.len(),
    ensures
        match r {
            Some(v) => spec_parse_3_arg(s@, pos as int) == Some(
                (v.0.a_name@, v.0.b_name@, v.0.c_name@, v.1 as int),
            ) && pos <= v.1 <= s@.len(),
            None => spec_parse_3_arg(s@, pos as int) is None,
        },
{
    let n = s.unicode_len();
    let mut i: usize = pos;
    let mut idx: usize = 0;
    let mut found: bool = false;
    let mut a = String::new();
    let mut b = String::new();
    let mut c = String::new();
    loop
        invariant_except_break
            spec_parse_3_arg(s@, pos as int) == three_arg_rec(
                s@,
                i as int,
                idx as int,
                found,
                a@,
                b@,
                c@,
            ),
        invariant
            pos <= i <= n,
            n == s@.len(),
            idx as int <= i as int - pos as int,
        ensures
            pos <= i <= n,
            spec_parse_3_arg(s@, pos as int) == Some((a@, b@, c@, i as int)),
        decreases n - i,
    {
        if i >= n {
            break;
        }
        let ch = s.get_char(i);
        if ch == '?' {
            if found {
                idx = idx + 1;
            }
            found = true;
            i = i + 1;
        } else if ch == ' ' || ch == '\n' {
            if idx == 2 {
                i = i + 1;
                break;
            }
            i = i + 1;
        } else if !found {
            i = i + 1;
        } else if idx == 0 {
            let ghost a0 = a@;
            a.append(s.substring_char(i, i + 1));
            proof {
                assert(s@.subrange(i as int, i + 1) =~= seq![s@[i as int]]);
                assert(a@ =~= a0.push(s@[i as int]));
            }
            i = i + 1;
        } else if idx == 1 {
            let ghost b0 = b@;
            b.append(s.substring_char(i, i + 1));
            proof {
                assert(s@.subrange(i as int, i + 1) =~= seq![s@[i as int]]);
                assert(b@ =~= b0.push(s@[i as int]));
            }
            i = i + 1;
        } else if idx == 2 {
            let ghost c0 = c@;
            c.append(s.substring_char(i, i + 1));
            proof {
                assert(s@.subrange(i as int, i + 1) =~= seq![s@[i as int]]);
                assert(c@ =~= c0.push(s@[i as int]));
            }
            i = i + 1;
        } else {
            return None;
        }
    }
    Some((Parsed3ArgOperator { a_name: a, b_name: b, c_name: c }, i))
}


// ---------------------------------------------------------------------------
// Two addresses with a label: `?a ?b :label`
// ---------------------------------------------------------------------------

pub struct Parsed2ArgWithLabelOperator {
    pub a_name: String,
    pub b_name: String,
    pub c_label_name: String,
}

/// The two-address-with-label scanner: the `?` marker fills the two address
/// slots, a `:` marker after them moves to the label slot, and a space or
/// newline once the label slot is reached ends the list; a `:` anywhere else
/// is malformed, as is a name character past the label slot.
pub open spec fn two_arg_label_rec(
    s: Seq<char>,
    i: int,
    idx: int,
    found: bool,
    a: Seq<char>,
    b: Seq<char>,
    c: Seq<char>,
) -> Option<(Seq<char>, Seq<char>, Seq<char>, int)>
    decreases s.len() - i,
{
    if i < 0 || i >= s.len() {
        Some((a, b, c, i))
    } else {
        let ch = s[i];
        if ch == '?' {
            two_arg_label_rec(
                s,
                i + 1,
                if found {
                    idx + 1
                } else {
                    idx
                },
                true,
                a,
                b,
                c,
            )
        } else if ch == ':' {
            if idx != 1 {
                None
            } else {
                two_arg_label_rec(s, i + 1, 2, found, a, b, c)
            }
        } else if ch == ' ' || ch == '\n' {
            if idx == 2 {
                Some((a, b, c, i + 1))
            } else {
                two_arg_label_rec(s, i + 1, idx, found, a, b, c)
            }
        } else if !found {
            two_arg_label_rec(s, i + 1, idx, found, a, b, c)
        } else if idx == 0 {
            two_arg_label_rec(s, i + 1, idx, found, a.push(ch), b, c)
        } else if idx == 1 {
            two_arg_label_rec(s, i + 1, idx, found, a, b.push(ch), c)
        } else if idx == 2 {
            two_arg_label_rec(s, i + 1, idx, found, a, b, c.push(ch))
        } else {
            None
        }
    }
}

pub open spec fn spec_parse_2_arg_with_label(s: Seq<char>, i: int) -> Option<
    (Seq<char>, Seq<char>, Seq<char>, int),
> {
    two_arg_label_rec(s, i, 0, false, Seq::empty(), Seq::empty(), Seq::empty())
}

proof fn lemma_two_arg_label_rec_range(
    s: Seq<char>,
    i: int,
    idx: int,
    found: bool,
    a: Seq<char>,
    b: Seq<char>,
    c: Seq<char>,
)
    requires
        0 <= i <= s.len(),
    ensures
        two_arg_label_rec(s, i, idx, found, a, b, c) matches Some(t) ==> i <= t.3 <= s.len(),
    decreases s.len() - i,
{
    if i < s.len() {
        let ch = s[i];
        if ch == '?' {
            lemma_two_arg_label_rec_range(
                s,
                i + 1,
                if found {
                    idx + 1
                } else {
                    idx
                },
                true,
                a,
                b,
                c,
            );
        } else if ch == ':' {
            if idx == 1 {
                lemma_two_arg_label_rec_range(s, i + 1, 2, found, a, b, c);
            }
        } else if ch == ' ' || ch == '\n' {
            if idx != 2 {
                lemma_two_arg_label_rec_range(s, i + 1, idx, found, a, b, c);
            }
        } else if !found {
            lemma_two_arg_label_rec_range(s, i + 1, idx, found, a, b, c);
        } else if idx == 0 {
            lemma_two_arg_label_rec_range(s, i + 1, idx, found, a.push(ch), b, c);
        } else if idx == 1 {
            lemma_two_arg_label_rec_range(s, i + 1, idx, found, a, b.push(ch), c);
        } else if idx == 2 {
            lemma_two_arg_label_rec_range(s, i + 1, idx, found, a, b, c.push(ch));
        }
    }
}

pub proof fn lemma_parse_2_arg_with_label_range(s: Seq<char>, i: int)
    requires
        0 <= i <= s.len(),
    ensures
        spec_parse_2_arg_with_label(s, i) matches Some(t) ==> i <= t.3 <= s.len(),
{
    lemma_two_arg_label_rec_range(s, i, 0, false, Seq::empty(), Seq::empty(), Seq::empty());
}

/// Parses a two-address-with-label operand list at `pos`; `None` on
/// malformed syntax.
pub fn parse_2_arg_with_label_operator(s: &str, pos: usize) -> (r: Option<
    (Parsed2ArgWithLabelOperator, usize),
>)
    requires
        pos <= s@.len(),
    ensures
        match r {
            Some(v) => spec_parse_2_arg_with_label(s@, pos as int) == Some(
                (v.0.a_name@, v.0.b_name@, v.0.c_label_name@, v.1 as int),
            ) && pos <= v.1 <= s@.len(),
            None => spec_parse_2_arg_with_label(s@, pos as int) is None,
        },
{
    let n = s.unicode_len();
    let mut i: usize = pos;
    let mut idx: usize = 0;
    let mut found: bool = false;
    let mut a = String::new();
    let mut b = String::new();
    let mut c = String::new();
    loop
        invariant_except_break
            spec_parse_2_arg_with_label(s@, pos as int) == two_arg_label_rec(
                s@,
                i as int,
                idx as int,
                found,
                a@,
                b@,
                c@,
            ),
        invariant
            pos <= i <= n,
            n == s@.len(),
            idx as int <= i as int - pos as int,
        ensures
            pos <= i <= n,
            spec_parse_2_arg_with_label(s@, pos as int) == Some((a@, b@, c@, i as int)),
        decreases n - i,
    {
        if i >= n {
            break;
        }
        let ch = s.get_char(i);
        if ch == '?' {
            if found {
                idx = idx + 1;
            }
            found = true;
            i = i + 1;
        } else if ch == ':' {
            if idx != 1 {
                return None;
            }
            idx = 2;
            i = i + 1;
        } else if ch == ' ' || ch == '\n' {
            if idx == 2 {
                i = i + 1;
                break;
            }
            i = i + 1;
        } else if !found {
            i = i + 1;
        } else if idx == 0 {
            let ghost a0 = a@;
            a.append(s.substring_char(i, i + 1));
            proof {
                assert(s@.subrange(i as int, i + 1) =~= seq![s@[i as int]]);
                assert(a@ =~= a0.push(s@[i as int]));
            }
            i = i + 1;
        } else if idx == 1 {
            let ghost b0 = b@;
            b.append(s.substring_char(i, i + 1));
            proof {
                assert(s@.subrange(i as int, i + 1) =~= seq![s@[i as int]]);
                assert(b@ =~= b0.push(s@[i as int]));
            }
            i = i + 1;
        } else if idx == 2 {
            let ghost c0 = c@;
            c.append(s.substring_char(i, i + 1));
            proof {
                assert(s@.subrange(i as int, i + 1) =~= seq![s@[i as int]]);
                assert(c@ =~= c0.push(s@[i as int]));
            }
            i = i + 1;
        } else {
            return None;
        }
    }
    Some((Parsed2ArgWithLabelOperator { a_name: a, b_name: b, c_label_name: c }, i))
}


// ---------------------------------------------------------------------------
// Two addresses: `?a ?b`
// ---------------------------------------------------------------------------

pub struct Parsed2ArgOperator {
    pub a_name: String,
    pub b_name: String,
}

/// The two-slot operand scanner: like the three-slot one, with the list
/// ending on a space or newline once the second slot is reached.
pub open spec fn two_arg_rec(
    s: Seq<char>,
    i: int,
    idx: int,
    found: bool,
    a: Seq<char>,
    b: Seq<char>,
) -> Option<(Seq<char>, Seq<char>, int)>
    decreases s.len() - i,
{
    if i < 0 || i >= s.len() {
        Some((a, b, i))
    } else {
        let ch = s[i];
        if ch == '?' {
            two_arg_rec(
                s,
                i + 1,
                if found {
                    idx + 1
                } else {
                    idx
                },
                true,
                a,
                b,
            )
        } else if ch == ' ' || ch == '\n' {
            if idx == 1 {
                Some((a, b, i + 1))
            } else {
                two_arg_rec(s, i + 1, idx, found, a, b)
            }
        } else if !found {
            two_arg_rec(s, i + 1, idx, found, a, b)
        } else if idx == 0 {
            two_arg_rec(s, i + 1, idx, found, a.push(ch), b)
        } else if idx == 1 {
            two_arg_rec(s, i + 1, idx, found, a, b.push(ch))
        } else {
            None
        }
    }
}

pub open spec fn spec_parse_2_arg(s: Seq<char>, i: int) -> Option<(Seq<char>, Seq<char>, int)> {
    two_arg_rec(s, i, 0, false, Seq::empty(), Seq::empty())
}

proof fn lemma_two_arg_rec_range(
    s: Seq<char>,
    i: int,
    idx: int,
    found: bool,
    a: Seq<char>,
    b: Seq<char>,
)
    requires
        0 <= i <= s.len(),
    ensures
        two_arg_rec(s, i, idx, found, a, b) matches Some(t) ==> i <= t.2 <= s.len(),
    decreases s.len() - i,
{
    if i < s.len() {
        let ch = s[i];
        if ch == '?' {
            lemma_two_arg_rec_range(
                s,
                i + 1,
                if found {
                    idx + 1
                } else {
                    idx
                },
                true,
                a,
                b,
            );
        } else if ch == ' ' || ch == '\n' {
            if idx != 1 {
                lemma_two_arg_rec_range(s, i + 1, idx, found, a, b);
            }
        } else if !found {
            lemma_two_arg_rec_range(s, i + 1, idx, found, a, b);
        } else if idx == 0 {
            lemma_two_arg_rec_range(s, i + 1, idx, found, a.push(ch), b);
        } else if idx == 1 {
            lemma_two_arg_rec_range(s, i + 1, idx, found, a, b.push(ch));
        }
    }
}

pub proof fn lemma_parse_2_arg_range(s: Seq<char>, i: int)
    requires
        0 <= i <= s.len(),
    ensures
        spec_parse_2_arg(s, i) matches Some(t) ==> i <= t.2 <= s.len(),
{
    lemma_two_arg_rec_range(s, i, 0, false, Seq::empty(), Seq::empty());
}

/// Parses a two-address operand list at `pos`; `None` on malformed syntax.
pub fn parse_2_arg_operator(s: &str, pos: usize) -> (r: Option<(Parsed2ArgOperator, usize)>)
    requires
        pos <= s@.len(),
    ensures
        match r {
            Some(v) => spec_parse_2_arg(s@, pos as int) == Some(
                (v.0.a_name@, v.0.b_name@, v.1 as int),
            ) && pos <= v.1 <= s@.len(),
            None => spec_parse_2_arg(s@, pos as int) is None,
        },
{
    let n = s.unicode_len();
    let mut i: usize = pos;
    let mut idx: usize = 0;
    let mut found: bool = false;
    let mut a = String::new();
    let mut b = String::new();
    loop
        invariant_except_break
            spec_parse_2_arg(s@, pos as int) == two_arg_rec(
                s@,
                i as int,
                idx as int,
                found,
                a@,
                b@,
            ),
        invariant
            pos <= i <= n,
            n == s@.len(),
            idx as int <= i as int - pos as int,
        ensures
            pos <= i <= n,
            spec_parse_2_arg(s@, pos as int) == Some((a@, b@, i as int)),
        decreases n - i,
    {
        if i >= n {
            break;
        }
        let ch = s.get_char(i);
        if ch == '?' {
            if found {
                idx = idx + 1;
            }
            found = true;
            i = i + 1;
        } else if ch == ' ' || ch == '\n' {
            if idx == 1 {
                i = i + 1;
                break;
            }
            i = i + 1;
        } else if !found {
            i = i + 1;
        } else if idx == 0 {
            let ghost a0 = a@;
            a.append(s.substring_char(i, i + 1));
            proof {
                assert(s@.subrange(i as int, i + 1) =~= seq![s@[i as int]]);
                assert(a@ =~= a0.push(s@[i as int]));
            }
            i = i + 1;
        } else if idx == 1 {
            let ghost b0 = b@;
            b.append(s.substring_char(i, i + 1));
            proof {
                assert(s@.subrange(i as int, i + 1) =~= seq![s@[i as int]]);
                assert(b@ =~= b0.push(s@[i as int]));
            }
            i = i + 1;
        } else {
            return None;
        }
    }
    Some((Parsed2ArgOperator { a_name: a, b_name: b }, i))
}

} // verus!\n