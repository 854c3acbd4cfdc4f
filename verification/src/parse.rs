//! The scanner: consumes the source character stream, recognizes comment
//! spans, mnemonic keywords and label definitions, and delegates operand-list
//! extraction to the operand parsers, building the abstract instruction list.
//!
//! `spec_scan` is the character-level model of the whole scanner; the exec
//! scanner is proved to return exactly what the model says.

use vstd::prelude::*;
use vstd::string::{StrSliceExecFns, StringExecFns};
use crate::ast::{Address, AssASTTypes, AstView, Label, views_of};
use crate::operators::{
    parse_1_arg_operator, parse_2_arg_operator, parse_2_arg_with_label_operator,
    parse_3_argument_operator, parse_def_operator, parse_jmp_argument_operator,
    lemma_parse_1_arg_range, lemma_parse_2_arg_range, lemma_parse_2_arg_with_label_range,
    lemma_parse_3_arg_range, lemma_parse_def_range, lemma_parse_jmp_range,
    spec_parse_1_arg, spec_parse_2_arg, spec_parse_2_arg_with_label, spec_parse_3_arg,
    spec_parse_def, spec_parse_jmp,
};

verus! {

// ---------------------------------------------------------------------------
// Comments and label definitions
// ---------------------------------------------------------------------------

/// The position just past the newline that ends a comment, or the end of the
/// source when no newline follows.
pub open spec fn spec_skip_comment(s: Seq<char>, i: int) -> int
    decreases s.len() - i,
{
    if i < 0 || i >= s.len() {
        s.len() as int
    } else if s[i] == '\n' {
        i + 1
    } else {
        spec_skip_comment(s, i + 1)
    }
}

pub proof fn lemma_skip_comment_range(s: Seq<char>, i: int)
    requires
        0 <= i <= s.len(),
    ensures
        i <= spec_skip_comment(s, i) <= s.len(),
    decreases s.len() - i,
{
    if i < s.len() && s[i] != '\n' {
        lemma_skip_comment_range(s, i + 1);
    }
}

/// The start of a label name: leading spaces are skipped.
pub open spec fn label_skip(s: Seq<char>, i: int) -> int
    decreases s.len() - i,
{
    if i < 0 || i >= s.len() {
        i
    } else if s[i] == ' ' {
        label_skip(s, i + 1)
    } else {
        i
    }
}

/// A label name: characters up to a space, newline or the end of the source.
/// A label definition never fails; the name may be empty.
pub open spec fn label_acc(s: Seq<char>, i: int, acc: Seq<char>) -> (Seq<char>, int)
    decreases s.len() - i,
{
    if i < 0 || i >= s.len() {
        (acc, i)
    } else if s[i] == '\n' || s[i] == ' ' {
        (acc, i + 1)
    } else {
        label_acc(s, i + 1, acc.push(s[i]))
    }
}

pub open spec fn spec_parse_label(s: Seq<char>, i: int) -> (Seq<char>, int) {
    label_acc(s, label_skip(s, i), Seq::empty())
}

proof fn lemma_label_skip_range(s: Seq<char>, i: int)
    requires
        0 <= i <= s.len(),
    ensures
        i <= label_skip(s, i) <= s.len(),
    decreases s.len() - i,
{
    if i < s.len() && s[i] == ' ' {
        lemma_label_skip_range(s, i + 1);
    }
}

proof fn lemma_label_acc_range(s: Seq<char>, i: int, acc: Seq<char>)
    requires
        0 <= i <= s.len(),
    ensures
        i <= label_acc(s, i, acc).1 <= s.len(),
    decreases s.len() - i,
{
    if i < s.len() && s[i] != '\n' && s[i] != ' ' {
        lemma_label_acc_range(s, i + 1, acc.push(s[i]));
    }
}

pub proof fn lemma_parse_label_range(s: Seq<char>, i: int)
    requires
        0 <= i <= s.len(),
    ensures
        i <= spec_parse_label(s, i).1 <= s.len(),
{
    lemma_label_skip_range(s, i);
    lemma_label_acc_range(s, label_skip(s, i), Seq::empty());
}

// ---------------------------------------------------------------------------
// The scanner model
// ---------------------------------------------------------------------------

/// The scanner, one character at a time: `acc` is the mnemonic gathered since
/// the last line break or completed instruction. A newline resets it, `#`
/// skips to the end of the line, a completed mnemonic hands the cursor to the
/// matching operand parser, and any other character simply extends `acc`.
/// `None` means an operand parser hit malformed syntax, which aborts the
/// whole parse.
pub open spec fn spec_scan(s: Seq<char>, i: int, acc: Seq<char>) -> Option<Seq<AstView>>
    decreases s.len() - i,
    via spec_scan_decreases
{
    if i < 0 || i >= s.len() {
        Some(Seq::empty())
    } else {
        let c = s[i];
        if c == '\n' {
            spec_scan(s, i + 1, Seq::empty())
        } else if c == '#' {
            spec_scan(s, spec_skip_comment(s, i + 1), acc)
        } else {
            let acc2 = acc.push(c);
            if acc2 == "DEF"@ {
                match spec_parse_def(s, i + 1) {
                    None => None,
                    Some((name, value, j)) => match spec_scan(s, j, Seq::empty()) {
                        None => None,
                        Some(rest) => Some(seq![AstView::Define { name, a: value }] + rest),
                    },
                }
            } else if acc2 == "ADD"@ {
                match spec_parse_3_arg(s, i + 1) {
                    None => None,
                    Some((a, b, cc, j)) => match spec_scan(s, j, Seq::empty()) {
                        None => None,
                        Some(rest) => Some(seq![AstView::Add { a, b, c: cc }] + rest),
                    },
                }
            } else if acc2 == "SUB"@ {
                match spec_parse_3_arg(s, i + 1) {
                    None => None,
                    Some((a, b, cc, j)) => match spec_scan(s, j, Seq::empty()) {
                        None => None,
                        Some(rest) => Some(seq![AstView::Subtract { a, b, c: cc }] + rest),
                    },
                }
            } else if acc2 == "DIV"@ {
                match spec_parse_3_arg(s, i + 1) {
                    None => None,
                    Some((a, b, cc, j)) => match spec_scan(s, j, Seq::empty()) {
                        None => None,
                        Some(rest) => Some(seq![AstView::Divide { a, b, c: cc }] + rest),
                    },
                }
            } else if acc2 == "MUL"@ {
                match spec_parse_3_arg(s, i + 1) {
                    None => None,
                    Some((a, b, cc, j)) => match spec_scan(s, j, Seq::empty()) {
                        None => None,
                        Some(rest) => Some(seq![AstView::Multiply { a, b, c: cc }] + rest),
                    },
                }
            } else if acc2 == "YEET"@ {
                match spec_parse_3_arg(s, i + 1) {
                    None => None,
                    Some((a, b, cc, j)) => match spec_scan(s, j, Seq::empty()) {
                        None => None,
                        Some(rest) => Some(seq![AstView::Yeet { a, b, c: cc }] + rest),
                    },
                }
            } else if acc2 == "JHT"@ {
                match spec_parse_2_arg_with_label(s, i + 1) {
                    None => None,
                    Some((a, b, cc, j)) => match spec_scan(s, j, Seq::empty()) {
                        None => None,
                        Some(rest) => Some(
                            seq![AstView::JumpIfHigherThan { a, b, c: cc }] + rest,
                        ),
                    },
                }
            } else if acc2 == ":"@ {
                let (lbl, j) = spec_parse_label(s, i + 1);
                match spec_scan(s, j, Seq::empty()) {
                    None => None,
                    Some(rest) => Some(seq![AstView::LabelDefenition(lbl)] + rest),
                }
            } else if acc2 == "EXIT"@ {
                match spec_parse_1_arg(s, i + 1) {
                    None => None,
                    Some((name, j)) => match spec_scan(s, j, Seq::empty()) {
                        None => None,
                        Some(rest) => Some(seq![AstView::Exit { code: name }] + rest),
                    },
                }
            } else if acc2 == "JMP"@ {
                match spec_parse_jmp(s, i + 1) {
                    None => None,
                    Some((lbl, j)) => match spec_scan(s, j, Seq::empty()) {
                        None => None,
                        Some(rest) => Some(seq![AstView::Jump { a: lbl }] + rest),
                    },
                }
            } else if acc2 == "JE"@ {
                match spec_parse_2_arg_with_label(s, i + 1) {
                    None => None,
                    Some((a, b, cc, j)) => match spec_scan(s, j, Seq::empty()) {
                        None => None,
                        Some(rest) => Some(seq![AstView::Equal { a, b, c: cc }] + rest),
                    },
                }
            } else if acc2 == "JNE"@ {
                match spec_parse_2_arg_with_label(s, i + 1) {
                    None => None,
                    Some((a, b, cc, j)) => match spec_scan(s, j, Seq::empty()) {
                        None => None,
                        Some(rest) => Some(seq![AstView::NotEqual { a, b, c: cc }] + rest),
                    },
                }
            } else if acc2 == "CPY"@ {
                match spec_parse_2_arg(s, i + 1) {
                    None => None,
                    Some((a, b, j)) => match spec_scan(s, j, Seq::empty()) {
                        None => None,
                        Some(rest) => Some(seq![AstView::Copy { a, b }] + rest),
                    },
                }
            } else {
                spec_scan(s, i + 1, acc2)
            }
        }
    }
}

#[via_fn]
proof fn spec_scan_decreases(s: Seq<char>, i: int, acc: Seq<char>) {
    if 0 <= i < s.len() {
        lemma_skip_comment_range(s, i + 1);
        lemma_parse_def_range(s, i + 1);
        lemma_parse_3_arg_range(s, i + 1);
        lemma_parse_2_arg_with_label_range(s, i + 1);
        lemma_parse_label_range(s, i + 1);
        lemma_parse_1_arg_range(s, i + 1);
        lemma_parse_jmp_range(s, i + 1);
        lemma_parse_2_arg_range(s, i + 1);
    }
}

/// Prefixes a scan result with already-gathered instructions; a failed scan
/// stays failed.
pub open spec fn opt_prepend(pre: Seq<AstView>, o: Option<Seq<AstView>>) -> Option<Seq<AstView>> {
    match o {
        None => None,
        Some(rest) => Some(pre + rest),
    }
}

proof fn lemma_prepend_step(pre: Seq<AstView>, x: AstView, o: Option<Seq<AstView>>)
    ensures
        opt_prepend(pre, opt_prepend(seq![x], o)) == opt_prepend(pre.push(x), o),
{
    match o {
        None => {},
        Some(rest) => {
            assert(pre + (seq![x] + rest) =~= pre.push(x) + rest);
        },
    }
}


// ---------------------------------------------------------------------------
// Exec helpers
// ---------------------------------------------------------------------------

/// Character-wise string comparison.
fn str_eq(a: &str, b: &str) -> (r: bool)
    ensures
        r == (a@ == b@),
{
    let na = a.unicode_len();
    let nb = b.unicode_len();
    if na != nb {
        return false;
    }
    let mut i: usize = 0;
    while i < na
        invariant
            i <= na,
            na == a@.len(),
            nb == b@.len(),
            na == nb,
            forall|j: int| 0 <= j < i ==> a@[j] == b@[j],
        decreases na - i,
    {
        if a.get_char(i) != b.get_char(i) {
            return false;
        }
        i = i + 1;
    }
    proof {
        assert(a@ =~= b@);
    }
    true
}

/// Consumes a comment: everything up to and including the next newline.
fn ignore_comment(s: &str, pos: usize) -> (r: usize)
    requires
        pos <= s@.len(),
    ensures
        r as int == spec_skip_comment(s@, pos as int),
        pos <= r <= s@.len(),
{
    let n = s.unicode_len();
    let mut i: usize = pos;
    loop
        invariant
            pos <= i <= n,
            n == s@.len(),
            spec_skip_comment(s@, pos as int) == spec_skip_comment(s@, i as int),
        decreases n - i,
    {
        if i >= n {
            return n;
        }
        if s.get_char(i) == '\n' {
            return i + 1;
        }
        i = i + 1;
    }
}

/// Reads a label name: leading spaces are skipped, then characters up to a
/// space, newline or the end of the source. Never fails; the name may be
/// empty.
fn parse_label(s: &str, pos: usize) -> (r: (String, usize))
    requires
        pos <= s@.len(),
    ensures
        spec_parse_label(s@, pos as int) == (r.0@, r.1 as int),
        pos <= r.1 <= s@.len(),
{
    let n = s.unicode_len();
    let mut i: usize = pos;
    loop
        invariant_except_break
            label_skip(s@, pos as int) == label_skip(s@, i as int),
        invariant
            pos <= i <= n,
            n == s@.len(),
        ensures
            pos <= i <= n,
            label_skip(s@, pos as int) == i as int,
        decreases n - i,
    {
        if i >= n {
            break;
        }
        if s.get_char(i) != ' ' {
            break;
        }
        i = i + 1;
    }
    let start = i;
    let mut name_end: usize = 0;
    proof {
        assert(s@.subrange(start as int, start as int) =~= Seq::<char>::empty());
    }
    loop
        invariant_except_break
            label_acc(s@, start as int, Seq::empty()) == label_acc(
                s@,
                i as int,
                s@.subrange(start as int, i as int),
            ),
        invariant
            pos <= start <= i <= n,
            n == s@.len(),
            label_skip(s@, pos as int) == start as int,
        ensures
            start <= name_end <= i <= n,
            label_acc(s@, start as int, Seq::empty()) == (
                s@.subrange(start as int, name_end as int),
                i as int,
            ),
        decreases n - i,
    {
        if i >= n {
            name_end = i;
            break;
        }
        let c = s.get_char(i);
        if c == '\n' || c == ' ' {
            name_end = i;
            i = i + 1;
            break;
        }
        proof {
            assert(s@.subrange(start as int, i + 1) =~= s@.subrange(start as int, i as int).push(
                s@[i as int],
            ));
        }
        i = i + 1;
    }
    let name = String::from_str(s.substring_char(start, name_end));
    (name, i)
}

/// The normalization applied before parsing: every carriage return becomes a
/// newline.
pub open spec fn normalized(s: Seq<char>) -> Seq<char> {
    Seq::new(
        s.len(),
        |i: int|
            if s[i] == '\r' {
                '\n'
            } else {
                s[i]
            },
    )
}

/// Normalizes carriage-return characters in the source to newlines.
pub fn replace_windows_with_unix(string: String) -> (r: String)
    ensures
        r@ == normalized(string@),
{
    let s = string.as_str();
    let n = s.unicode_len();
    let mut out = String::new();
    let mut i: usize = 0;
    proof {
        reveal_strlit("\n");
    }
    while i < n
        invariant
            i <= n,
            n == s@.len(),
            s@ == string@,
            "\n"@ == seq!['\n'],
            out@ == normalized(string@).subrange(0, i as int),
        decreases n - i,
    {
        let c = s.get_char(i);
        if c == '\r' {
            out.append("\n");
        } else {
            out.append(s.substring_char(i, i + 1));
            proof {
                assert(s@.subrange(i as int, i + 1) =~= seq![s@[i as int]]);
            }
        }
        proof {
            assert(out@ =~= normalized(string@).subrange(0, i + 1));
        }
        i = i + 1;
    }
    proof {
        assert(normalized(string@).subrange(0, n as int) =~= normalized(string@));
    }
    out
}


// ---------------------------------------------------------------------------
// The scanner
// ---------------------------------------------------------------------------

/// Scans a whole source text into the abstract instruction list, in source
/// order. `None` reports malformed operand syntax, which aborts the whole
/// parse; symbol errors are not this layer's concern.
pub fn parse_string(source: String) -> (r: Option<Vec<AssASTTypes>>)
    ensures
        match r {
            Some(v) => spec_scan(source@, 0, Seq::empty()) == Some(views_of(v@)),
            None => spec_scan(source@, 0, Seq::empty()) is None,
        },
{
    let s = source.as_str();
    let n = s.unicode_len();
    let mut pos: usize = 0;
    let mut storage = String::new();
    let mut asl: Vec<AssASTTypes> = Vec::new();
    proof {
        assert(views_of(asl@) =~= Seq::<AstView>::empty());
        assert(views_of(asl@) + spec_scan(s@, 0, Seq::empty()).unwrap() =~= spec_scan(
            s@,
            0,
            Seq::empty(),
        ).unwrap());
    }
    while pos < n
        invariant
            pos <= n,
            n == s@.len(),
            s@ == source@,
            spec_scan(s@, 0, Seq::empty()) == opt_prepend(
                views_of(asl@),
                spec_scan(s@, pos as int, storage@),
            ),
        decreases n - pos,
    {
        let c = s.get_char(pos);
        if c == '\n' {
            storage = String::new();
            pos = pos + 1;
        } else if c == '#' {
            pos = ignore_comment(s, pos + 1);
        } else {
            let ghost st0: Seq<char> = storage@;
            let piece = s.substring_char(pos, pos + 1);
            storage.append(piece);
            proof {
                assert(s@.subrange(pos as int, pos + 1) =~= seq![s@[pos as int]]);
                assert(storage@ =~= st0.push(s@[pos as int]));
            }
            if str_eq(storage.as_str(), "DEF") {
                match parse_def_operator(s, pos + 1) {
                    None => {
                        proof {
                            assert(spec_scan(s@, pos as int, st0) is None);
                        }
                        return None;
                    },
                    Some(v) => {
                        let node = AssASTTypes::Define { name: Label(v.0.name), a: v.0.value };
                        proof {
                            assert(spec_scan(s@, pos as int, st0) == opt_prepend(
                                seq![node@],
                                spec_scan(s@, v.1 as int, Seq::empty()),
                            ));
                            lemma_prepend_step(
                                views_of(asl@),
                                node@,
                                spec_scan(s@, v.1 as int, Seq::empty()),
                            );
                            assert(views_of(asl@.push(node)) =~= views_of(asl@).push(node@));
                        }
                        asl.push(node);
                        storage = String::new();
                        pos = v.1;
                    },
                }
            } else if str_eq(storage.as_str(), "ADD") {
                match parse_3_argument_operator(s, pos + 1) {
                    None => {
                        proof {
                            assert(spec_scan(s@, pos as int, st0) is None);
                        }
                        return None;
                    },
                    Some(v) => {
                        let node = AssASTTypes::Add { a: Address(v.0.a_name), b: Address(v.0.b_name), c: Address(v.0.c_name) };
                        proof {
                            assert(spec_scan(s@, pos as int, st0) == opt_prepend(
                                seq![node@],
                                spec_scan(s@, v.1 as int, Seq::empty()),
                            ));
                            lemma_prepend_step(
                                views_of(asl@),
                                node@,
                                spec_scan(s@, v.1 as int, Seq::empty()),
                            );
                            assert(views_of(asl@.push(node)) =~= views_of(asl@).push(node@));
                        }
                        asl.push(node);
                        storage = String::new();
                        pos = v.1;
                    },
                }
            } else if str_eq(storage.as_str(), "SUB") {
                match parse_3_argument_operator(s, pos + 1) {
                    None => {
                        proof {
                            assert(spec_scan(s@, pos as int, st0) is None);
                        }
                        return None;
                    },
                    Some(v) => {
                        let node = AssASTTypes::Subtract { a: Address(v.0.a_name), b: Address(v.0.b_name), c: Address(v.0.c_name) };
                        proof {
                            assert(spec_scan(s@, pos as int, st0) == opt_prepend(
                                seq![node@],
                                spec_scan(s@, v.1 as int, Seq::empty()),
                            ));
                            lemma_prepend_step(
                                views_of(asl@),
                                node@,
                                spec_scan(s@, v.1 as int, Seq::empty()),
                            );
                            assert(views_of(asl@.push(node)) =~= views_of(asl@).push(node@));
                        }
                        asl.push(node);
                        storage = String::new();
                        pos = v.1;
                    },
                }
            } else if str_eq(storage.as_str(), "DIV") {
                match parse_3_argument_operator(s, pos + 1) {
                    None => {
                        proof {
                            assert(spec_scan(s@, pos as int, st0) is None);
                        }
                        return None;
                    },
                    Some(v) => {
                        let node = AssASTTypes::Divide { a: Address(v.0.a_name), b: Address(v.0.b_name), c: Address(v.0.c_name) };
                        proof {
                            assert(spec_scan(s@, pos as int, st0) == opt_prepend(
                                seq![node@],
                                spec_scan(s@, v.1 as int, Seq::empty()),
                            ));
                            lemma_prepend_step(
                                views_of(asl@),
                                node@,
                                spec_scan(s@, v.1 as int, Seq::empty()),
                            );
                            assert(views_of(asl@.push(node)) =~= views_of(asl@).push(node@));
                        }
                        asl.push(node);
                        storage = String::new();
                        pos = v.1;
                    },
                }
            } else if str_eq(storage.as_str(), "MUL") {
                match parse_3_argument_operator(s, pos + 1) {
                    None => {
                        proof {
                            assert(spec_scan(s@, pos as int, st0) is None);
                        }
                        return None;
                    },
                    Some(v) => {
                        let node = AssASTTypes::Multiply { a: Address(v.0.a_name), b: Address(v.0.b_name), c: Address(v.0.c_name) };
                        proof {
                            assert(spec_scan(s@, pos as int, st0) == opt_prepend(
                                seq![node@],
                                spec_scan(s@, v.1 as int, Seq::empty()),
                            ));
                            lemma_prepend_step(
                                views_of(asl@),
                                node@,
                                spec_scan(s@, v.1 as int, Seq::empty()),
                            );
                            assert(views_of(asl@.push(node)) =~= views_of(asl@).push(node@));
                        }
                        asl.push(node);
                        storage = String::new();
                        pos = v.1;
                    },
                }
            } else if str_eq(storage.as_str(), "YEET") {
                match parse_3_argument_operator(s, pos + 1) {
                    None => {
                        proof {
                            assert(spec_scan(s@, pos as int, st0) is None);
                        }
                        return None;
                    },
                    Some(v) => {
                        let node = AssASTTypes::Yeet { a: Address(v.0.a_name), b: Address(v.0.b_name), c: Address(v.0.c_name) };
                        proof {
                            assert(spec_scan(s@, pos as int, st0) == opt_prepend(
                                seq![node@],
                                spec_scan(s@, v.1 as int, Seq::empty()),
                            ));
                            lemma_prepend_step(
                                views_of(asl@),
                                node@,
                                spec_scan(s@, v.1 as int, Seq::empty()),
                            );
                            assert(views_of(asl@.push(node)) =~= views_of(asl@).push(node@));
                        }
                        asl.push(node);
                        storage = String::new();
                        pos = v.1;
                    },
                }
            } else if str_eq(storage.as_str(), "JHT") {
                match parse_2_arg_with_label_operator(s, pos + 1) {
                    None => {
                        proof {
                            assert(spec_scan(s@, pos as int, st0) is None);
                        }
                        return None;
                    },
                    Some(v) => {
                        let node = AssASTTypes::JumpIfHigherThan { a: Address(v.0.a_name), b: Address(v.0.b_name), c: Label(v.0.c_label_name) };
                        proof {
                            assert(spec_scan(s@, pos as int, st0) == opt_prepend(
                                seq![node@],
                                spec_scan(s@, v.1 as int, Seq::empty()),
                            ));
                            lemma_prepend_step(
                                views_of(asl@),
                                node@,
                                spec_scan(s@, v.1 as int, Seq::empty()),
                            );
                            assert(views_of(asl@.push(node)) =~= views_of(asl@).push(node@));
                        }
                        asl.push(node);
                        storage = String::new();
                        pos = v.1;
                    },
                }
            } else if str_eq(storage.as_str(), ":") {
                let v = parse_label(s, pos + 1);
                let node = AssASTTypes::LabelDefenition(Label(v.0));
                proof {
                    assert(spec_scan(s@, pos as int, st0) == opt_prepend(
                        seq![node@],
                        spec_scan(s@, v.1 as int, Seq::empty()),
                    ));
                    lemma_prepend_step(views_of(asl@), node@, spec_scan(s@, v.1 as int, Seq::empty()));
                    assert(views_of(asl@.push(node)) =~= views_of(asl@).push(node@));
                }
                asl.push(node);
                storage = String::new();
                pos = v.1;
            } else if str_eq(storage.as_str(), "EXIT") {
                match parse_1_arg_operator(s, pos + 1) {
                    None => {
                        proof {
                            assert(spec_scan(s@, pos as int, st0) is None);
                        }
                        return None;
                    },
                    Some(v) => {
                        let node = AssASTTypes::Exit { code: Address(v.0.name) };
                        proof {
                            assert(spec_scan(s@, pos as int, st0) == opt_prepend(
                                seq![node@],
                                spec_scan(s@, v.1 as int, Seq::empty()),
                            ));
                            lemma_prepend_step(
                                views_of(asl@),
                                node@,
                                spec_scan(s@, v.1 as int, Seq::empty()),
                            );
                            assert(views_of(asl@.push(node)) =~= views_of(asl@).push(node@));
                        }
                        asl.push(node);
                        storage = String::new();
                        pos = v.1;
                    },
                }
            } else if str_eq(storage.as_str(), "JMP") {
                match parse_jmp_argument_operator(s, pos + 1) {
                    None => {
                        proof {
                            assert(spec_scan(s@, pos as int, st0) is None);
                        }
                        return None;
                    },
                    Some(v) => {
                        let node = AssASTTypes::Jump { a: Label(v.0.label) };
                        proof {
                            assert(spec_scan(s@, pos as int, st0) == opt_prepend(
                                seq![node@],
                                spec_scan(s@, v.1 as int, Seq::empty()),
                            ));
                            lemma_prepend_step(
                                views_of(asl@),
                                node@,
                                spec_scan(s@, v.1 as int, Seq::empty()),
                            );
                            assert(views_of(asl@.push(node)) =~= views_of(asl@).push(node@));
                        }
                        asl.push(node);
                        storage = String::new();
                        pos = v.1;
                    },
                }
            } else if str_eq(storage.as_str(), "JE") {
                match parse_2_arg_with_label_operator(s, pos + 1) {
                    None => {
                        proof {
                            assert(spec_scan(s@, pos as int, st0) is None);
                        }
                        return None;
                    },
                    Some(v) => {
                        let node = AssASTTypes::Equal { a: Address(v.0.a_name), b: Address(v.0.b_name), c: Label(v.0.c_label_name) };
                        proof {
                            assert(spec_scan(s@, pos as int, st0) == opt_prepend(
                                seq![node@],
                                spec_scan(s@, v.1 as int, Seq::empty()),
                            ));
                            lemma_prepend_step(
                                views_of(asl@),
                                node@,
                                spec_scan(s@, v.1 as int, Seq::empty()),
                            );
                            assert(views_of(asl@.push(node)) =~= views_of(asl@).push(node@));
                        }
                        asl.push(node);
                        storage = String::new();
                        pos = v.1;
                    },
                }
            } else if str_eq(storage.as_str(), "JNE") {
                match parse_2_arg_with_label_operator(s, pos + 1) {
                    None => {
                        proof {
                            assert(spec_scan(s@, pos as int, st0) is None);
                        }
                        return None;
                    },
                    Some(v) => {
                        let node = AssASTTypes::NotEqual { a: Address(v.0.a_name), b: Address(v.0.b_name), c: Label(v.0.c_label_name) };
                        proof {
                            assert(spec_scan(s@, pos as int, st0) == opt_prepend(
                                seq![node@],
                                spec_scan(s@, v.1 as int, Seq::empty()),
                            ));
                            lemma_prepend_step(
                                views_of(asl@),
                                node@,
                                spec_scan(s@, v.1 as int, Seq::empty()),
                            );
                            assert(views_of(asl@.push(node)) =~= views_of(asl@).push(node@));
                        }
                        asl.push(node);
                        storage = String::new();
                        pos = v.1;
                    },
                }
            } else if str_eq(storage.as_str(), "CPY") {
                match parse_2_arg_operator(s, pos + 1) {
                    None => {
                        proof {
                            assert(spec_scan(s@, pos as int, st0) is None);
                        }
                        return None;
                    },
                    Some(v) => {
                        let node = AssASTTypes::Copy { a: Address(v.0.a_name), b: Address(v.0.b_name) };
                        proof {
                            assert(spec_scan(s@, pos as int, st0) == opt_prepend(
                                seq![node@],
                                spec_scan(s@, v.1 as int, Seq::empty()),
                            ));
                            lemma_prepend_step(
                                views_of(asl@),
                                node@,
                                spec_scan(s@, v.1 as int, Seq::empty()),
                            );
                            assert(views_of(asl@.push(node)) =~= views_of(asl@).push(node@));
                        }
                        asl.push(node);
                        storage = String::new();
                        pos = v.1;
                    },
                }
            } else {
                pos = pos + 1;
            }
        }
    }
    proof {
        assert(views_of(asl@) + Seq::<AstView>::empty() =~= views_of(asl@));
    }
    Some(asl)
}

// ---------------------------------------------------------------------------
// Blank and comment lines
// ---------------------------------------------------------------------------

/// The stretch of source from `i` to `j` consists only of blank lines and
/// comment lines.
pub open spec fn blank_comment_span(s: Seq<char>, i: int, j: int) -> bool
    decreases j - i,
    via blank_comment_span_decreases
{
    if i >= j {
        i == j
    } else if i < 0 || i >= s.len() {
        false
    } else if s[i] == '\n' {
        blank_comment_span(s, i + 1, j)
    } else if s[i] == '#' {
        let k = spec_skip_comment(s, i + 1);
        k <= j && blank_comment_span(s, k, j)
    } else {
        false
    }
}

#[via_fn]
proof fn blank_comment_span_decreases(s: Seq<char>, i: int, j: int) {
    if i < j && 0 <= i < s.len() {
        lemma_skip_comment_range(s, i + 1);
    }
}

/// Blank lines and comment lines never produce instructions: the scanner may
/// skip any span of them, at any line boundary, without changing its result.
/// Since the instruction and label address counters are functions of the
/// instruction list alone, such lines advance neither.
pub proof fn lemma_blank_comment_lines_ignored(s: Seq<char>, i: int, j: int)
    requires
        blank_comment_span(s, i, j),
    ensures
        spec_scan(s, i, Seq::empty()) == spec_scan(s, j, Seq::empty()),
    decreases j - i,
{
    if i >= j {
    } else if s[i] == '\n' {
        lemma_blank_comment_lines_ignored(s, i + 1, j);
    } else {
        let k = spec_skip_comment(s, i + 1);
        lemma_skip_comment_range(s, i + 1);
        lemma_blank_comment_lines_ignored(s, k, j);
    }
}

/// A source made only of blank lines and comment lines parses to the empty
/// instruction list.
pub proof fn lemma_blank_comment_program(s: Seq<char>)
    requires
        blank_comment_span(s, 0, s.len() as int),
    ensures
        spec_scan(s, 0, Seq::empty()) == Some(Seq::<AstView>::empty()),
{
    lemma_blank_comment_lines_ignored(s, 0, s.len() as int);
}

} // verus!\n