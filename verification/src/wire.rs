//! The machine's textual wire format: each concrete instruction serializes as
//! exactly four lines, a decimal opcode followed by the three decimal operand
//! fields, each line terminated by a newline. This module holds the encoder,
//! a decoder that is its exact inverse, and the decimal helpers both rely on.

use vstd::prelude::*;
use vstd::string::StringExecFns;
use crate::code_gen::RawInstructions;

verus! {

// ---------------------------------------------------------------------------
// Decimal digits
// ---------------------------------------------------------------------------

/// The character for one decimal digit value.
pub open spec fn digit_char(d: int) -> char {
    if d == 0 {
        '0'
    } else if d == 1 {
        '1'
    } else if d == 2 {
        '2'
    } else if d == 3 {
        '3'
    } else if d == 4 {
        '4'
    } else if d == 5 {
        '5'
    } else if d == 6 {
        '6'
    } else if d == 7 {
        '7'
    } else if d == 8 {
        '8'
    } else {
        '9'
    }
}

/// The value of one decimal digit character, or -1 for any other character.
pub open spec fn digit_val(c: char) -> int {
    if c == '0' {
        0
    } else if c == '1' {
        1
    } else if c == '2' {
        2
    } else if c == '3' {
        3
    } else if c == '4' {
        4
    } else if c == '5' {
        5
    } else if c == '6' {
        6
    } else if c == '7' {
        7
    } else if c == '8' {
        8
    } else if c == '9' {
        9
    } else {
        -1
    }
}

pub open spec fn is_dec_digit(c: char) -> bool {
    digit_val(c) >= 0
}

/// The canonical decimal digit string of a nonnegative number.
pub open spec fn dec_digits(n: int) -> Seq<char>
    recommends
        n >= 0,
    decreases n,
{
    if n < 10 {
        seq![digit_char(n)]
    } else {
        dec_digits(n / 10).push(digit_char(n % 10))
    }
}

/// The number a digit string denotes.
pub open spec fn dec_val(s: Seq<char>) -> int
    decreases s.len(),
{
    if s.len() == 0 {
        0
    } else {
        dec_val(s.drop_last()) * 10 + digit_val(s.last())
    }
}

pub open spec fn all_dec_digits(s: Seq<char>) -> bool {
    forall|i: int| 0 <= i < s.len() ==> is_dec_digit(s[i])
}

/// Every character of a decimal rendering is a digit; in particular the
/// rendering is nonempty and contains no newline.
pub proof fn lemma_dec_digits_shape(n: int)
    requires
        n >= 0,
    ensures
        all_dec_digits(dec_digits(n)),
        dec_digits(n).len() >= 1,
        forall|i: int| 0 <= i < dec_digits(n).len() ==> dec_digits(n)[i] != '\n',
    decreases n,
{
    if n < 10 {
    } else {
        lemma_dec_digits_shape(n / 10);
        assert forall|i: int| 0 <= i < dec_digits(n).len() implies is_dec_digit(dec_digits(n)[i])
            && dec_digits(n)[i] != '\n' by {
            if i < dec_digits(n / 10).len() {
                assert(dec_digits(n)[i] == dec_digits(n / 10)[i]);
            } else {
                assert(dec_digits(n)[i] == digit_char(n % 10));
            }
        }
    }
}

/// Reading back a decimal rendering recovers the number.
pub proof fn lemma_dec_round_trip(n: int)
    requires
        n >= 0,
    ensures
        dec_val(dec_digits(n)) == n,
    decreases n,
{
    if n < 10 {
        assert(dec_digits(n) == seq![digit_char(n)]);
        assert(dec_digits(n).drop_last() =~= Seq::<char>::empty());
        assert(dec_val(Seq::<char>::empty()) == 0);
        assert(dec_digits(n).last() == digit_char(n));
        assert(digit_val(digit_char(n)) == n);
    } else {
        lemma_dec_round_trip(n / 10);
        assert(dec_digits(n).drop_last() =~= dec_digits(n / 10));
        assert(dec_digits(n).last() == digit_char(n % 10));
        assert(digit_val(digit_char(n % 10)) == n % 10);
        assert(dec_val(dec_digits(n)) == (n / 10) * 10 + n % 10);
    }
}

/// A decimal digit as a one-character string slice.
fn digit_to_str(d: u64) -> (r: &'static str)
    requires
        d < 10,
    ensures
        r@ =~= seq![digit_char(d as int)],
{
    proof {
        reveal_strlit("0");
        reveal_strlit("1");
        reveal_strlit("2");
        reveal_strlit("3");
        reveal_strlit("4");
        reveal_strlit("5");
        reveal_strlit("6");
        reveal_strlit("7");
        reveal_strlit("8");
        reveal_strlit("9");
    }
    if d == 0 {
        "0"
    } else if d == 1 {
        "1"
    } else if d == 2 {
        "2"
    } else if d == 3 {
        "3"
    } else if d == 4 {
        "4"
    } else if d == 5 {
        "5"
    } else if d == 6 {
        "6"
    } else if d == 7 {
        "7"
    } else if d == 8 {
        "8"
    } else {
        "9"
    }
}

/// Renders a number in decimal.
pub fn u64_to_dec_string(n: u64) -> (r: String)
    ensures
        r@ == dec_digits(n as int),
    decreases n,
{
    if n < 10 {
        String::from_str(digit_to_str(n))
    } else {
        let mut s = u64_to_dec_string(n / 10);
        s.append(digit_to_str(n % 10));
        proof {
            assert(s@ =~= dec_digits(n as int / 10).push(digit_char(n as int % 10)));
        }
        s
    }
}

/// Classifies a character as a decimal digit.
pub(crate) fn char_digit(c: char) -> (r: Option<u64>)
    ensures
        match r {
            Some(d) => d < 10 && digit_val(c) == d as int,
            None => digit_val(c) < 0,
        },
{
    if c == '0' {
        Some(0)
    } else if c == '1' {
        Some(1)
    } else if c == '2' {
        Some(2)
    } else if c == '3' {
        Some(3)
    } else if c == '4' {
        Some(4)
    } else if c == '5' {
        Some(5)
    } else if c == '6' {
        Some(6)
    } else if c == '7' {
        Some(7)
    } else if c == '8' {
        Some(8)
    } else if c == '9' {
        Some(9)
    } else {
        None
    }
}

/// Accumulates one more decimal digit onto a value, keeping an overflow flag
/// once the value no longer fits a machine word.
pub(crate) fn dec_accumulate(val: u64, over: bool, d: u64) -> (r: (u64, bool))
    requires
        d < 10,
    ensures
        r.1 == (over || val as int * 10 + d as int > u64::MAX),
        !r.1 ==> r.0 as int == val as int * 10 + d as int,
{
    if over {
        (val, true)
    } else if val > (u64::MAX - d) / 10 {
        proof {
            assert(val as int * 10 + d as int > u64::MAX) by (nonlinear_arith)
                requires
                    val as int > ((u64::MAX - d) as int) / 10,
                    0 <= d < 10,
            ;
        }
        (val, true)
    } else {
        proof {
            assert(val as int * 10 + d as int <= u64::MAX) by (nonlinear_arith)
                requires
                    val as int <= ((u64::MAX - d) as int) / 10,
                    0 <= d < 10,
                    val >= 0,
            ;
        }
        (val * 10 + d, false)
    }
}

// ---------------------------------------------------------------------------
// Encoding
// ---------------------------------------------------------------------------

/// The fixed opcode word of a concrete instruction.
pub open spec fn instr_code(i: RawInstructions) -> int {
    match i {
        RawInstructions::ADD { .. } => 101,
        RawInstructions::COPY { .. } => 102,
        RawInstructions::WRITE { .. } => 103,
        RawInstructions::JMP { .. } => 104,
        RawInstructions::SUB { .. } => 105,
        RawInstructions::MUL { .. } => 106,
        RawInstructions::Equal { .. } => 107,
        RawInstructions::NotEqual { .. } => 108,
        RawInstructions::EXIT { .. } => 109,
        RawInstructions::JHT { .. } => 110,
        RawInstructions::YEET { .. } => 111,
        RawInstructions::DIV { .. } => 112,
    }
}

/// The three operand fields of a concrete instruction, unused fields as zero.
pub open spec fn instr_fields(i: RawInstructions) -> (int, int, int) {
    match i {
        RawInstructions::ADD { a, b } => (a as int, b as int, 0),
        RawInstructions::COPY { a, b } => (a as int, b as int, 0),
        RawInstructions::WRITE { a } => (a as int, 0, 0),
        RawInstructions::JMP { a } => (a as int, 0, 0),
        RawInstructions::SUB { a, b } => (a as int, b as int, 0),
        RawInstructions::MUL { a, b } => (a as int, b as int, 0),
        RawInstructions::Equal { a, b, c } => (a as int, b as int, c as int),
        RawInstructions::NotEqual { a, b, c } => (a as int, b as int, c as int),
        RawInstructions::EXIT { a } => (a as int, 0, 0),
        RawInstructions::JHT { a, b, c } => (a as int, b as int, c as int),
        RawInstructions::YEET { a, b, c } => (a as int, b as int, c as int),
        RawInstructions::DIV { a, b } => (a as int, b as int, 0),
    }
}

/// One line of the wire format: a decimal number terminated by a newline.
pub open spec fn encode_line(n: int) -> Seq<char> {
    dec_digits(n).push('\n')
}

/// The four-line wire encoding of one concrete instruction.
pub open spec fn instr_encoding(i: RawInstructions) -> Seq<char> {
    encode_line(instr_code(i)) + encode_line(instr_fields(i).0) + encode_line(instr_fields(i).1)
        + encode_line(instr_fields(i).2)
}

/// The wire encoding of a whole instruction list, in emission order, with no
/// framing around or between instructions.
pub open spec fn program_encoding(s: Seq<RawInstructions>) -> Seq<char>
    decreases s.len(),
{
    if s.len() == 0 {
        Seq::empty()
    } else {
        program_encoding(s.drop_last()) + instr_encoding(s.last())
    }
}

/// Appends one wire-format line to a string being built.
fn append_dec_line(out: &mut String, n: u64)
    ensures
        final(out)@ == old(out)@ + encode_line(n as int),
{
    let digits = u64_to_dec_string(n);
    out.append(digits.as_str());
    out.append("\n");
    proof {
        reveal_strlit("\n");
        assert(final(out)@ =~= old(out)@ + encode_line(n as int));
    }
}

/// Serializes one concrete instruction as its four wire-format lines.
pub fn raw_instruction_to_string(instruction: &RawInstructions) -> (r: String)
    ensures
        r@ == instr_encoding(*instruction),
{
    let (code, a, b, c): (u64, u64, u64, u64) = match *instruction {
        RawInstructions::ADD { a, b } => (101, a, b, 0),
        RawInstructions::WRITE { a } => (103, a, 0, 0),
        RawInstructions::COPY { a, b } => (102, a, b, 0),
        RawInstructions::EXIT { a } => (109, a, 0, 0),
        RawInstructions::SUB { a, b } => (105, a, b, 0),
        RawInstructions::MUL { a, b } => (106, a, b, 0),
        RawInstructions::JMP { a } => (104, a, 0, 0),
        RawInstructions::Equal { a, b, c } => (107, a, b, c),
        RawInstructions::NotEqual { a, b, c } => (108, a, b, c),
        RawInstructions::DIV { a, b } => (112, a, b, 0),
        RawInstructions::YEET { a, b, c } => (111, a, b, c),
        RawInstructions::JHT { a, b, c } => (110, a, b, c),
    };
    let mut out = String::new();
    append_dec_line(&mut out, code);
    append_dec_line(&mut out, a);
    append_dec_line(&mut out, b);
    append_dec_line(&mut out, c);
    proof {
        assert(out@ =~= instr_encoding(*instruction));
    }
    out
}

/// Serializes an instruction list in order.
pub fn raw_instructions_to_string(instructions: Vec<RawInstructions>) -> (r: String)
    ensures
        r@ == program_encoding(instructions@),
{
    let mut out = String::new();
    let mut i: usize = 0;
    while i < instructions.len()
        invariant
            i <= instructions.len(),
            out@ == program_encoding(instructions@.take(i as int)),
        decreases instructions.len() - i,
    {
        let piece = raw_instruction_to_string(&instructions[i]);
        out.append(piece.as_str());
        proof {
            assert(instructions@.take(i + 1).drop_last() =~= instructions@.take(i as int));
            assert(instructions@.take(i + 1).last() == instructions@[i as int]);
        }
        i = i + 1;
    }
    proof {
        assert(instructions@.take(instructions@.len() as int) =~= instructions@);
    }
    out
}

// ---------------------------------------------------------------------------
// Decoding
// ---------------------------------------------------------------------------

/// The index of the first newline in a character sequence, or its length when
/// it contains none.
pub open spec fn first_nl(s: Seq<char>) -> int
    decreases s.len(),
{
    if s.len() == 0 {
        0
    } else if s[0] == '\n' {
        0
    } else {
        1 + first_nl(s.skip(1))
    }
}

pub proof fn lemma_first_nl(s: Seq<char>)
    ensures
        0 <= first_nl(s) <= s.len(),
        first_nl(s) < s.len() ==> s[first_nl(s)] == '\n',
        forall|j: int| 0 <= j < first_nl(s) ==> s[j] != '\n',
    decreases s.len(),
{
    if s.len() == 0 || s[0] == '\n' {
    } else {
        lemma_first_nl(s.skip(1));
        assert forall|j: int| 0 <= j < first_nl(s) implies s[j] != '\n' by {
            if j > 0 {
                assert(s.skip(1)[j - 1] == s[j]);
            }
        }
        if first_nl(s) < s.len() {
            assert(s.skip(1)[first_nl(s) - 1] == s[first_nl(s)]);
        }
    }
}

/// Reads one wire-format line: a nonempty run of decimal digits denoting a
/// value that fits a machine word, terminated by a newline. Returns the value
/// and the remainder after the newline.
pub open spec fn decode_line(s: Seq<char>) -> Option<(int, Seq<char>)> {
    let k = first_nl(s);
    if 0 < k < s.len() && all_dec_digits(s.take(k)) && dec_val(s.take(k)) <= u64::MAX {
        Some((dec_val(s.take(k)), s.skip(k + 1)))
    } else {
        None
    }
}

/// Maps an opcode word and three fields back to the instruction they encode;
/// fields the opcode's instruction does not carry must be zero.
pub open spec fn decode_op(code: int, a: int, b: int, c: int) -> Option<RawInstructions>
    recommends
        0 <= a <= u64::MAX,
        0 <= b <= u64::MAX,
        0 <= c <= u64::MAX,
{
    if code == 101 && c == 0 {
        Some(RawInstructions::ADD { a: a as u64, b: b as u64 })
    } else if code == 102 && c == 0 {
        Some(RawInstructions::COPY { a: a as u64, b: b as u64 })
    } else if code == 103 && b == 0 && c == 0 {
        Some(RawInstructions::WRITE { a: a as u64 })
    } else if code == 104 && b == 0 && c == 0 {
        Some(RawInstructions::JMP { a: a as u64 })
    } else if code == 105 && c == 0 {
        Some(RawInstructions::SUB { a: a as u64, b: b as u64 })
    } else if code == 106 && c == 0 {
        Some(RawInstructions::MUL { a: a as u64, b: b as u64 })
    } else if code == 107 {
        Some(RawInstructions::Equal { a: a as u64, b: b as u64, c: c as u64 })
    } else if code == 108 {
        Some(RawInstructions::NotEqual { a: a as u64, b: b as u64, c: c as u64 })
    } else if code == 109 && b == 0 && c == 0 {
        Some(RawInstructions::EXIT { a: a as u64 })
    } else if code == 110 {
        Some(RawInstructions::JHT { a: a as u64, b: b as u64, c: c as u64 })
    } else if code == 111 {
        Some(RawInstructions::YEET { a: a as u64, b: b as u64, c: c as u64 })
    } else if code == 112 && c == 0 {
        Some(RawInstructions::DIV { a: a as u64, b: b as u64 })
    } else {
        None
    }
}

/// The inverse of `instr_encoding`: four wire-format lines making up exactly
/// one instruction, with nothing left over.
pub open spec fn instr_decoding(s: Seq<char>) -> Option<RawInstructions> {
    match decode_line(s) {
        None => None,
        Some((code, r1)) => match decode_line(r1) {
            None => None,
            Some((a, r2)) => match decode_line(r2) {
                None => None,
                Some((b, r3)) => match decode_line(r3) {
                    None => None,
                    Some((c, r4)) => if r4.len() == 0 {
                        decode_op(code, a, b, c)
                    } else {
                        None
                    },
                },
            },
        },
    }
}

proof fn lemma_first_nl_concat(d: Seq<char>, rest: Seq<char>)
    requires
        forall|j: int| 0 <= j < d.len() ==> d[j] != '\n',
    ensures
        first_nl(d + seq!['\n'] + rest) == d.len(),
    decreases d.len(),
{
    let s = d + seq!['\n'] + rest;
    if d.len() == 0 {
        assert(s[0] == '\n');
    } else {
        assert(s[0] == d[0]);
        lemma_first_nl_concat(d.skip(1), rest);
        assert(s.skip(1) =~= d.skip(1) + seq!['\n'] + rest);
    }
}

/// Reading one line off the encoding of `n` followed by anything recovers `n`
/// and the rest.
proof fn lemma_decode_line_of_encoding(n: int, rest: Seq<char>)
    requires
        0 <= n <= u64::MAX,
    ensures
        decode_line(encode_line(n) + rest) == Some((n, rest)),
{
    let d = dec_digits(n);
    let s = encode_line(n) + rest;
    lemma_dec_digits_shape(n);
    lemma_dec_round_trip(n);
    assert(s =~= d + seq!['\n'] + rest);
    lemma_first_nl_concat(d, rest);
    assert(s.take(d.len() as int) =~= d);
    assert(s.skip(d.len() as int + 1) =~= rest);
}

/// Encoding then decoding a concrete instruction recovers the exact opcode
/// and field values: the decoder is the inverse of the encoder.
#[verifier::rlimit(100)]
pub proof fn lemma_instruction_round_trip(i: RawInstructions)
    ensures
        instr_decoding(instr_encoding(i)) == Some(i),
{
    assert(0 <= instr_fields(i).0 <= u64::MAX && 0 <= instr_fields(i).1 <= u64::MAX && 0
        <= instr_fields(i).2 <= u64::MAX);
    let code = instr_code(i);
    let (a, b, c) = instr_fields(i);
    let s3 = encode_line(c) + Seq::<char>::empty();
    let s2 = encode_line(b) + s3;
    let s1 = encode_line(a) + s2;
    assert(instr_encoding(i) =~= encode_line(code) + s1);
    assert(encode_line(c) =~= s3);
    lemma_decode_line_of_encoding(code, s1);
    lemma_decode_line_of_encoding(a, s2);
    lemma_decode_line_of_encoding(b, s3);
    lemma_decode_line_of_encoding(c, Seq::<char>::empty());
    assert(decode_line(instr_encoding(i)) == Some((code, s1)));
    assert(decode_line(s1) == Some((a, s2)));
    assert(decode_line(s2) == Some((b, s3)));
    assert(decode_line(s3) == Some((c, Seq::<char>::empty())));
    assert(decode_op(code, a, b, c) == Some(i));
}

/// The exec counterpart of `decode_line`: reads one decimal line starting at
/// `pos`, returning the value and the position just past the newline.
fn read_dec_line(s: &str, pos: usize) -> (r: Option<(u64, usize)>)
    requires
        pos <= s@.len(),
    ensures
        match r {
            Some(v) => decode_line(s@.skip(pos as int)) == Some(
                (v.0 as int, s@.skip(v.1 as int)),
            ) && pos < v.1 <= s@.len(),
            None => decode_line(s@.skip(pos as int)) is None,
        },
{
    let ghost suffix = s@.skip(pos as int);
    let n = s.unicode_len();
    let mut i: usize = pos;
    let mut val: u64 = 0;
    let mut over: bool = false;
    proof {
        lemma_first_nl(suffix);
        assert(suffix.take(0) =~= Seq::<char>::empty());
    }
    while i < n
        invariant
            pos <= i <= n,
            n == s@.len(),
            suffix == s@.skip(pos as int),
            all_dec_digits(suffix.take(i - pos)),
            forall|j: int| pos <= j < i ==> s@[j] != '\n',
            dec_val(suffix.take(i - pos)) >= 0,
            !over ==> val as int == dec_val(suffix.take(i - pos)),
            over ==> dec_val(suffix.take(i - pos)) > u64::MAX,
        decreases n - i,
    {
        let c = s.get_char(i);
        proof {
            assert(suffix[i - pos] == s@[i as int]);
            lemma_first_nl(suffix);
        }
        if c == '\n' {
            proof {
                assert forall|m: int| 0 <= m < i - pos implies suffix[m] != '\n' by {
                    assert(suffix[m] == s@[pos + m]);
                }
                if first_nl(suffix) < i - pos {
                    assert(suffix[first_nl(suffix)] != '\n');
                }
                if first_nl(suffix) > i - pos {
                    assert(suffix[i - pos] != '\n');
                }
                assert(first_nl(suffix) == i - pos);
            }
            if i == pos {
                return None;
            }
            if over {
                return None;
            }
            proof {
                assert(suffix.skip(i - pos + 1) =~= s@.skip(i + 1));
            }
            return Some((val, i + 1));
        }
        let d: u64 = if c == '0' {
            0
        } else if c == '1' {
            1
        } else if c == '2' {
            2
        } else if c == '3' {
            3
        } else if c == '4' {
            4
        } else if c == '5' {
            5
        } else if c == '6' {
            6
        } else if c == '7' {
            7
        } else if c == '8' {
            8
        } else if c == '9' {
            9
        } else {
            proof {
                assert forall|m: int| 0 <= m < i - pos implies suffix[m] != '\n' by {
                    assert(suffix[m] == s@[pos + m]);
                }
                if first_nl(suffix) < i - pos {
                    assert(suffix[first_nl(suffix)] != '\n');
                }
                let k = first_nl(suffix);
                if 0 < k < suffix.len() {
                    assert(suffix.take(k)[i - pos] == suffix[i - pos]);
                    assert(!is_dec_digit(suffix[i - pos]));
                    assert(!all_dec_digits(suffix.take(k)));
                }
            }
            return None;
        };
        proof {
            assert(digit_val(c) == d as int);
            assert(suffix.take(i - pos + 1) =~= suffix.take(i - pos).push(c));
            assert(suffix.take(i - pos + 1).drop_last() =~= suffix.take(i - pos));
            assert(dec_val(suffix.take(i - pos + 1)) == dec_val(suffix.take(i - pos)) * 10
                + d as int);
        }
        if !over {
            if val > (u64::MAX - d) / 10 {
                over = true;
                proof {
                    assert(val as int * 10 + d as int > u64::MAX) by (nonlinear_arith)
                        requires
                            val as int > ((u64::MAX - d) as int) / 10,
                            0 <= d < 10,
                    ;
                }
            } else {
                proof {
                    assert(val as int * 10 + d as int <= u64::MAX) by (nonlinear_arith)
                        requires
                            val as int <= ((u64::MAX - d) as int) / 10,
                            0 <= d < 10,
                            val >= 0,
                    ;
                }
                val = val * 10 + d;
            }
        } else {
            proof {
                assert(dec_val(suffix.take(i - pos)) * 10 + d as int > u64::MAX) by (
                nonlinear_arith)
                    requires
                        dec_val(suffix.take(i - pos)) > u64::MAX,
                        d >= 0,
                ;
            }
        }
        i = i + 1;
    }
    proof {
        lemma_first_nl(suffix);
        assert forall|m: int| 0 <= m < suffix.len() implies suffix[m] != '\n' by {
            assert(suffix[m] == s@[pos + m]);
        }
        if first_nl(suffix) < suffix.len() {
            assert(suffix[first_nl(suffix)] != '\n');
        }
    }
    None
}

/// The exec counterpart of `instr_decoding`: parses a string holding exactly
/// one wire-encoded instruction.
pub fn raw_instruction_from_string(s: &str) -> (r: Option<RawInstructions>)
    ensures
        r == instr_decoding(s@),
{
    proof {
        assert(s@.skip(0) =~= s@);
    }
    let (code, p1) = match read_dec_line(s, 0) {
        None => {
            return None;
        },
        Some(v) => v,
    };
    let (a, p2) = match read_dec_line(s, p1) {
        None => {
            return None;
        },
        Some(v) => v,
    };
    let (b, p3) = match read_dec_line(s, p2) {
        None => {
            return None;
        },
        Some(v) => v,
    };
    let (c, p4) = match read_dec_line(s, p3) {
        None => {
            return None;
        },
        Some(v) => v,
    };
    if p4 < s.unicode_len() {
        return None;
    }
    proof {
        assert(s@.skip(p4 as int).len() == 0);
    }
    if code == 101 && c == 0 {
        Some(RawInstructions::ADD { a, b })
    } else if code == 102 && c == 0 {
        Some(RawInstructions::COPY { a, b })
    } else if code == 103 && b == 0 && c == 0 {
        Some(RawInstructions::WRITE { a })
    } else if code == 104 && b == 0 && c == 0 {
        Some(RawInstructions::JMP { a })
    } else if code == 105 && c == 0 {
        Some(RawInstructions::SUB { a, b })
    } else if code == 106 && c == 0 {
        Some(RawInstructions::MUL { a, b })
    } else if code == 107 {
        Some(RawInstructions::Equal { a, b, c })
    } else if code == 108 {
        Some(RawInstructions::NotEqual { a, b, c })
    } else if code == 109 && b == 0 && c == 0 {
        Some(RawInstructions::EXIT { a })
    } else if code == 110 {
        Some(RawInstructions::JHT { a, b, c })
    } else if code == 111 {
        Some(RawInstructions::YEET { a, b, c })
    } else if code == 112 && c == 0 {
        Some(RawInstructions::DIV { a, b })
    } else {
        None
    }
}

} // verus!
