//! The mathematical reading of each textual construct: specification-level
//! scan functions over the input sequence, against which the executable
//! parsing rules are proved. Each takes the input and a position and says
//! exactly what a conformant rule consumes, produces, or reports.

use vstd::prelude::*;

use crate::cursor::is_ws_char;
use crate::cursor::first_non_ws;
use crate::cursor::lemma_first_non_ws;
use crate::cursor::lemma_first_non_ws_shift;
use crate::cursor::lemma_first_non_ws_ws_run;
use crate::cursor::lemma_ws_prefix_insensitive;
use crate::error::ParseError;
use crate::error::is_unexpected_character;
use crate::error::is_control_character;
use crate::error::is_non_hex_character;
use crate::unicode::is_hex_digit;
use crate::unicode::hexv;
use crate::unicode::is_surrogate_unit;
use crate::unicode::is_low_surrogate;
use crate::unicode::combined_scalar;

verus! {

/// The abstract form of a parse error, over mathematical values.
pub enum ErrSpec {
    UnexpectedChar { c: char, at: int, expected: Seq<char> },
    Eos,
    Control { c: char, at: int },
    NonHex { c: char, at: int },
}

/// The concrete error `e` reports exactly what the abstract error `m` says.
pub open spec fn matches_err(e: ParseError, m: ErrSpec) -> bool {
    match m {
        ErrSpec::UnexpectedChar { c, at, expected } => is_unexpected_character(e, c, at, expected),
        ErrSpec::Eos => e matches ParseError::UnexpectedEndOfString,
        ErrSpec::Control { c, at } => is_control_character(e, c, at),
        ErrSpec::NonHex { c, at } => is_non_hex_character(e, c, at),
    }
}

/// The outcome of matching a fixed literal character by character.
pub enum LitScan {
    Matched,
    Eos,
    Mismatch { c: char, at: int },
}

/// Matches `lit` against `s` starting at `pos`: `Matched` when every
/// character agrees, `Eos` when the input runs out first, otherwise the
/// first disagreeing character and its index.
pub open spec fn literal_scan(s: Seq<char>, pos: int, lit: Seq<char>) -> LitScan
    decreases lit.len(),
{
    if lit.len() == 0 {
        LitScan::Matched
    } else if pos >= s.len() {
        LitScan::Eos
    } else if s[pos] == lit[0] {
        literal_scan(s, pos + 1, lit.skip(1))
    } else {
        LitScan::Mismatch { c: s[pos], at: pos }
    }
}

/// The outcome of reading four hexadecimal digits.
pub enum Hex4Scan {
    Value(u16),
    Eos,
    NonHex { c: char, at: int },
}

/// The UTF-16 code unit encoded by the four hexadecimal digits at
/// `pos..pos + 4`.
pub open spec fn hex4_val(s: Seq<char>, pos: int) -> u16 {
    (hexv(s[pos]) * 0x1000 + hexv(s[pos + 1]) * 0x100 + hexv(s[pos + 2]) * 0x10 + hexv(
        s[pos + 3],
    )) as u16
}

/// Reads four hexadecimal digits at `pos`: their value, or the end of the
/// input, or the first character that is no hexadecimal digit.
pub open spec fn hex4_scan(s: Seq<char>, pos: int) -> Hex4Scan {
    if pos >= s.len() {
        Hex4Scan::Eos
    } else if !is_hex_digit(s[pos]) {
        Hex4Scan::NonHex { c: s[pos], at: pos }
    } else if pos + 1 >= s.len() {
        Hex4Scan::Eos
    } else if !is_hex_digit(s[pos + 1]) {
        Hex4Scan::NonHex { c: s[pos + 1], at: pos + 1 }
    } else if pos + 2 >= s.len() {
        Hex4Scan::Eos
    } else if !is_hex_digit(s[pos + 2]) {
        Hex4Scan::NonHex { c: s[pos + 2], at: pos + 2 }
    } else if pos + 3 >= s.len() {
        Hex4Scan::Eos
    } else if !is_hex_digit(s[pos + 3]) {
        Hex4Scan::NonHex { c: s[pos + 3], at: pos + 3 }
    } else {
        Hex4Scan::Value(hex4_val(s, pos))
    }
}

/// What a single-character escape resolves to, `None` when the character
/// selects no escape (the `u` of a unicode escape is handled separately).
pub open spec fn simple_escape_val(c: char) -> Option<char> {
    if c == '"' {
        Some('"')
    } else if c == '\\' {
        Some('\\')
    } else if c == '/' {
        Some('/')
    } else if c == 'b' {
        Some('\u{0008}')
    } else if c == 'f' {
        Some('\u{000C}')
    } else if c == 'n' {
        Some('\n')
    } else if c == 'r' {
        Some('\r')
    } else if c == 't' {
        Some('\t')
    } else {
        None
    }
}

/// The characters allowed after a backslash.
pub open spec fn escape_expected() -> Seq<char> {
    seq!['"', '\\', '/', 'b', 'f', 'n', 'r', 't', 'u']
}

/// The outcome of scanning a string body: its decoded content and the
/// index just past the closing quote, or the error.
pub enum StrScan {
    Done { content: Seq<char>, end: int },
    Bad { err: ErrSpec },
}

/// Prefixes one decoded scalar onto a successful scan; an error stands.
pub open spec fn str_scan_prepend(c: char, rest: StrScan) -> StrScan {
    match rest {
        StrScan::Done { content, end } => StrScan::Done { content: seq![c] + content, end },
        StrScan::Bad { err } => StrScan::Bad { err },
    }
}

/// Scans a string body at `pos` (just after the opening quote): consumes
/// unescaped characters, resolves escapes, recombines surrogate pairs, and
/// stops just past the closing quote. Control characters below 0x20 must be
/// escaped; a surrogate escape that is not a well-paired high-then-low pair
/// fails.
pub open spec fn str_scan(s: Seq<char>, pos: int) -> StrScan
    decreases s.len() - pos,
{
    if pos < 0 || pos >= s.len() {
        StrScan::Bad { err: ErrSpec::Eos }
    } else if s[pos] == '"' {
        StrScan::Done { content: Seq::empty(), end: pos + 1 }
    } else if s[pos] == '\\' {
        if pos + 1 >= s.len() {
            StrScan::Bad { err: ErrSpec::Eos }
        } else if s[pos + 1] == 'u' {
            match hex4_scan(s, pos + 2) {
                Hex4Scan::Value(w0) => if !is_surrogate_unit(w0) {
                    str_scan_prepend((w0 as u32) as char, str_scan(s, pos + 6))
                } else if is_low_surrogate(w0) {
                    StrScan::Bad { err: ErrSpec::NonHex { c: s[pos + 5], at: pos + 5 } }
                } else {
                    str_scan_pair(s, pos, w0)
                },
                Hex4Scan::Eos => StrScan::Bad { err: ErrSpec::Eos },
                Hex4Scan::NonHex { c, at } => StrScan::Bad { err: ErrSpec::NonHex { c, at } },
            }
        } else {
            match simple_escape_val(s[pos + 1]) {
                Some(d) => str_scan_prepend(d, str_scan(s, pos + 2)),
                None => StrScan::Bad {
                    err: ErrSpec::UnexpectedChar {
                        c: s[pos + 1],
                        at: pos + 1,
                        expected: escape_expected(),
                    },
                },
            }
        }
    } else if (s[pos] as u32) < 0x20 {
        StrScan::Bad { err: ErrSpec::Control { c: s[pos], at: pos } }
    } else {
        str_scan_prepend(s[pos], str_scan(s, pos + 1))
    }
}

/// Scans the low-surrogate escape that must follow the high surrogate `w0`
/// whose own escape began at `pos`.
pub open spec fn str_scan_pair(s: Seq<char>, pos: int, w0: u16) -> StrScan
    decreases s.len() - pos, 0int,
{
    if pos + 6 >= s.len() {
        StrScan::Bad { err: ErrSpec::Eos }
    } else if s[pos + 6] != '\\' {
        StrScan::Bad {
            err: ErrSpec::UnexpectedChar { c: s[pos + 6], at: pos + 6, expected: seq!['\\'] },
        }
    } else if pos + 7 >= s.len() {
        StrScan::Bad { err: ErrSpec::Eos }
    } else if s[pos + 7] != 'u' {
        StrScan::Bad {
            err: ErrSpec::UnexpectedChar { c: s[pos + 7], at: pos + 7, expected: seq!['u'] },
        }
    } else {
        match hex4_scan(s, pos + 8) {
            Hex4Scan::Value(w1) => if is_low_surrogate(w1) {
                str_scan_prepend(combined_scalar(w0, w1) as char, str_scan(s, pos + 12))
            } else {
                StrScan::Bad { err: ErrSpec::NonHex { c: s[pos + 11], at: pos + 11 } }
            },
            Hex4Scan::Eos => StrScan::Bad { err: ErrSpec::Eos },
            Hex4Scan::NonHex { c, at } => StrScan::Bad { err: ErrSpec::NonHex { c, at } },
        }
    }
}

/// A successful scan seen through an already-decoded prefix.
pub open spec fn str_scan_with_prefix(p: Seq<char>, sc: StrScan) -> StrScan {
    match sc {
        StrScan::Done { content, end } => StrScan::Done { content: p + content, end },
        StrScan::Bad { err } => StrScan::Bad { err },
    }
}

/// Folding one decoded scalar into the prefix commutes with prepending it
/// to the scan's content.
pub proof fn lemma_prefix_prepend(p: Seq<char>, c: char, sc: StrScan)
    ensures
        str_scan_with_prefix(p, str_scan_prepend(c, sc)) == str_scan_with_prefix(p.push(c), sc),
{
    match sc {
        StrScan::Done { content, end } => {
            assert(p + (seq![c] + content) =~= p.push(c) + content);
        },
        StrScan::Bad { err } => {},
    }
}

/// The index of the first character at or after `from` that is no decimal
/// digit; the length when the digits run to the end.
pub open spec fn digits_end(s: Seq<char>, from: int) -> int
    decreases s.len() - from,
{
    if from < 0 || from >= s.len() {
        s.len() as int
    } else if is_digit(s[from]) {
        digits_end(s, from + 1)
    } else {
        from
    }
}

/// Whether `c` is a decimal digit.
pub open spec fn is_digit(c: char) -> bool {
    '0' as u32 <= c as u32 && c as u32 <= '9' as u32
}

/// The decimal digits, as the expected set of a number error.
pub open spec fn digit_expected() -> Seq<char> {
    seq!['0', '1', '2', '3', '4', '5', '6', '7', '8', '9']
}

/// The outcome of scanning a number literal: the index just past its last
/// character, or the error.
pub enum NumScan {
    Lit { end: int },
    Bad { err: ErrSpec },
}

/// Scans the number literal at `pos` greedily: an optional minus sign, an
/// integer part that is `0` or starts with a nonzero digit, an optional
/// fraction, an optional exponent. A sign, decimal point or exponent marker
/// with no digit after it is an error at the offending position.
pub open spec fn num_scan(s: Seq<char>, pos: int) -> NumScan {
    let q = if pos < s.len() && s[pos] == '-' {
        pos + 1
    } else {
        pos
    };
    if q >= s.len() {
        NumScan::Bad { err: ErrSpec::Eos }
    } else if !is_digit(s[q]) {
        NumScan::Bad { err: ErrSpec::UnexpectedChar { c: s[q], at: q, expected: digit_expected() } }
    } else if s[q] == '0' {
        if q + 1 < s.len() && is_digit(s[q + 1]) {
            NumScan::Bad {
                err: ErrSpec::UnexpectedChar {
                    c: s[q + 1],
                    at: q + 1,
                    expected: zero_follow_expected(),
                },
            }
        } else {
            num_scan_frac(s, q + 1)
        }
    } else {
        num_scan_frac(s, digits_end(s, q))
    }
}

/// What may continue a number whose integer part is a leading `0`: only a
/// fraction or an exponent, never another digit.
pub open spec fn zero_follow_expected() -> Seq<char> {
    seq!['.', 'e', 'E']
}

/// Scans the optional fraction at `int_end`, then hands on to the exponent.
pub open spec fn num_scan_frac(s: Seq<char>, int_end: int) -> NumScan {
    if int_end < s.len() && s[int_end] == '.' {
        if int_end + 1 >= s.len() {
            NumScan::Bad { err: ErrSpec::Eos }
        } else if !is_digit(s[int_end + 1]) {
            NumScan::Bad {
                err: ErrSpec::UnexpectedChar {
                    c: s[int_end + 1],
                    at: int_end + 1,
                    expected: digit_expected(),
                },
            }
        } else {
            num_scan_exp(s, digits_end(s, int_end + 1))
        }
    } else {
        num_scan_exp(s, int_end)
    }
}

/// Scans the optional exponent at `frac_end`; its end is the literal's end.
pub open spec fn num_scan_exp(s: Seq<char>, frac_end: int) -> NumScan {
    if frac_end < s.len() && (s[frac_end] == 'e' || s[frac_end] == 'E') {
        let q = if frac_end + 1 < s.len() && (s[frac_end + 1] == '+' || s[frac_end + 1] == '-') {
            frac_end + 2
        } else {
            frac_end + 1
        };
        if q >= s.len() {
            NumScan::Bad { err: ErrSpec::Eos }
        } else if !is_digit(s[q]) {
            NumScan::Bad {
                err: ErrSpec::UnexpectedChar { c: s[q], at: q, expected: digit_expected() },
            }
        } else {
            NumScan::Lit { end: digits_end(s, q) }
        }
    } else {
        NumScan::Lit { end: frac_end }
    }
}

/// The `null` literal.
pub open spec fn null_literal() -> Seq<char> {
    seq!['n', 'u', 'l', 'l']
}

/// The `true` literal.
pub open spec fn true_literal() -> Seq<char> {
    seq!['t', 'r', 'u', 'e']
}

/// The `false` literal.
pub open spec fn false_literal() -> Seq<char> {
    seq!['f', 'a', 'l', 's', 'e']
}

/// The digits run neither stops early nor overruns: everything before
/// `digits_end` is a digit and the character there, if any, is none.
pub proof fn lemma_digits_end(s: Seq<char>, from: int)
    requires
        0 <= from <= s.len(),
    ensures
        from <= digits_end(s, from) <= s.len(),
        forall|t: int| from <= t < digits_end(s, from) ==> is_digit(s[t]),
        digits_end(s, from) < s.len() ==> !is_digit(s[digits_end(s, from)]),
    decreases s.len() - from,
{
    if from < s.len() && is_digit(s[from]) {
        lemma_digits_end(s, from + 1);
    }
}

/// A successful string-body scan ends past where it began and within the
/// input.
pub proof fn lemma_str_scan_end(s: Seq<char>, pos: int)
    requires
        0 <= pos,
    ensures
        str_scan(s, pos) matches StrScan::Done { content, end } ==> pos < end <= s.len(),
    decreases s.len() - pos,
{
    if pos >= s.len() {
    } else if s[pos] == '"' {
    } else if s[pos] == '\\' {
        if pos + 1 >= s.len() {
        } else if s[pos + 1] == 'u' {
            match hex4_scan(s, pos + 2) {
                Hex4Scan::Value(w0) => {
                    if !is_surrogate_unit(w0) {
                        lemma_str_scan_end(s, pos + 6);
                        assert(str_scan(s, pos) == str_scan_prepend(
                            (w0 as u32) as char,
                            str_scan(s, pos + 6),
                        ));
                    } else if is_low_surrogate(w0) {
                    } else {
                        assert(str_scan(s, pos) == str_scan_pair(s, pos, w0));
                        if pos + 7 < s.len() && s[pos + 6] == '\\' && s[pos + 7] == 'u' {
                            match hex4_scan(s, pos + 8) {
                                Hex4Scan::Value(w1) => {
                                    if is_low_surrogate(w1) {
                                        lemma_str_scan_end(s, pos + 12);
                                        assert(str_scan_pair(s, pos, w0) == str_scan_prepend(
                                            combined_scalar(w0, w1) as char,
                                            str_scan(s, pos + 12),
                                        ));
                                    }
                                },
                                _ => {},
                            }
                        }
                    }
                },
                _ => {},
            }
        } else {
            if simple_escape_val(s[pos + 1]) is Some {
                lemma_str_scan_end(s, pos + 2);
            }
        }
    } else if (s[pos] as u32) < 0x20 {
    } else {
        lemma_str_scan_end(s, pos + 1);
    }
}

/// The characters that can begin a JSON value: the object and array
/// openers, the string quote, the literal starters, the minus sign and the
/// digits.
pub open spec fn value_starters() -> Seq<char> {
    seq!['{', '[', '"', 't', 'f', 'n', '-'] + digit_expected()
}

/// Whether `c` can begin a JSON value.
pub open spec fn is_value_starter(c: char) -> bool {
    c == '{' || c == '[' || c == '"' || c == 't' || c == 'f' || c == 'n' || c == '-' || is_digit(c)
}

/// The same abstract error, reported `d` positions later.
pub open spec fn err_shifted(m: ErrSpec, d: int) -> ErrSpec {
    match m {
        ErrSpec::UnexpectedChar { c, at, expected } => ErrSpec::UnexpectedChar {
            c,
            at: at + d,
            expected,
        },
        ErrSpec::Eos => ErrSpec::Eos,
        ErrSpec::Control { c, at } => ErrSpec::Control { c, at: at + d },
        ErrSpec::NonHex { c, at } => ErrSpec::NonHex { c, at: at + d },
    }
}

/// The same string scan, ending `d` positions later.
pub open spec fn str_scan_shifted(sc: StrScan, d: int) -> StrScan {
    match sc {
        StrScan::Done { content, end } => StrScan::Done { content, end: end + d },
        StrScan::Bad { err } => StrScan::Bad { err: err_shifted(err, d) },
    }
}

/// The same number scan, ending `d` positions later.
pub open spec fn num_scan_shifted(sc: NumScan, d: int) -> NumScan {
    match sc {
        NumScan::Lit { end } => NumScan::Lit { end: end + d },
        NumScan::Bad { err } => NumScan::Bad { err: err_shifted(err, d) },
    }
}

/// The same literal scan, reported `d` positions later.
pub open spec fn literal_scan_shifted(sc: LitScan, d: int) -> LitScan {
    match sc {
        LitScan::Matched => LitScan::Matched,
        LitScan::Eos => LitScan::Eos,
        LitScan::Mismatch { c, at } => LitScan::Mismatch { c, at: at + d },
    }
}

/// A prefix only shifts a literal match: what is matched and where it
/// fails, relative to the start, never changes.
pub proof fn lemma_literal_scan_shift(w: Seq<char>, s: Seq<char>, pos: int, lit: Seq<char>)
    requires
        0 <= pos,
    ensures
        literal_scan(w + s, w.len() + pos, lit) == literal_scan_shifted(
            literal_scan(s, pos, lit),
            w.len() as int,
        ),
    decreases lit.len(),
{
    if lit.len() > 0 && pos < s.len() {
        assert((w + s)[w.len() + pos] == s[pos]);
        if s[pos] == lit[0] {
            lemma_literal_scan_shift(w, s, pos + 1, lit.skip(1));
        }
    }
}

/// A prefix only shifts where a digit run ends.
pub proof fn lemma_digits_end_shift(w: Seq<char>, s: Seq<char>, from: int)
    requires
        0 <= from,
    ensures
        digits_end(w + s, w.len() + from) == w.len() + digits_end(s, from),
    decreases s.len() - from,
{
    if from < s.len() {
        assert((w + s)[w.len() + from] == s[from]);
        if is_digit(s[from]) {
            lemma_digits_end_shift(w, s, from + 1);
        }
    }
}

/// A prefix only shifts where the four hexadecimal digits are read.
pub proof fn lemma_hex4_scan_shift(w: Seq<char>, s: Seq<char>, pos: int)
    requires
        0 <= pos,
    ensures
        hex4_scan(w + s, w.len() + pos) == (match hex4_scan(s, pos) {
            Hex4Scan::Value(v) => Hex4Scan::Value(v),
            Hex4Scan::Eos => Hex4Scan::Eos,
            Hex4Scan::NonHex { c, at } => Hex4Scan::NonHex { c, at: at + w.len() },
        }),
{
    assert(forall|k: int| 0 <= k < s.len() ==> (w + s)[w.len() + k] == s[k]);
    if pos + 3 < s.len() {
        assert(hex4_val(w + s, w.len() + pos) == hex4_val(s, pos));
    }
}

/// A prefix only shifts the exponent scan.
pub proof fn lemma_num_scan_exp_shift(w: Seq<char>, s: Seq<char>, frac_end: int)
    requires
        0 <= frac_end,
    ensures
        num_scan_exp(w + s, w.len() + frac_end) == num_scan_shifted(
            num_scan_exp(s, frac_end),
            w.len() as int,
        ),
{
    assert(forall|k: int| 0 <= k < s.len() ==> (w + s)[w.len() + k] == s[k]);
    if frac_end < s.len() && (s[frac_end] == 'e' || s[frac_end] == 'E') {
        let q = if frac_end + 1 < s.len() && (s[frac_end + 1] == '+' || s[frac_end + 1] == '-') {
            frac_end + 2
        } else {
            frac_end + 1
        };
        if q < s.len() && is_digit(s[q]) {
            lemma_digits_end_shift(w, s, q);
        }
    }
}

/// A prefix only shifts the fraction scan.
pub proof fn lemma_num_scan_frac_shift(w: Seq<char>, s: Seq<char>, int_end: int)
    requires
        0 <= int_end,
    ensures
        num_scan_frac(w + s, w.len() + int_end) == num_scan_shifted(
            num_scan_frac(s, int_end),
            w.len() as int,
        ),
{
    assert(forall|k: int| 0 <= k < s.len() ==> (w + s)[w.len() + k] == s[k]);
    if int_end < s.len() && s[int_end] == '.' {
        if int_end + 1 < s.len() && is_digit(s[int_end + 1]) {
            lemma_digits_end(s, int_end + 1);
            lemma_digits_end_shift(w, s, int_end + 1);
            lemma_num_scan_exp_shift(w, s, digits_end(s, int_end + 1));
        }
    } else {
        lemma_num_scan_exp_shift(w, s, int_end);
    }
}

/// A prefix only shifts a number scan: the literal recognised and the
/// error reported, relative to the start, never change.
pub proof fn lemma_num_scan_shift(w: Seq<char>, s: Seq<char>, pos: int)
    requires
        0 <= pos,
    ensures
        num_scan(w + s, w.len() + pos) == num_scan_shifted(num_scan(s, pos), w.len() as int),
{
    assert(forall|k: int| 0 <= k < s.len() ==> (w + s)[w.len() + k] == s[k]);
    let q = if pos < s.len() && s[pos] == '-' {
        pos + 1
    } else {
        pos
    };
    if q < s.len() && is_digit(s[q]) {
        if q + 1 < s.len() {
            assert((w + s)[w.len() + q + 1] == s[q + 1]);
        }
        if s[q] == '0' {
            if !(q + 1 < s.len() && is_digit(s[q + 1])) {
                lemma_num_scan_frac_shift(w, s, q + 1);
            }
        } else {
            lemma_digits_end(s, q);
            lemma_digits_end_shift(w, s, q);
            lemma_num_scan_frac_shift(w, s, digits_end(s, q));
        }
    }
}

/// Prepending a scalar commutes with shifting a scan.
proof fn lemma_prepend_shifted(c: char, sc: StrScan, d: int)
    ensures
        str_scan_prepend(c, str_scan_shifted(sc, d)) == str_scan_shifted(str_scan_prepend(c, sc), d),
{
    match sc {
        StrScan::Done { content, end } => {},
        StrScan::Bad { err } => {},
    }
}

/// A prefix only shifts a string scan: the decoded content and the error
/// reported, relative to the start, never change.
pub proof fn lemma_str_scan_shift(w: Seq<char>, s: Seq<char>, pos: int)
    requires
        0 <= pos,
    ensures
        str_scan(w + s, w.len() + pos) == str_scan_shifted(str_scan(s, pos), w.len() as int),
    decreases s.len() - pos, 1int,
{
    assert(forall|k: int| 0 <= k < s.len() ==> (w + s)[w.len() + k] == s[k]);
    if pos < s.len() {
        assert((w + s)[w.len() + pos] == s[pos]);
    }
    if pos + 1 < s.len() {
        assert((w + s)[w.len() + pos + 1] == s[pos + 1]);
    }
    if pos >= s.len() {
    } else if s[pos] == '"' {
    } else if s[pos] == '\\' {
        if pos + 1 >= s.len() {
        } else if s[pos + 1] == 'u' {
            lemma_hex4_scan_shift(w, s, pos + 2);
            match hex4_scan(s, pos + 2) {
                Hex4Scan::Value(w0) => {
                    if !is_surrogate_unit(w0) {
                        lemma_str_scan_shift(w, s, pos + 6);
                        lemma_prepend_shifted(
                            (w0 as u32) as char,
                            str_scan(s, pos + 6),
                            w.len() as int,
                        );
                    } else if is_low_surrogate(w0) {
                        assert((w + s)[w.len() + pos + 5] == s[pos + 5]);
                    } else {
                        lemma_str_scan_pair_shift(w, s, pos, w0);
                    }
                },
                _ => {},
            }
        } else {
            if let Some(d) = simple_escape_val(s[pos + 1]) {
                lemma_str_scan_shift(w, s, pos + 2);
                lemma_prepend_shifted(d, str_scan(s, pos + 2), w.len() as int);
            }
        }
    } else if (s[pos] as u32) < 0x20 {
    } else {
        lemma_str_scan_shift(w, s, pos + 1);
        lemma_prepend_shifted(s[pos], str_scan(s, pos + 1), w.len() as int);
    }
}

/// A prefix only shifts the paired low-surrogate scan.
proof fn lemma_str_scan_pair_shift(w: Seq<char>, s: Seq<char>, pos: int, w0: u16)
    requires
        0 <= pos,
    ensures
        str_scan_pair(w + s, w.len() + pos, w0) == str_scan_shifted(
            str_scan_pair(s, pos, w0),
            w.len() as int,
        ),
    decreases s.len() - pos, 0int,
{
    assert(forall|k: int| 0 <= k < s.len() ==> (w + s)[w.len() + k] == s[k]);
    if pos + 6 < s.len() {
        assert((w + s)[w.len() + pos + 6] == s[pos + 6]);
    }
    if pos + 7 < s.len() {
        assert((w + s)[w.len() + pos + 7] == s[pos + 7]);
    }
    if pos + 6 >= s.len() {
    } else if s[pos + 6] != '\\' {
    } else if pos + 7 >= s.len() {
    } else if s[pos + 7] != 'u' {
    } else {
        lemma_hex4_scan_shift(w, s, pos + 8);
        match hex4_scan(s, pos + 8) {
            Hex4Scan::Value(w1) => {
                if is_low_surrogate(w1) {
                    lemma_str_scan_shift(w, s, pos + 12);
                    lemma_prepend_shifted(
                        combined_scalar(w0, w1) as char,
                        str_scan(s, pos + 12),
                        w.len() as int,
                    );
                } else {
                    assert((w + s)[w.len() + pos + 11] == s[pos + 11]);
                }
            },
            _ => {},
        }
    }
}

/// The outcome of a position scan: the index just past the construct's last
/// character, or the error that stopped it.
pub enum PosScan {
    End { end: int },
    Bad { err: ErrSpec },
}

/// Where the literal `lit` beginning at `pos` ends.
pub open spec fn literal_end(s: Seq<char>, pos: int, lit: Seq<char>) -> PosScan {
    match literal_scan(s, pos, lit) {
        LitScan::Matched => PosScan::End { end: pos + lit.len() },
        LitScan::Eos => PosScan::Bad { err: ErrSpec::Eos },
        LitScan::Mismatch { c, at } => PosScan::Bad {
            err: ErrSpec::UnexpectedChar { c, at, expected: seq![lit[at - pos]] },
        },
    }
}

/// Where the JSON value beginning at `pos` ends, whitespace before its
/// first character skipped: the whole-value scan, dispatching on the first
/// significant character exactly as the value rule does. The guards that
/// return on an out-of-range position can never be taken; they only close
/// the termination argument.
pub open spec fn value_end(s: Seq<char>, pos: int) -> PosScan
    decreases s.len() - pos, 1int,
{
    match first_non_ws(s, pos) {
        None => PosScan::Bad { err: ErrSpec::Eos },
        Some(j) => {
            if j < pos || j >= s.len() {
                PosScan::Bad { err: ErrSpec::Eos }
            } else {
                let c = s[j];
                if c == '{' {
                    object_end(s, j)
                } else if c == '[' {
                    array_end(s, j)
                } else if c == '"' {
                    match str_scan(s, j + 1) {
                        StrScan::Done { content, end } => PosScan::End { end },
                        StrScan::Bad { err } => PosScan::Bad { err },
                    }
                } else if c == 'n' {
                    literal_end(s, j, null_literal())
                } else if c == 't' {
                    literal_end(s, j, true_literal())
                } else if c == 'f' {
                    literal_end(s, j, false_literal())
                } else if c == '-' || is_digit(c) {
                    match num_scan(s, j) {
                        NumScan::Lit { end } => PosScan::End { end },
                        NumScan::Bad { err } => PosScan::Bad { err },
                    }
                } else {
                    PosScan::Bad {
                        err: ErrSpec::UnexpectedChar { c, at: j, expected: value_starters() },
                    }
                }
            }
        },
    }
}

/// Where the array whose `[` stands at `pos` ends.
pub open spec fn array_end(s: Seq<char>, pos: int) -> PosScan
    decreases s.len() - pos, 0int,
{
    if pos < 0 || pos >= s.len() {
        PosScan::Bad { err: ErrSpec::Eos }
    } else if s[pos] != '[' {
        PosScan::Bad { err: ErrSpec::UnexpectedChar { c: s[pos], at: pos, expected: seq!['['] } }
    } else {
        match first_non_ws(s, pos + 1) {
            None => PosScan::Bad { err: ErrSpec::Eos },
            Some(j) => {
                if j < pos + 1 || j >= s.len() {
                    PosScan::Bad { err: ErrSpec::Eos }
                } else if s[j] == ']' {
                    PosScan::End { end: j + 1 }
                } else {
                    array_items_end(s, j)
                }
            },
        }
    }
}

/// Where the rest of a non-empty array ends: one element beginning at `q`,
/// then either the closing bracket or a comma and further elements.
pub open spec fn array_items_end(s: Seq<char>, q: int) -> PosScan
    decreases s.len() - q, 2int,
{
    match value_end(s, q) {
        PosScan::Bad { err } => PosScan::Bad { err },
        PosScan::End { end } => {
            if end <= q || end > s.len() {
                PosScan::Bad { err: ErrSpec::Eos }
            } else {
                match first_non_ws(s, end) {
                    None => PosScan::Bad { err: ErrSpec::Eos },
                    Some(m) => {
                        if m < end || m >= s.len() {
                            PosScan::Bad { err: ErrSpec::Eos }
                        } else if s[m] == ']' {
                            PosScan::End { end: m + 1 }
                        } else if s[m] == ',' {
                            array_items_end(s, m + 1)
                        } else {
                            PosScan::Bad {
                                err: ErrSpec::UnexpectedChar {
                                    c: s[m],
                                    at: m,
                                    expected: seq![']', ','],
                                },
                            }
                        }
                    },
                }
            }
        },
    }
}

/// Where the object whose `{` stands at `pos` ends.
pub open spec fn object_end(s: Seq<char>, pos: int) -> PosScan
    decreases s.len() - pos, 0int,
{
    if pos < 0 || pos >= s.len() {
        PosScan::Bad { err: ErrSpec::Eos }
    } else if s[pos] != '{' {
        PosScan::Bad { err: ErrSpec::UnexpectedChar { c: s[pos], at: pos, expected: seq!['{'] } }
    } else {
        match first_non_ws(s, pos + 1) {
            None => PosScan::Bad { err: ErrSpec::Eos },
            Some(j) => {
                if j < pos + 1 || j >= s.len() {
                    PosScan::Bad { err: ErrSpec::Eos }
                } else if s[j] == '}' {
                    PosScan::End { end: j + 1 }
                } else {
                    object_items_end(s, j)
                }
            },
        }
    }
}

/// Where the rest of a non-empty object ends: one `key : value` member
/// whose key's text begins at or after `q`, then either the closing brace
/// or a comma and further members.
pub open spec fn object_items_end(s: Seq<char>, q: int) -> PosScan
    decreases s.len() - q, 2int,
{
    match first_non_ws(s, q) {
        None => PosScan::Bad { err: ErrSpec::Eos },
        Some(jk) => {
            if jk < q || jk >= s.len() {
                PosScan::Bad { err: ErrSpec::Eos }
            } else if s[jk] != '"' {
                PosScan::Bad {
                    err: ErrSpec::UnexpectedChar { c: s[jk], at: jk, expected: seq!['"'] },
                }
            } else {
                match str_scan(s, jk + 1) {
                    StrScan::Bad { err } => PosScan::Bad { err },
                    StrScan::Done { content, end: ke } => {
                        if ke <= jk + 1 || ke > s.len() {
                            PosScan::Bad { err: ErrSpec::Eos }
                        } else {
                            object_member_end(s, q, ke)
                        }
                    },
                }
            }
        },
    }
}

/// Where the rest of a non-empty object ends, after a member's key that
/// ends at `ke`: the colon, the member's value, then the separator.
pub open spec fn object_member_end(s: Seq<char>, q: int, ke: int) -> PosScan
    decreases s.len() - q, 1int,
    when q < ke
{
    match first_non_ws(s, ke) {
        None => PosScan::Bad { err: ErrSpec::Eos },
        Some(cm) => {
            if cm < ke || cm >= s.len() {
                PosScan::Bad { err: ErrSpec::Eos }
            } else if s[cm] != ':' {
                PosScan::Bad {
                    err: ErrSpec::UnexpectedChar { c: s[cm], at: cm, expected: seq![':'] },
                }
            } else {
                match value_end(s, cm + 1) {
                    PosScan::Bad { err } => PosScan::Bad { err },
                    PosScan::End { end: ve } => {
                        if ve <= cm + 1 || ve > s.len() {
                            PosScan::Bad { err: ErrSpec::Eos }
                        } else {
                            object_member_sep(s, q, ve)
                        }
                    },
                }
            }
        },
    }
}

/// Where the rest of a non-empty object ends, after a member whose value
/// ends at `ve`: the closing brace, or a comma and further members.
pub open spec fn object_member_sep(s: Seq<char>, q: int, ve: int) -> PosScan
    decreases s.len() - q, 0int,
    when q < ve
{
    match first_non_ws(s, ve) {
        None => PosScan::Bad { err: ErrSpec::Eos },
        Some(m) => {
            if m < ve || m >= s.len() {
                PosScan::Bad { err: ErrSpec::Eos }
            } else if s[m] == '}' {
                PosScan::End { end: m + 1 }
            } else if s[m] == ',' {
                object_items_end(s, m + 1)
            } else {
                PosScan::Bad {
                    err: ErrSpec::UnexpectedChar { c: s[m], at: m, expected: seq![',', '}'] },
                }
            }
        },
    }
}

/// The same position scan, ending `d` positions later.
pub open spec fn pos_shifted(sc: PosScan, d: int) -> PosScan {
    match sc {
        PosScan::End { end } => PosScan::End { end: end + d },
        PosScan::Bad { err } => PosScan::Bad { err: err_shifted(err, d) },
    }
}

/// A prefix only shifts where a whole value is scanned: what it means and
/// where it fails, relative to the start, never change. With
/// `lemma_ws_prefix_insensitive`, whitespace put in front of the input
/// never changes what is parsed, only the positions reported.
pub proof fn lemma_value_end_shift(w: Seq<char>, s: Seq<char>, pos: int)
    requires
        0 <= pos,
    ensures
        value_end(w + s, w.len() + pos) == pos_shifted(value_end(s, pos), w.len() as int),
    decreases s.len() - pos, 1int,
{
    lemma_first_non_ws_shift(w, s, pos);
    lemma_first_non_ws(s, pos);
    if pos > s.len() {
        assert(first_non_ws(s, pos) is None);
    }
    if let Some(j) = first_non_ws(s, pos) {
        assert((w + s)[w.len() + j] == s[j]);
        let c = s[j];
        if c == '{' {
            lemma_object_end_shift(w, s, j);
        } else if c == '[' {
            lemma_array_end_shift(w, s, j);
        } else if c == '"' {
            lemma_str_scan_shift(w, s, j + 1);
        } else if c == 'n' {
            lemma_literal_scan_shift(w, s, j, null_literal());
        } else if c == 't' {
            lemma_literal_scan_shift(w, s, j, true_literal());
        } else if c == 'f' {
            lemma_literal_scan_shift(w, s, j, false_literal());
        } else if c == '-' || is_digit(c) {
            lemma_num_scan_shift(w, s, j);
        }
    }
}

/// A prefix only shifts where an array is scanned.
pub proof fn lemma_array_end_shift(w: Seq<char>, s: Seq<char>, pos: int)
    requires
        0 <= pos,
    ensures
        array_end(w + s, w.len() + pos) == pos_shifted(array_end(s, pos), w.len() as int),
    decreases s.len() - pos, 0int,
{
    if pos < s.len() {
        assert((w + s)[w.len() + pos] == s[pos]);
        if s[pos] == '[' {
            lemma_first_non_ws_shift(w, s, pos + 1);
            lemma_first_non_ws(s, pos + 1);
            if let Some(j) = first_non_ws(s, pos + 1) {
                assert((w + s)[w.len() + j] == s[j]);
                if s[j] != ']' {
                    lemma_array_items_end_shift(w, s, j);
                }
            }
        }
    }
}

/// A prefix only shifts where the rest of an array is scanned.
#[verifier::spinoff_prover]
#[verifier::rlimit(100)]
pub proof fn lemma_array_items_end_shift(w: Seq<char>, s: Seq<char>, q: int)
    requires
        0 <= q,
    ensures
        array_items_end(w + s, w.len() + q) == pos_shifted(
            array_items_end(s, q),
            w.len() as int,
        ),
    decreases s.len() - q, 2int,
{
    lemma_value_end_shift(w, s, q);
    if let PosScan::End { end } = value_end(s, q) {
        if q < end <= s.len() {
            lemma_first_non_ws_shift(w, s, end);
            lemma_first_non_ws(s, end);
            if let Some(m) = first_non_ws(s, end) {
                assert((w + s)[w.len() + m] == s[m]);
                if s[m] == ',' {
                    lemma_array_items_end_shift(w, s, m + 1);
                }
            }
        }
    }
}

/// A prefix only shifts where an object is scanned.
pub proof fn lemma_object_end_shift(w: Seq<char>, s: Seq<char>, pos: int)
    requires
        0 <= pos,
    ensures
        object_end(w + s, w.len() + pos) == pos_shifted(object_end(s, pos), w.len() as int),
    decreases s.len() - pos, 0int,
{
    if pos < s.len() {
        assert((w + s)[w.len() + pos] == s[pos]);
        if s[pos] == '{' {
            lemma_first_non_ws_shift(w, s, pos + 1);
            lemma_first_non_ws(s, pos + 1);
            if let Some(j) = first_non_ws(s, pos + 1) {
                assert((w + s)[w.len() + j] == s[j]);
                if s[j] != '}' {
                    lemma_object_items_end_shift(w, s, j);
                }
            }
        }
    }
}

/// A prefix only shifts where the rest of an object is scanned.
pub proof fn lemma_object_items_end_shift(w: Seq<char>, s: Seq<char>, q: int)
    requires
        0 <= q,
    ensures
        object_items_end(w + s, w.len() + q) == pos_shifted(
            object_items_end(s, q),
            w.len() as int,
        ),
    decreases s.len() - q, 2int,
{
    lemma_first_non_ws_shift(w, s, q);
    lemma_first_non_ws(s, q);
    if let Some(jk) = first_non_ws(s, q) {
        assert((w + s)[w.len() + jk] == s[jk]);
        if s[jk] == '"' {
            lemma_str_scan_shift(w, s, jk + 1);
            if let StrScan::Done { content, end: ke } = str_scan(s, jk + 1) {
                if jk + 1 < ke <= s.len() {
                    lemma_object_member_end_shift(w, s, q, ke);
                }
            }
        }
    }
}

/// A prefix only shifts where the rest of an object member is scanned.
#[verifier::spinoff_prover]
#[verifier::rlimit(100)]
pub proof fn lemma_object_member_end_shift(w: Seq<char>, s: Seq<char>, q: int, ke: int)
    requires
        0 <= q < ke,
    ensures
        object_member_end(w + s, w.len() + q, w.len() + ke) == pos_shifted(
            object_member_end(s, q, ke),
            w.len() as int,
        ),
    decreases s.len() - q, 1int,
{
    lemma_first_non_ws_shift(w, s, ke);
    lemma_first_non_ws(s, ke);
    if let Some(cm) = first_non_ws(s, ke) {
        assert((w + s)[w.len() + cm] == s[cm]);
        if s[cm] == ':' {
            lemma_value_end_shift(w, s, cm + 1);
            if let PosScan::End { end: ve } = value_end(s, cm + 1) {
                if cm + 1 < ve <= s.len() {
                    lemma_object_member_sep_shift(w, s, q, ve);
                }
            }
        }
    }
}

/// A prefix only shifts where the separator after an object member is
/// scanned.
pub proof fn lemma_object_member_sep_shift(w: Seq<char>, s: Seq<char>, q: int, ve: int)
    requires
        0 <= q < ve,
    ensures
        object_member_sep(w + s, w.len() + q, w.len() + ve) == pos_shifted(
            object_member_sep(s, q, ve),
            w.len() as int,
        ),
    decreases s.len() - q, 0int,
{
    lemma_first_non_ws_shift(w, s, ve);
    lemma_first_non_ws(s, ve);
    if let Some(m) = first_non_ws(s, ve) {
        assert((w + s)[w.len() + m] == s[m]);
        if s[m] == ',' {
            lemma_object_items_end_shift(w, s, m + 1);
        }
    }
}

/// Whitespace insensitivity: a run of JSON whitespace put in front of the
/// input moves the first significant character by the run's length, and
/// every construct's scan at that character is the same scan, merely
/// shifted. The parsing rules' contracts are stated over these scans, so
/// whitespace inserted before a construct never changes what is parsed,
/// only the positions reported.
pub proof fn lemma_ws_prefix_parse_insensitive(w: Seq<char>, s: Seq<char>)
    requires
        forall|t: int| 0 <= t < w.len() ==> is_ws_char(w[t]),
    ensures
        match first_non_ws(s, 0) {
            Some(j) => {
                &&& first_non_ws(w + s, 0) == Some(w.len() + j)
                &&& (w + s)[w.len() + j] == s[j]
                &&& str_scan(w + s, w.len() + j + 1) == str_scan_shifted(
                    str_scan(s, j + 1),
                    w.len() as int,
                )
                &&& num_scan(w + s, w.len() + j) == num_scan_shifted(
                    num_scan(s, j),
                    w.len() as int,
                )
                &&& literal_scan(w + s, w.len() + j, null_literal()) == literal_scan_shifted(
                    literal_scan(s, j, null_literal()),
                    w.len() as int,
                )
                &&& literal_scan(w + s, w.len() + j, true_literal()) == literal_scan_shifted(
                    literal_scan(s, j, true_literal()),
                    w.len() as int,
                )
                &&& literal_scan(w + s, w.len() + j, false_literal()) == literal_scan_shifted(
                    literal_scan(s, j, false_literal()),
                    w.len() as int,
                )
            },
            None => first_non_ws(w + s, 0) is None,
        },
        value_end(w + s, 0) == pos_shifted(value_end(s, 0), w.len() as int),
{
    lemma_ws_prefix_insensitive(w, s);
    lemma_value_end_shift(w, s, 0);
    assert(forall|t: int| 0 <= t < w.len() ==> is_ws_char((w + s)[t]));
    lemma_first_non_ws_ws_run(w + s, 0, w.len() as int);
    if let Some(j) = first_non_ws(s, 0) {
        lemma_first_non_ws(s, 0);
        lemma_str_scan_shift(w, s, j + 1);
        lemma_num_scan_shift(w, s, j);
        lemma_literal_scan_shift(w, s, j, null_literal());
        lemma_literal_scan_shift(w, s, j, true_literal());
        lemma_literal_scan_shift(w, s, j, false_literal());
    }
}

} // verus!
