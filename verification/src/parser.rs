//! The parsing engine: one recursive-descent rule per JSON construct, each
//! consuming from the cursor and proved against the scan functions, plus the
//! top-level entry point that demands the whole input be one value.

use vstd::prelude::*;

use crate::cursor::WhitespaceSkippingIndexTrackingIter;
use crate::cursor::first_non_ws;
use crate::cursor::lemma_first_non_ws;
use crate::error::ParseError;
use crate::error::is_unexpected_character;
use crate::scan::Hex4Scan;
use crate::scan::LitScan;
use crate::scan::hex4_scan;
use crate::scan::hex4_val;
use crate::scan::literal_scan;
use crate::scan::matches_err;
use crate::scan::ErrSpec;
use crate::scan::null_literal;
use crate::scan::true_literal;
use crate::scan::false_literal;
use crate::unicode::hex_digit_to_byte;
use crate::scan::NumScan;
use crate::scan::num_scan;
use crate::scan::zero_follow_expected;
use crate::scan::num_scan_frac;
use crate::scan::num_scan_exp;
use crate::scan::digits_end;
use crate::scan::lemma_digits_end;
use crate::scan::StrScan;
use crate::scan::str_scan;
use crate::scan::str_scan_pair;
use crate::scan::str_scan_prepend;
use crate::scan::str_scan_with_prefix;
use crate::scan::lemma_prefix_prepend;
use crate::scan::simple_escape_val;
use crate::scan::escape_expected;
use crate::unicode::decode_single_unit;
use crate::unicode::combine_surrogate_pair;
use crate::scan::value_starters;
use crate::scan::is_value_starter;
use crate::scan::is_digit;
use crate::scan::lemma_str_scan_end;
use crate::scan::PosScan;
use crate::scan::value_end;
use crate::scan::array_end;
use crate::scan::array_items_end;
use crate::scan::object_end;
use crate::scan::object_items_end;
use crate::scan::object_member_end;
use crate::value::JsonValue;
use crate::value::JsonArray;
use crate::value::JsonObject;
use crate::value::value_wf;
use crate::value::array_wf;
use crate::value::object_wf;
use crate::value::keys_unique;
use crate::value::JsonString;
use crate::value::JsonBool;
use crate::value::JsonNumber;
use crate::value::JsonNull;

verus! {

/// Reads the four hexadecimal digits of a `\u` escape and combines them
/// into one UTF-16 code unit.
fn parse_four_hex(i: &mut WhitespaceSkippingIndexTrackingIter) -> (r: Result<u16, ParseError>)
    requires
        old(i).wf(),
    ensures
        final(i).wf(),
        final(i).src() == old(i).src(),
        old(i).at() <= final(i).at(),
        match hex4_scan(old(i).src(), old(i).at()) {
            Hex4Scan::Value(w) => r == Ok::<u16, ParseError>(w) && final(i).at() == old(i).at()
                + 4,
            Hex4Scan::Eos => r matches Err(e) && matches_err(e, ErrSpec::Eos) && final(i).at()
                == old(i).src().len(),
            Hex4Scan::NonHex { c, at } => r matches Err(e) && matches_err(
                e,
                ErrSpec::NonHex { c, at },
            ) && final(i).at() == at + 1,
        },
{
    let c0 = match i.next_any() {
        None => {
            return Err(ParseError::UnexpectedEndOfString);
        },
        Some(c) => c,
    };
    let b0 = match hex_digit_to_byte(c0) {
        None => {
            return Err(
                ParseError::UnexpectedNonHexCharacter { character: c0, index: i.next_pos - 1 },
            );
        },
        Some(b) => b,
    };
    let c1 = match i.next_any() {
        None => {
            return Err(ParseError::UnexpectedEndOfString);
        },
        Some(c) => c,
    };
    let b1 = match hex_digit_to_byte(c1) {
        None => {
            return Err(
                ParseError::UnexpectedNonHexCharacter { character: c1, index: i.next_pos - 1 },
            );
        },
        Some(b) => b,
    };
    let c2 = match i.next_any() {
        None => {
            return Err(ParseError::UnexpectedEndOfString);
        },
        Some(c) => c,
    };
    let b2 = match hex_digit_to_byte(c2) {
        None => {
            return Err(
                ParseError::UnexpectedNonHexCharacter { character: c2, index: i.next_pos - 1 },
            );
        },
        Some(b) => b,
    };
    let c3 = match i.next_any() {
        None => {
            return Err(ParseError::UnexpectedEndOfString);
        },
        Some(c) => c,
    };
    let b3 = match hex_digit_to_byte(c3) {
        None => {
            return Err(
                ParseError::UnexpectedNonHexCharacter { character: c3, index: i.next_pos - 1 },
            );
        },
        Some(b) => b,
    };
    let w: u16 = (b0 as u16) * 0x1000 + (b1 as u16) * 0x100 + (b2 as u16) * 0x10 + (b3 as u16);
    proof {
        assert(w == hex4_val(old(i).src(), old(i).at()));
    }
    Ok(w)
}

impl JsonNull {
    /// Matches the literal `null` character by character.
    pub fn parse(i: &mut WhitespaceSkippingIndexTrackingIter) -> (r: Result<JsonNull, ParseError>)
        requires
            old(i).wf(),
        ensures
            final(i).wf(),
            final(i).src() == old(i).src(),
            old(i).at() <= final(i).at(),
            ({
                let s = old(i).src();
                let p = old(i).at();
                match literal_scan(s, p, null_literal()) {
                    LitScan::Matched => r == Ok::<JsonNull, ParseError>(JsonNull) && final(i).at()
                        == p + 4,
                    LitScan::Eos => r matches Err(e) && matches_err(e, ErrSpec::Eos) && final(i).at() == s.len(),
                    LitScan::Mismatch { c, at } => r matches Err(e) && is_unexpected_character(
                        e,
                        c,
                        at,
                        seq![null_literal()[at - p]],
                    ) && final(i).at() == at + 1,
                }
            }),
    {
        proof {
            reveal_with_fuel(literal_scan, 6);
            assert(null_literal().skip(1) =~= seq!['u', 'l', 'l']);
            assert(seq!['u', 'l', 'l'].skip(1) =~= seq!['l', 'l']);
            assert(seq!['l', 'l'].skip(1) =~= seq!['l']);
            assert(seq!['l'].skip(1) =~= Seq::<char>::empty());
        }
        match i.expect_specific_char('n') {
            Err(e) => {
                return Err(e);
            },
            Ok(()) => {},
        }
        match i.expect_specific_char('u') {
            Err(e) => {
                return Err(e);
            },
            Ok(()) => {},
        }
        match i.expect_specific_char('l') {
            Err(e) => {
                return Err(e);
            },
            Ok(()) => {},
        }
        match i.expect_specific_char('l') {
            Err(e) => {
                return Err(e);
            },
            Ok(()) => {},
        }
        Ok(JsonNull)
    }
}

impl JsonBool {
    /// Matches one of the literals `true` and `false`, chosen by the first
    /// character.
    pub fn parse(i: &mut WhitespaceSkippingIndexTrackingIter) -> (r: Result<JsonBool, ParseError>)
        requires
            old(i).wf(),
        ensures
            final(i).wf(),
            final(i).src() == old(i).src(),
            old(i).at() <= final(i).at(),
            ({
                let s = old(i).src();
                let p = old(i).at();
                if p >= s.len() {
                    r matches Err(e) && matches_err(e, ErrSpec::Eos) && final(i).at() == p
                } else if s[p] == 't' {
                    match literal_scan(s, p, true_literal()) {
                        LitScan::Matched => r == Ok::<JsonBool, ParseError>(JsonBool(true))
                            && final(i).at() == p + 4,
                        LitScan::Eos => r matches Err(e) && matches_err(e, ErrSpec::Eos) && final(i).at() == s.len(),
                        LitScan::Mismatch { c, at } => r matches Err(e) && is_unexpected_character(
                            e,
                            c,
                            at,
                            seq![true_literal()[at - p]],
                        ) && final(i).at() == at + 1,
                    }
                } else if s[p] == 'f' {
                    match literal_scan(s, p, false_literal()) {
                        LitScan::Matched => r == Ok::<JsonBool, ParseError>(JsonBool(false))
                            && final(i).at() == p + 5,
                        LitScan::Eos => r matches Err(e) && matches_err(e, ErrSpec::Eos) && final(i).at() == s.len(),
                        LitScan::Mismatch { c, at } => r matches Err(e) && is_unexpected_character(
                            e,
                            c,
                            at,
                            seq![false_literal()[at - p]],
                        ) && final(i).at() == at + 1,
                    }
                } else {
                    r matches Err(e) && is_unexpected_character(e, s[p], p, seq!['t', 'f'])
                        && final(i).at() == p + 1
                }
            }),
    {
        proof {
            reveal_with_fuel(literal_scan, 7);
            assert(true_literal().skip(1) =~= seq!['r', 'u', 'e']);
            assert(seq!['r', 'u', 'e'].skip(1) =~= seq!['u', 'e']);
            assert(seq!['u', 'e'].skip(1) =~= seq!['e']);
            assert(seq!['e'].skip(1) =~= Seq::<char>::empty());
            assert(false_literal().skip(1) =~= seq!['a', 'l', 's', 'e']);
            assert(seq!['a', 'l', 's', 'e'].skip(1) =~= seq!['l', 's', 'e']);
            assert(seq!['l', 's', 'e'].skip(1) =~= seq!['s', 'e']);
            assert(seq!['s', 'e'].skip(1) =~= seq!['e']);
        }
        match i.peek() {
            None => Err(ParseError::UnexpectedEndOfString),
            Some(c) => {
                if c == 't' {
                    match i.expect_specific_char('t') {
                        Err(e) => {
                            return Err(e);
                        },
                        Ok(()) => {},
                    }
                    match i.expect_specific_char('r') {
                        Err(e) => {
                            return Err(e);
                        },
                        Ok(()) => {},
                    }
                    match i.expect_specific_char('u') {
                        Err(e) => {
                            return Err(e);
                        },
                        Ok(()) => {},
                    }
                    match i.expect_specific_char('e') {
                        Err(e) => {
                            return Err(e);
                        },
                        Ok(()) => {},
                    }
                    Ok(JsonBool(true))
                } else if c == 'f' {
                    match i.expect_specific_char('f') {
                        Err(e) => {
                            return Err(e);
                        },
                        Ok(()) => {},
                    }
                    match i.expect_specific_char('a') {
                        Err(e) => {
                            return Err(e);
                        },
                        Ok(()) => {},
                    }
                    match i.expect_specific_char('l') {
                        Err(e) => {
                            return Err(e);
                        },
                        Ok(()) => {},
                    }
                    match i.expect_specific_char('s') {
                        Err(e) => {
                            return Err(e);
                        },
                        Ok(()) => {},
                    }
                    match i.expect_specific_char('e') {
                        Err(e) => {
                            return Err(e);
                        },
                        Ok(()) => {},
                    }
                    Ok(JsonBool(false))
                } else {
                    let _ = i.next_any();
                    let mut expected_characters: Vec<char> = Vec::new();
                    expected_characters.push('t');
                    expected_characters.push('f');
                    proof {
                        assert(expected_characters@ =~= seq!['t', 'f']);
                    }
                    Err(
                        ParseError::UnexpectedCharacter {
                            character: c,
                            index: i.next_pos - 1,
                            expected_characters,
                        },
                    )
                }
            },
        }
    }
}

/// Whether `c` is a decimal digit.
fn digit_check(c: char) -> (r: bool)
    ensures
        r == crate::scan::is_digit(c),
{
    let u = c as u32;
    0x30 <= u && u <= 0x39
}

/// The decimal digits, as the expected set of a number error.
fn digit_expected_vec() -> (r: Vec<char>)
    ensures
        r@ == crate::scan::digit_expected(),
{
    let mut v: Vec<char> = Vec::new();
    v.push('0');
    v.push('1');
    v.push('2');
    v.push('3');
    v.push('4');
    v.push('5');
    v.push('6');
    v.push('7');
    v.push('8');
    v.push('9');
    proof {
        assert(v@ =~= crate::scan::digit_expected());
    }
    v
}

/// What may continue a number whose integer part is a leading `0`.
fn zero_follow_vec() -> (r: Vec<char>)
    ensures
        r@ == zero_follow_expected(),
{
    let mut v: Vec<char> = Vec::new();
    v.push('.');
    v.push('e');
    v.push('E');
    proof {
        assert(v@ =~= zero_follow_expected());
    }
    v
}

/// Consumes the run of decimal digits at the cursor, appending each to
/// `out`.
fn consume_digits(i: &mut WhitespaceSkippingIndexTrackingIter, out: &mut Vec<char>)
    requires
        old(i).wf(),
    ensures
        final(i).wf(),
        final(i).src() == old(i).src(),
        old(i).at() <= final(i).at(),
        final(i).at() == digits_end(old(i).src(), old(i).at()),
        final(out)@ == old(out)@ + old(i).src().subrange(old(i).at(), final(i).at()),
{
    loop
        invariant
            i.wf(),
            i.src() == old(i).src(),
            old(i).at() <= i.at() <= i.src().len(),
            digits_end(i.src(), i.at()) == digits_end(old(i).src(), old(i).at()),
            out@ == old(out)@ + i.src().subrange(old(i).at(), i.at()),
        decreases i.src().len() - i.at(),
    {
        match i.peek() {
            None => {
                proof {
                    assert(digits_end(i.src(), i.at()) == i.at());
                }
                return ;
            },
            Some(c) => {
                if digit_check(c) {
                    let ghost prev = i.at();
                    let _ = i.next_any();
                    out.push(c);
                    proof {
                        assert(i.src().subrange(old(i).at(), i.at()) =~= i.src().subrange(
                            old(i).at(),
                            prev,
                        ) + seq![c]);
                    }
                } else {
                    proof {
                        assert(digits_end(i.src(), i.at()) == i.at());
                    }
                    return ;
                }
            },
        }
    }
}

/// Scans the optional exponent part, appending its text to `lit`.
fn parse_exp_part(i: &mut WhitespaceSkippingIndexTrackingIter, lit: &mut Vec<char>) -> (r: Result<
    (),
    ParseError,
>)
    requires
        old(i).wf(),
    ensures
        final(i).wf(),
        final(i).src() == old(i).src(),
        old(i).at() <= final(i).at(),
        match num_scan_exp(old(i).src(), old(i).at()) {
            NumScan::Lit { end } => r is Ok && final(i).at() == end && final(lit)@ == old(lit)@
                + old(i).src().subrange(old(i).at(), end),
            NumScan::Bad { err } => r matches Err(e) && matches_err(e, err),
        },
{
    let ghost s = old(i).src();
    let ghost p = old(i).at();
    let has_exp = match i.peek() {
        Some(c) => c == 'e' || c == 'E',
        None => false,
    };
    if !has_exp {
        proof {
            assert(old(lit)@ + s.subrange(p, p) =~= old(lit)@);
        }
        return Ok(());
    }
    let m = match i.next_any() {
        None => {
            proof {
                assert(false);
            }
            return Err(ParseError::UnexpectedEndOfString);
        },
        Some(c) => c,
    };
    lit.push(m);
    let has_exp_sign = match i.peek() {
        Some(c) => c == '+' || c == '-',
        None => false,
    };
    if has_exp_sign {
        let g = match i.next_any() {
            None => {
                proof {
                    assert(false);
                }
                return Err(ParseError::UnexpectedEndOfString);
            },
            Some(c) => c,
        };
        lit.push(g);
    }
    let d = match i.next_any() {
        None => {
            return Err(ParseError::UnexpectedEndOfString);
        },
        Some(c) => c,
    };
    if !digit_check(d) {
        return Err(
            ParseError::UnexpectedCharacter {
                character: d,
                index: i.next_pos - 1,
                expected_characters: digit_expected_vec(),
            },
        );
    }
    lit.push(d);
    proof {
        lemma_digits_end(s, i.at());
        assert(lit@ =~= old(lit)@ + s.subrange(p, i.at()));
    }
    consume_digits(i, lit);
    proof {
        assert(lit@ =~= old(lit)@ + s.subrange(p, i.at()));
    }
    Ok(())
}

/// Scans the optional fraction part and the exponent after it, appending
/// their text to `lit`.
fn parse_frac_part(i: &mut WhitespaceSkippingIndexTrackingIter, lit: &mut Vec<char>) -> (r: Result<
    (),
    ParseError,
>)
    requires
        old(i).wf(),
    ensures
        final(i).wf(),
        final(i).src() == old(i).src(),
        old(i).at() <= final(i).at(),
        match num_scan_frac(old(i).src(), old(i).at()) {
            NumScan::Lit { end } => r is Ok && final(i).at() == end && final(lit)@ == old(lit)@
                + old(i).src().subrange(old(i).at(), end),
            NumScan::Bad { err } => r matches Err(e) && matches_err(e, err),
        },
{
    let ghost s = old(i).src();
    let ghost p = old(i).at();
    let has_frac = match i.peek() {
        Some(c) => c == '.',
        None => false,
    };
    if has_frac {
        let _ = i.next_any();
        lit.push('.');
        let d = match i.next_any() {
            None => {
                return Err(ParseError::UnexpectedEndOfString);
            },
            Some(c) => c,
        };
        if !digit_check(d) {
            return Err(
                ParseError::UnexpectedCharacter {
                    character: d,
                    index: i.next_pos - 1,
                    expected_characters: digit_expected_vec(),
                },
            );
        }
        lit.push(d);
        proof {
            lemma_digits_end(s, i.at());
            assert(lit@ =~= old(lit)@ + s.subrange(p, i.at()));
        }
        consume_digits(i, lit);
        proof {
            assert(lit@ =~= old(lit)@ + s.subrange(p, i.at()));
        }
    }
    let ghost mid = i.at();
    let ghost lit_mid = lit@;
    let rr = parse_exp_part(i, lit);
    proof {
        if let NumScan::Lit { end } = num_scan_exp(s, mid) {
            assert(lit@ =~= old(lit)@ + s.subrange(p, end)) by {
                assert(s.subrange(p, end) =~= s.subrange(p, mid) + s.subrange(mid, end));
            }
        }
    }
    rr
}

impl JsonNumber {
    /// Scans a number literal greedily and keeps its exact text. The
    /// grammar: an optional minus sign, an integer part that is `0` or
    /// starts with a nonzero digit, an optional fraction, an optional
    /// exponent.
    pub fn parse(i: &mut WhitespaceSkippingIndexTrackingIter) -> (r: Result<
        JsonNumber,
        ParseError,
    >)
        requires
            old(i).wf(),
        ensures
            final(i).wf(),
            final(i).src() == old(i).src(),
            old(i).at() <= final(i).at(),
            ({
                let s = old(i).src();
                let p = old(i).at();
                match num_scan(s, p) {
                    NumScan::Lit { end } => r matches Ok(n) && n@ == s.subrange(p, end)
                        && final(i).at() == end && p < end,
                    NumScan::Bad { err } => r matches Err(e) && matches_err(e, err),
                }
            }),
    {
        let ghost s = old(i).src();
        let ghost p = old(i).at();
        let mut lit: Vec<char> = Vec::new();
        // optional minus sign
        let has_sign = match i.peek() {
            Some(c) => c == '-',
            None => false,
        };
        if has_sign {
            let _ = i.next_any();
            lit.push('-');
        }
        let ghost q = i.at();
        // integer part: one digit, then the run unless it began with zero
        let first = match i.next_any() {
            None => {
                return Err(ParseError::UnexpectedEndOfString);
            },
            Some(c) => c,
        };
        if !digit_check(first) {
            return Err(
                ParseError::UnexpectedCharacter {
                    character: first,
                    index: i.next_pos - 1,
                    expected_characters: digit_expected_vec(),
                },
            );
        }
        lit.push(first);
        if first == '0' {
            // a digit after a leading zero is not permitted
            let follows_digit = match i.peek() {
                Some(c) => digit_check(c),
                None => false,
            };
            if follows_digit {
                let c = match i.next_any() {
                    None => {
                        proof {
                            assert(false);
                        }
                        return Err(ParseError::UnexpectedEndOfString);
                    },
                    Some(c) => c,
                };
                return Err(
                    ParseError::UnexpectedCharacter {
                        character: c,
                        index: i.next_pos - 1,
                        expected_characters: zero_follow_vec(),
                    },
                );
            }
        } else {
            proof {
                lemma_digits_end(s, i.at());
                assert(lit@ =~= s.subrange(p, i.at()));
            }
            consume_digits(i, &mut lit);
            proof {
                lemma_digits_end(s, q + 1);
                assert(digits_end(s, q) == digits_end(s, q + 1));
            }
        }
        proof {
            assert(lit@ =~= s.subrange(p, i.at()));
        }
        let ghost int_end = i.at();
        let ghost lit_mid = lit@;
        let rr = match parse_frac_part(i, &mut lit) {
            Err(e) => {
                return Err(e);
            },
            Ok(()) => {},
        };
        proof {
            assert(num_scan(s, p) == num_scan_frac(s, int_end));
            if let NumScan::Lit { end } = num_scan_frac(s, int_end) {
                assert(lit@ =~= s.subrange(p, end)) by {
                    assert(s.subrange(p, end) =~= s.subrange(p, int_end) + s.subrange(
                        int_end,
                        end,
                    ));
                }
            }
        }
        Ok(JsonNumber(lit))
    }
}

/// The characters allowed after a backslash.
fn escape_expected_vec() -> (r: Vec<char>)
    ensures
        r@ == escape_expected(),
{
    let mut v: Vec<char> = Vec::new();
    v.push('"');
    v.push('\\');
    v.push('/');
    v.push('b');
    v.push('f');
    v.push('n');
    v.push('r');
    v.push('t');
    v.push('u');
    proof {
        assert(v@ =~= escape_expected());
    }
    v
}

impl JsonString {
    /// Parses a quoted string: skips leading whitespace, demands the
    /// opening quote, then decodes the body up to the closing quote,
    /// resolving every escape and recombining surrogate pairs.
    #[verifier::loop_isolation(false)]
    #[verifier::rlimit(100)]
    pub fn parse(i: &mut WhitespaceSkippingIndexTrackingIter) -> (r: Result<
        JsonString,
        ParseError,
    >)
        requires
            old(i).wf(),
        ensures
            final(i).wf(),
            final(i).src() == old(i).src(),
            old(i).at() <= final(i).at(),
            ({
                let s = old(i).src();
                let p = old(i).at();
                match first_non_ws(s, p) {
                    None => r matches Err(e) && matches_err(e, ErrSpec::Eos) && final(i).at()
                        == s.len(),
                    Some(j) => if s[j] != '"' {
                        r matches Err(e) && is_unexpected_character(e, s[j], j, seq!['"'])
                            && final(i).at() == j + 1
                    } else {
                        match str_scan(s, j + 1) {
                            StrScan::Done { content, end } => r matches Ok(js) && js@ == content
                                && final(i).at() == end,
                            StrScan::Bad { err } => r matches Err(e) && matches_err(e, err),
                        }
                    },
                }
            }),
    {
        let ghost s = old(i).src();
        proof {
            lemma_first_non_ws(s, old(i).at());
        }
        match i.expect_specific_char_ignore_whitespace('"') {
            Err(e) => {
                return Err(e);
            },
            Ok(()) => {},
        }
        let ghost start = i.at();
        let mut acc: Vec<char> = Vec::new();
        loop
            invariant
                i.wf(),
                i.src() == s,
                start <= i.at() <= s.len(),
                str_scan_with_prefix(acc@, str_scan(s, i.at())) == str_scan(s, start),
            decreases s.len() - i.at(),
        {
            let ghost cur = i.at();
            let ghost acc_prev = acc@;
            let c = match i.next_any() {
                None => {
                    return Err(ParseError::UnexpectedEndOfString);
                },
                Some(c) => c,
            };
            if c == '"' {
                proof {
                    assert(str_scan(s, cur) == StrScan::Done {
                        content: Seq::empty(),
                        end: cur + 1,
                    });
                    assert(acc@ + Seq::<char>::empty() =~= acc@);
                }
                return Ok(JsonString(acc));
            } else if c == '\\' {
                let e = match i.next_any() {
                    None => {
                        return Err(ParseError::UnexpectedEndOfString);
                    },
                    Some(c2) => c2,
                };
                if e == 'u' {
                    let w0 = match parse_four_hex(i) {
                        Err(e2) => {
                            return Err(e2);
                        },
                        Ok(w) => w,
                    };
                    if w0 < 0xD800 || w0 > 0xDFFF {
                        let d = match decode_single_unit(w0) {
                            Some(d) => d,
                            None => {
                                proof {
                                    assert(false);
                                }
                                return Err(ParseError::UnexpectedEndOfString);
                            },
                        };
                        proof {
                            assert(str_scan(s, cur) == str_scan_prepend(d, str_scan(s, i.at())));
                            lemma_prefix_prepend(acc_prev, d, str_scan(s, i.at()));
                        }
                        acc.push(d);
                    } else if w0 >= 0xDC00 {
                        // a lone low surrogate can begin no scalar
                        let bad = i.chars[i.next_pos - 1];
                        return Err(
                            ParseError::UnexpectedNonHexCharacter {
                                character: bad,
                                index: i.next_pos - 1,
                            },
                        );
                    } else {
                        // a high surrogate: the paired low escape must follow
                        match i.expect_specific_char('\\') {
                            Err(e2) => {
                                return Err(e2);
                            },
                            Ok(()) => {},
                        }
                        match i.expect_specific_char('u') {
                            Err(e2) => {
                                return Err(e2);
                            },
                            Ok(()) => {},
                        }
                        let w1 = match parse_four_hex(i) {
                            Err(e2) => {
                                return Err(e2);
                            },
                            Ok(w) => w,
                        };
                        if !(0xDC00 <= w1 && w1 <= 0xDFFF) {
                            let bad = i.chars[i.next_pos - 1];
                            return Err(
                                ParseError::UnexpectedNonHexCharacter {
                                    character: bad,
                                    index: i.next_pos - 1,
                                },
                            );
                        }
                        let d = combine_surrogate_pair(w0, w1);
                        proof {
                            assert(str_scan(s, cur) == str_scan_pair(s, cur, w0));
                            assert(str_scan_pair(s, cur, w0) == str_scan_prepend(
                                d,
                                str_scan(s, i.at()),
                            ));
                            lemma_prefix_prepend(acc_prev, d, str_scan(s, i.at()));
                        }
                        acc.push(d);
                    }
                } else {
                    let d: char = if e == '"' {
                        '"'
                    } else if e == '\\' {
                        '\\'
                    } else if e == '/' {
                        '/'
                    } else if e == 'b' {
                        '\u{0008}'
                    } else if e == 'f' {
                        '\u{000C}'
                    } else if e == 'n' {
                        '\n'
                    } else if e == 'r' {
                        '\r'
                    } else if e == 't' {
                        '\t'
                    } else {
                        return Err(
                            ParseError::UnexpectedCharacter {
                                character: e,
                                index: i.next_pos - 1,
                                expected_characters: escape_expected_vec(),
                            },
                        );
                    };
                    proof {
                        assert(simple_escape_val(e) == Some(d));
                        assert(str_scan(s, cur) == str_scan_prepend(d, str_scan(s, i.at())));
                        lemma_prefix_prepend(acc_prev, d, str_scan(s, i.at()));
                    }
                    acc.push(d);
                }
            } else if (c as u32) < 0x20 {
                return Err(ParseError::ControlCharacter { control_character: c, index: i.next_pos - 1 });
            } else {
                proof {
                    assert(str_scan(s, cur) == str_scan_prepend(c, str_scan(s, i.at())));
                    lemma_prefix_prepend(acc_prev, c, str_scan(s, i.at()));
                }
                acc.push(c);
            }
        }
    }
}

/// The characters that can begin a JSON value.
fn value_starters_vec() -> (r: Vec<char>)
    ensures
        r@ == value_starters(),
{
    let mut v: Vec<char> = Vec::new();
    v.push('{');
    v.push('[');
    v.push('"');
    v.push('t');
    v.push('f');
    v.push('n');
    v.push('-');
    v.push('0');
    v.push('1');
    v.push('2');
    v.push('3');
    v.push('4');
    v.push('5');
    v.push('6');
    v.push('7');
    v.push('8');
    v.push('9');
    proof {
        assert(v@ =~= value_starters());
    }
    v
}

impl JsonValue {
    /// The value rule: skips leading whitespace, inspects the first
    /// significant character without consuming the construct, and
    /// dispatches to the rule it selects.
    #[verifier::rlimit(100)]
    pub fn parse(i: &mut WhitespaceSkippingIndexTrackingIter) -> (r: Result<JsonValue, ParseError>)
        requires
            old(i).wf(),
        ensures
            final(i).wf(),
            final(i).src() == old(i).src(),
            old(i).at() <= final(i).at(),
            r matches Ok(v) ==> value_wf(v) && old(i).at() < final(i).at(),
            match value_end(old(i).src(), old(i).at()) {
                PosScan::End { end } => r is Ok && final(i).at() == end,
                PosScan::Bad { err } => r matches Err(e) && matches_err(e, err),
            },
            ({
                let s = old(i).src();
                let p = old(i).at();
                match first_non_ws(s, p) {
                    None => r matches Err(e) && matches_err(e, ErrSpec::Eos) && final(i).at()
                        == s.len(),
                    Some(j) => {
                        let c = s[j];
                        &&& (c == '"' ==> (match str_scan(s, j + 1) {
                            StrScan::Done { content, end } => r matches Ok(v) && v matches
                                JsonValue::Str(js) && js@ == content && final(i).at() == end,
                            StrScan::Bad { err } => r matches Err(e) && matches_err(e, err),
                        }))
                        &&& (c == 'n' ==> (match literal_scan(s, j, null_literal()) {
                            LitScan::Matched => r == Ok::<JsonValue, ParseError>(
                                JsonValue::Null(JsonNull),
                            ) && final(i).at() == j + 4,
                            LitScan::Eos => r matches Err(e) && matches_err(e, ErrSpec::Eos),
                            LitScan::Mismatch { c: mc, at: ma } => r matches Err(e)
                                && is_unexpected_character(e, mc, ma, seq![null_literal()[ma - j]]),
                        }))
                        &&& (c == 't' ==> (match literal_scan(s, j, true_literal()) {
                            LitScan::Matched => r == Ok::<JsonValue, ParseError>(
                                JsonValue::Bool(JsonBool(true)),
                            ) && final(i).at() == j + 4,
                            LitScan::Eos => r matches Err(e) && matches_err(e, ErrSpec::Eos),
                            LitScan::Mismatch { c: mc, at: ma } => r matches Err(e)
                                && is_unexpected_character(e, mc, ma, seq![true_literal()[ma - j]]),
                        }))
                        &&& (c == 'f' ==> (match literal_scan(s, j, false_literal()) {
                            LitScan::Matched => r == Ok::<JsonValue, ParseError>(
                                JsonValue::Bool(JsonBool(false)),
                            ) && final(i).at() == j + 5,
                            LitScan::Eos => r matches Err(e) && matches_err(e, ErrSpec::Eos),
                            LitScan::Mismatch { c: mc, at: ma } => r matches Err(e)
                                && is_unexpected_character(e, mc, ma, seq![false_literal()[ma - j]]),
                        }))
                        &&& ((c == '-' || is_digit(c)) ==> (match num_scan(s, j) {
                            NumScan::Lit { end } => r matches Ok(v) && v matches JsonValue::Number(
                                n,
                            ) && n@ == s.subrange(j, end) && final(i).at() == end,
                            NumScan::Bad { err } => r matches Err(e) && matches_err(e, err),
                        }))
                        &&& (c == '{' ==> (r matches Ok(v) ==> v matches JsonValue::Object(_)))
                        &&& (c == '{' ==> (match first_non_ws(s, j + 1) {
                            Some(k) => s[k] == '}' ==> (r matches Ok(v) && v matches
                                JsonValue::Object(o) && o.0@ =~= Seq::<(
                                JsonString,
                                JsonValue,
                            )>::empty() && final(i).at() == k + 1),
                            None => r matches Err(e) && matches_err(e, ErrSpec::Eos),
                        }))
                        &&& (c == '[' ==> (r matches Ok(v) ==> v matches JsonValue::Array(_)))
                        &&& (c == '[' ==> (match first_non_ws(s, j + 1) {
                            Some(k) => s[k] == ']' ==> (r matches Ok(v) && v matches
                                JsonValue::Array(a) && a.0@ =~= Seq::<JsonValue>::empty()
                                && final(i).at() == k + 1),
                            None => r matches Err(e) && matches_err(e, ErrSpec::Eos),
                        }))
                        &&& (!is_value_starter(c) ==> (r matches Err(e)
                            && is_unexpected_character(e, c, j, value_starters()) && final(i).at()
                            == j + 1))
                    },
                }
            }),
        decreases i.src().len() - i.at(), 1int,
    {
        proof {
            lemma_first_non_ws(old(i).src(), old(i).at());
        }
        match i.peek_non_whitespace() {
            None => Err(ParseError::UnexpectedEndOfString),
            Some(c) => {
                if c == '{' {
                    match JsonObject::parse(i) {
                        Ok(o) => Ok(JsonValue::Object(o)),
                        Err(e) => Err(e),
                    }
                } else if c == '[' {
                    match JsonArray::parse(i) {
                        Ok(a) => Ok(JsonValue::Array(a)),
                        Err(e) => Err(e),
                    }
                } else if c == '"' {
                    proof {
                        lemma_str_scan_end(old(i).src(), i.at() + 1);
                    }
                    match JsonString::parse(i) {
                        Ok(js) => Ok(JsonValue::Str(js)),
                        Err(e) => Err(e),
                    }
                } else if c == 't' || c == 'f' {
                    match JsonBool::parse(i) {
                        Ok(b) => Ok(JsonValue::Bool(b)),
                        Err(e) => Err(e),
                    }
                } else if c == 'n' {
                    match JsonNull::parse(i) {
                        Ok(n) => Ok(JsonValue::Null(n)),
                        Err(e) => Err(e),
                    }
                } else if c == '-' || digit_check(c) {
                    match JsonNumber::parse(i) {
                        Ok(n) => Ok(JsonValue::Number(n)),
                        Err(e) => Err(e),
                    }
                } else {
                    let _ = i.next_any();
                    Err(
                        ParseError::UnexpectedCharacter {
                            character: c,
                            index: i.next_pos - 1,
                            expected_characters: value_starters_vec(),
                        },
                    )
                }
            },
        }
    }
}

impl JsonArray {
    /// The array rule: consumes the opening bracket, takes the empty-array
    /// fast path when the next significant character closes it, and
    /// otherwise parses comma-separated values up to the closing bracket.
    #[verifier::loop_isolation(false)]
    #[verifier::rlimit(100)]
    pub fn parse(i: &mut WhitespaceSkippingIndexTrackingIter) -> (r: Result<JsonArray, ParseError>)
        requires
            old(i).wf(),
        ensures
            final(i).wf(),
            final(i).src() == old(i).src(),
            old(i).at() <= final(i).at(),
            r matches Ok(a) ==> array_wf(a) && old(i).at() < final(i).at(),
            match array_end(old(i).src(), old(i).at()) {
                PosScan::End { end } => r is Ok && final(i).at() == end,
                PosScan::Bad { err } => r matches Err(e) && matches_err(e, err),
            },
            ({
                let s = old(i).src();
                let p = old(i).at();
                &&& (p >= s.len() ==> (r matches Err(e) && matches_err(e, ErrSpec::Eos)))
                &&& (p < s.len() && s[p] != '[' ==> (r matches Err(e) && is_unexpected_character(
                    e,
                    s[p],
                    p,
                    seq!['['],
                ) && final(i).at() == p + 1))
                &&& (p < s.len() && s[p] == '[' ==> (match first_non_ws(s, p + 1) {
                    Some(k) => if s[k] == ']' {
                        r matches Ok(a) && a.0@ =~= Seq::<JsonValue>::empty() && final(i).at()
                            == k + 1
                    } else {
                        r matches Ok(a) ==> a.0@.len() >= 1
                    },
                    None => r matches Err(e) && matches_err(e, ErrSpec::Eos) && final(i).at()
                        == s.len(),
                }))
            }),
        decreases i.src().len() - i.at(), 0int,
    {
        let ghost s = old(i).src();
        let ghost p = old(i).at();
        match i.expect_specific_char('[') {
            Err(e) => {
                return Err(e);
            },
            Ok(()) => {},
        }
        proof {
            lemma_first_non_ws(s, p + 1);
        }
        let mut v: Vec<JsonValue> = Vec::new();
        let is_empty = i.next_non_whitespace_if_eq(']').is_some();
        if is_empty {
            proof {
                assert(v@ =~= Seq::<JsonValue>::empty());
            }
            return Ok(JsonArray(v));
        }
        proof {
            match first_non_ws(s, p + 1) {
                Some(j) => {
                    assert(s[j] != ']');
                    assert(array_end(s, p) == array_items_end(s, j));
                },
                None => {
                    assert(i.at() == s.len() as int);
                    assert(value_end(s, s.len() as int) == PosScan::Bad { err: ErrSpec::Eos });
                    assert(array_items_end(s, s.len() as int) == PosScan::Bad {
                        err: ErrSpec::Eos,
                    });
                    assert(array_end(s, p) == PosScan::Bad { err: ErrSpec::Eos });
                },
            }
        }
        loop
            invariant
                i.wf(),
                i.src() == s,
                p < i.at() <= s.len(),
                first_non_ws(s, p + 1) matches Some(k) ==> s[k] != ']',
                first_non_ws(s, p + 1) is None ==> i.at() == s.len(),
                p < s.len() && s[p] == '[',
                array_items_end(s, i.at()) == array_end(s, p),
                forall|k: int| 0 <= k < v@.len() ==> value_wf(#[trigger] v@[k]),
            decreases s.len() - i.at(),
        {
            let ghost q = i.at();
            let value = match JsonValue::parse(i) {
                Err(e) => {
                    return Err(e);
                },
                Ok(w) => w,
            };
            v.push(value);
            proof {
                lemma_first_non_ws(s, i.at());
            }
            match i.next_non_whitespace() {
                None => {
                    return Err(ParseError::UnexpectedEndOfString);
                },
                Some(c) => {
                    if c == ']' {
                        proof {
                            assert(array_wf(JsonArray(v)));
                        }
                        return Ok(JsonArray(v));
                    } else if c != ',' {
                        let mut expected_characters: Vec<char> = Vec::new();
                        expected_characters.push(']');
                        expected_characters.push(',');
                        proof {
                            assert(expected_characters@ =~= seq![']', ',']);
                        }
                        return Err(
                            ParseError::UnexpectedCharacter {
                                character: c,
                                index: i.next_pos - 1,
                                expected_characters,
                            },
                        );
                    }
                },
            }
        }
    }
}

impl JsonObject {
    /// The object rule: consumes the opening brace, takes the empty-object
    /// fast path, and otherwise parses comma-separated `key : value` pairs
    /// up to the closing brace, inserting each pair so that on a duplicate
    /// key the last value wins.
    #[verifier::rlimit(100)]
    pub fn parse(i: &mut WhitespaceSkippingIndexTrackingIter) -> (r: Result<
        JsonObject,
        ParseError,
    >)
        requires
            old(i).wf(),
        ensures
            final(i).wf(),
            final(i).src() == old(i).src(),
            old(i).at() <= final(i).at(),
            r matches Ok(o) ==> object_wf(o) && old(i).at() < final(i).at(),
            match object_end(old(i).src(), old(i).at()) {
                PosScan::End { end } => r is Ok && final(i).at() == end,
                PosScan::Bad { err } => r matches Err(e) && matches_err(e, err),
            },
            ({
                let s = old(i).src();
                let p = old(i).at();
                &&& (p >= s.len() ==> (r matches Err(e) && matches_err(e, ErrSpec::Eos)))
                &&& (p < s.len() && s[p] != '{' ==> (r matches Err(e) && is_unexpected_character(
                    e,
                    s[p],
                    p,
                    seq!['{'],
                ) && final(i).at() == p + 1))
                &&& (p < s.len() && s[p] == '{' ==> (match first_non_ws(s, p + 1) {
                    Some(k) => if s[k] == '}' {
                        r matches Ok(o) && o.0@ =~= Seq::<(JsonString, JsonValue)>::empty()
                            && final(i).at() == k + 1
                    } else {
                        r matches Ok(o) ==> o.0@.len() >= 1
                    },
                    None => r matches Err(e) && matches_err(e, ErrSpec::Eos) && final(i).at()
                        == s.len(),
                }))
            }),
        decreases i.src().len() - i.at(), 0int,
    {
        let ghost s = old(i).src();
        let ghost p = old(i).at();
        match i.expect_specific_char('{') {
            Err(e) => {
                return Err(e);
            },
            Ok(()) => {},
        }
        proof {
            lemma_first_non_ws(s, p + 1);
        }
        let mut obj = JsonObject::empty();
        let is_empty = i.next_non_whitespace_if_eq('}').is_some();
        if is_empty {
            return Ok(obj);
        }
        loop
            invariant
                i.wf(),
                s == old(i).src(),
                p == old(i).at(),
                i.src() == s,
                p < i.at() <= s.len(),
                first_non_ws(s, p + 1) matches Some(k) ==> s[k] != '}',
                first_non_ws(s, p + 1) is None ==> i.at() == s.len(),
                p < s.len() && s[p] == '{',
                object_items_end(s, i.at()) == object_end(s, p),
                keys_unique(obj.0@),
                forall|k: int| 0 <= k < obj.0@.len() ==> value_wf(#[trigger] obj.0@[k].1),
            decreases s.len() - i.at(),
        {
            proof {
                lemma_first_non_ws(s, i.at());
                lemma_str_scan_end(s, i.at());
                if let Some(j2) = first_non_ws(s, i.at()) {
                    lemma_str_scan_end(s, j2 + 1);
                }
            }
            let ghost q = i.at();
            let key = match JsonString::parse(i) {
                Err(e) => {
                    return Err(e);
                },
                Ok(k) => k,
            };
            let ghost ke = i.at();
            proof {
                lemma_first_non_ws(s, ke);
                assert(object_items_end(s, q) == object_member_end(s, q, ke));
            }
            match i.expect_specific_char_ignore_whitespace(':') {
                Err(e) => {
                    return Err(e);
                },
                Ok(()) => {},
            }
            let value = match JsonValue::parse(i) {
                Err(e) => {
                    return Err(e);
                },
                Ok(w) => w,
            };
            proof {
                lemma_first_non_ws(s, i.at());
            }
            let ghost before = obj.0@;
            obj.insert(key, value);
            proof {
                assert forall|k: int| 0 <= k < obj.0@.len() implies value_wf(
                    #[trigger] obj.0@[k].1,
                ) by {
                    if obj.0@[k].1 != value {
                        let u = choose|u: int|
                            0 <= u < before.len() && obj.0@[k] == before[u];
                        assert(value_wf(before[u].1));
                    }
                }
            }
            match i.next_non_whitespace() {
                None => {
                    return Err(ParseError::UnexpectedEndOfString);
                },
                Some(c) => {
                    if c == '}' {
                        proof {
                            assert(object_wf(obj));
                        }
                        return Ok(obj);
                    } else if c != ',' {
                        let mut expected_characters: Vec<char> = Vec::new();
                        expected_characters.push(',');
                        expected_characters.push('}');
                        proof {
                            assert(expected_characters@ =~= seq![',', '}']);
                        }
                        return Err(
                            ParseError::UnexpectedCharacter {
                                character: c,
                                index: i.next_pos - 1,
                                expected_characters,
                            },
                        );
                    }
                },
            }
        }
    }
}

/// The root value parsed cleanly and, after it, only whitespace remained
/// (`r` is then the value); otherwise the first significant trailing
/// character is reported, with nothing expected in its place.
pub open spec fn root_trailing(s: Seq<char>, end: int, r: Result<JsonValue, ParseError>) -> bool {
    match first_non_ws(s, end) {
        None => r is Ok,
        Some(k) => r matches Err(e) && is_unexpected_character(e, s[k], k, Seq::<char>::empty()),
    }
}

/// The entry point: parses one JSON value from the whole input. Trailing
/// whitespace is allowed; any other trailing content is an error at its
/// position.
#[verifier::rlimit(100)]
pub fn parse(input: Vec<char>) -> (r: Result<JsonValue, ParseError>)
    ensures
        r matches Ok(v) ==> value_wf(v),
        match value_end(input@, 0) {
            PosScan::End { end } => (match first_non_ws(input@, end) {
                None => r is Ok,
                Some(k) => r matches Err(e) && is_unexpected_character(
                    e,
                    input@[k],
                    k,
                    Seq::<char>::empty(),
                ),
            }),
            PosScan::Bad { err } => r matches Err(e) && matches_err(e, err),
        },
        ({
            let s = input@;
            match first_non_ws(s, 0) {
                None => r matches Err(e) && matches_err(e, ErrSpec::Eos),
                Some(j) => {
                    let c = s[j];
                    &&& (c == '"' ==> (match str_scan(s, j + 1) {
                        StrScan::Done { content, end } => (r matches Ok(v) ==> v matches
                            JsonValue::Str(js) && js@ == content) && root_trailing(s, end, r),
                        StrScan::Bad { err } => r matches Err(e) && matches_err(e, err),
                    }))
                    &&& (c == 'n' ==> (match literal_scan(s, j, null_literal()) {
                        LitScan::Matched => (r matches Ok(v) ==> v == JsonValue::Null(JsonNull))
                            && root_trailing(s, j + 4, r),
                        LitScan::Eos => r matches Err(e) && matches_err(e, ErrSpec::Eos),
                        LitScan::Mismatch { c: mc, at: ma } => r matches Err(e)
                            && is_unexpected_character(e, mc, ma, seq![null_literal()[ma - j]]),
                    }))
                    &&& (c == 't' ==> (match literal_scan(s, j, true_literal()) {
                        LitScan::Matched => (r matches Ok(v) ==> v == JsonValue::Bool(
                            JsonBool(true),
                        )) && root_trailing(s, j + 4, r),
                        LitScan::Eos => r matches Err(e) && matches_err(e, ErrSpec::Eos),
                        LitScan::Mismatch { c: mc, at: ma } => r matches Err(e)
                            && is_unexpected_character(e, mc, ma, seq![true_literal()[ma - j]]),
                    }))
                    &&& (c == 'f' ==> (match literal_scan(s, j, false_literal()) {
                        LitScan::Matched => (r matches Ok(v) ==> v == JsonValue::Bool(
                            JsonBool(false),
                        )) && root_trailing(s, j + 5, r),
                        LitScan::Eos => r matches Err(e) && matches_err(e, ErrSpec::Eos),
                        LitScan::Mismatch { c: mc, at: ma } => r matches Err(e)
                            && is_unexpected_character(e, mc, ma, seq![false_literal()[ma - j]]),
                    }))
                    &&& ((c == '-' || is_digit(c)) ==> (match num_scan(s, j) {
                        NumScan::Lit { end } => (r matches Ok(v) ==> v matches JsonValue::Number(n)
                            && n@ == s.subrange(j, end)) && root_trailing(s, end, r),
                        NumScan::Bad { err } => r matches Err(e) && matches_err(e, err),
                    }))
                    &&& (c == '{' ==> (r matches Ok(v) ==> v matches JsonValue::Object(_)))
                    &&& (c == '{' ==> (match first_non_ws(s, j + 1) {
                        Some(k) => s[k] == '}' ==> (r matches Ok(v) ==> v matches
                            JsonValue::Object(o) && o.0@ =~= Seq::<(
                            JsonString,
                            JsonValue,
                        )>::empty()) && root_trailing(s, k + 1, r),
                        None => r matches Err(e) && matches_err(e, ErrSpec::Eos),
                    }))
                    &&& (c == '[' ==> (r matches Ok(v) ==> v matches JsonValue::Array(_)))
                    &&& (c == '[' ==> (match first_non_ws(s, j + 1) {
                        Some(k) => s[k] == ']' ==> (r matches Ok(v) ==> v matches JsonValue::Array(
                            a,
                        ) && a.0@ =~= Seq::<JsonValue>::empty()) && root_trailing(s, k + 1, r),
                        None => r matches Err(e) && matches_err(e, ErrSpec::Eos),
                    }))
                    &&& (!is_value_starter(c) ==> (r matches Err(e) && is_unexpected_character(
                        e,
                        c,
                        j,
                        value_starters(),
                    )))
                },
            }
        }),
{
    let mut it = WhitespaceSkippingIndexTrackingIter::new(input);
    let v = match JsonValue::parse(&mut it) {
        Err(e) => {
            return Err(e);
        },
        Ok(v) => v,
    };
    match it.next_non_whitespace() {
        None => Ok(v),
        Some(c) => Err(
            ParseError::UnexpectedCharacter {
                character: c,
                index: it.next_pos - 1,
                expected_characters: Vec::new(),
            },
        ),
    }
}

} // verus!
