//! The error taxonomy: every way a parse can fail, each annotated with the
//! 0-based index of the offending character where one exists.

use vstd::prelude::*;

verus! {

/// A fatal parse error. Every rule propagates its first error immediately;
/// there is no recovery.
#[derive(Debug, PartialEq, Eq)]
pub enum ParseError {
    /// The character at `index` matched none of `expected_characters`.
    UnexpectedCharacter { character: char, index: usize, expected_characters: Vec<char> },
    /// The input ran out while a construct was incomplete. The end of the
    /// input is its own position, so no index is carried.
    UnexpectedEndOfString,
    /// An unescaped control character (code point below 0x20) appeared
    /// inside a string literal.
    ControlCharacter { control_character: char, index: usize },
    /// A digit of a `\u` escape was not a hexadecimal digit.
    UnexpectedNonHexCharacter { character: char, index: usize },
}

/// `e` reports character `c` at index `idx` with exactly the expected set
/// `expected`.
pub open spec fn is_unexpected_character(e: ParseError, c: char, idx: int, expected: Seq<
    char,
>) -> bool {
    match e {
        ParseError::UnexpectedCharacter { character, index, expected_characters } => character == c
            && index as int == idx && expected_characters@ == expected,
        _ => false,
    }
}

/// `e` reports an unescaped control character `c` at index `idx`.
pub open spec fn is_control_character(e: ParseError, c: char, idx: int) -> bool {
    match e {
        ParseError::ControlCharacter { control_character, index } => control_character == c
            && index as int == idx,
        _ => false,
    }
}

/// `e` reports a non-hexadecimal escape digit `c` at index `idx`.
pub open spec fn is_non_hex_character(e: ParseError, c: char, idx: int) -> bool {
    match e {
        ParseError::UnexpectedNonHexCharacter { character, index } => character == c && index as int
            == idx,
        _ => false,
    }
}

} // verus!
