use json_parse::cursor::WhitespaceSkippingIndexTrackingIter;
use json_parse::cursor::is_json_whitespace;
use json_parse::error::ParseError;
use json_parse::unicode::combine_surrogate_pair;
use json_parse::unicode::decode_single_unit;
use json_parse::unicode::hex_digit_to_byte;

#[test]
fn all_non_surrogates_are_valid() {
    fn test(x: u16) {
        let decoded = decode_single_unit(x);
        assert!(decoded.is_some());
        assert_eq!(decoded.unwrap() as u32, x as u32);
    }
    for x in 0x0000..=0xD7FF {
        test(x)
    }
    for x in 0xE000..=0xFFFF {
        test(x)
    }
}

#[test]
fn surrogates_are_not_single_units() {
    for x in 0xD800..=0xDFFFu16 {
        assert!(decode_single_unit(x).is_none());
    }
}

#[test]
fn surrogate_pair_combines() {
    assert_eq!(combine_surrogate_pair(0xD83D, 0xDE00), '\u{1F600}');
    assert_eq!(combine_surrogate_pair(0xD800, 0xDC00), '\u{10000}');
    assert_eq!(combine_surrogate_pair(0xDBFF, 0xDFFF), '\u{10FFFF}');
}

#[test]
fn hex_digit_table() {
    assert_eq!(hex_digit_to_byte('0'), Some(0));
    assert_eq!(hex_digit_to_byte('9'), Some(9));
    assert_eq!(hex_digit_to_byte('a'), Some(10));
    assert_eq!(hex_digit_to_byte('A'), Some(10));
    assert_eq!(hex_digit_to_byte('f'), Some(15));
    assert_eq!(hex_digit_to_byte('F'), Some(15));
    assert_eq!(hex_digit_to_byte('g'), None);
    assert_eq!(hex_digit_to_byte(' '), None);
}

#[test]
fn whitespace_predicate() {
    assert!(is_json_whitespace(' '));
    assert!(is_json_whitespace('\n'));
    assert!(is_json_whitespace('\r'));
    assert!(is_json_whitespace('\t'));
    assert!(!is_json_whitespace('a'));
    assert!(!is_json_whitespace('\u{0B}'));
}

#[test]
fn cursor_tracks_index() {
    let mut it = WhitespaceSkippingIndexTrackingIter::new(vec!['a', 'b']);
    assert_eq!(it.previously_outputted_index, None);
    assert_eq!(it.next_any(), Some('a'));
    assert_eq!(it.previously_outputted_index, Some(0));
    assert_eq!(it.next_any(), Some('b'));
    assert_eq!(it.previously_outputted_index, Some(1));
    assert_eq!(it.next_any(), None);
    assert_eq!(it.previously_outputted_index, Some(1));
}

#[test]
fn cursor_inc_index_steps() {
    let mut it = WhitespaceSkippingIndexTrackingIter::new(vec![]);
    assert_eq!(it.previously_outputted_index, None);
    it.inc_index();
    assert_eq!(it.previously_outputted_index, Some(0));
    it.inc_index();
    assert_eq!(it.previously_outputted_index, Some(1));
}

#[test]
fn cursor_skips_whitespace_and_counts_it() {
    let mut it = WhitespaceSkippingIndexTrackingIter::new(vec![' ', '\t', 'x', 'y']);
    assert_eq!(it.next_non_whitespace(), Some('x'));
    assert_eq!(it.previously_outputted_index, Some(2));
    assert_eq!(it.next_non_whitespace(), Some('y'));
    assert_eq!(it.next_non_whitespace(), None);
}

#[test]
fn cursor_conditional_consume_eats_whitespace_even_on_mismatch() {
    let mut it = WhitespaceSkippingIndexTrackingIter::new(vec![' ', ' ', 'x', 'y']);
    // the probe fails, but the leading whitespace is still consumed
    assert_eq!(it.next_non_whitespace_if_eq('z'), None);
    // the decisive character was left unconsumed
    assert_eq!(it.next_any(), Some('x'));
    let mut it2 = WhitespaceSkippingIndexTrackingIter::new(vec!['\n', 'x', 'y']);
    assert_eq!(it2.next_non_whitespace_if_eq('x'), Some('x'));
    assert_eq!(it2.next_any(), Some('y'));
}

#[test]
fn cursor_expectations() {
    let mut it = WhitespaceSkippingIndexTrackingIter::new(vec!['a', 'b']);
    assert!(it.expect_specific_char('a').is_ok());
    match it.expect_specific_char('c') {
        Err(ParseError::UnexpectedCharacter {
            character,
            index,
            expected_characters,
        }) => {
            assert_eq!(character, 'b');
            assert_eq!(index, 1);
            assert_eq!(expected_characters, vec!['c']);
        }
        other => panic!("expected an unexpected-character error, got {:?}", other),
    }
    assert!(matches!(
        it.expect_specific_char('x'),
        Err(ParseError::UnexpectedEndOfString)
    ));
    let mut it2 = WhitespaceSkippingIndexTrackingIter::new(vec![' ', '\r', ':', '1']);
    assert!(it2.expect_specific_char_ignore_whitespace(':').is_ok());
    assert!(it2.expect_specific_char('1').is_ok());
}
