use json_parse::error::ParseError;
use json_parse::parser::parse;
use json_parse::value::JsonArray;
use json_parse::value::JsonBool;
use json_parse::value::JsonNull;
use json_parse::value::JsonNumber;
use json_parse::value::JsonObject;
use json_parse::value::JsonString;
use json_parse::value::JsonValue;

fn chars(s: &str) -> Vec<char> {
    s.chars().collect()
}

fn parse_str(s: &str) -> Result<JsonValue, ParseError> {
    parse(chars(s))
}

fn js(s: &str) -> JsonString {
    JsonString(chars(s))
}

fn num(s: &str) -> JsonValue {
    JsonValue::Number(JsonNumber(chars(s)))
}

fn serialize(v: &JsonValue) -> String {
    match v {
        JsonValue::Object(o) => {
            let mut out = String::from("{");
            for (i, (k, val)) in o.0.iter().enumerate() {
                if i > 0 {
                    out.push(',');
                }
                out.push_str(&serialize_string(&k.0));
                out.push(':');
                out.push_str(&serialize(val));
            }
            out.push('}');
            out
        }
        JsonValue::Array(a) => {
            let mut out = String::from("[");
            for (i, val) in a.0.iter().enumerate() {
                if i > 0 {
                    out.push(',');
                }
                out.push_str(&serialize(val));
            }
            out.push(']');
            out
        }
        JsonValue::Str(s) => serialize_string(&s.0),
        JsonValue::Number(n) => n.0.iter().collect(),
        JsonValue::Bool(JsonBool(true)) => String::from("true"),
        JsonValue::Bool(JsonBool(false)) => String::from("false"),
        JsonValue::Null(_) => String::from("null"),
    }
}

fn serialize_string(content: &[char]) -> String {
    let mut out = String::from("\"");
    for &c in content {
        match c {
            '"' => out.push_str("\\\""),
            '\\' => out.push_str("\\\\"),
            c if (c as u32) < 0x20 => out.push_str(&format!("\\u{:04X}", c as u32)),
            c => out.push(c),
        }
    }
    out.push('"');
    out
}

#[test]
fn round_trip_object() {
    let text = "{\"a\":[1,true,null,\"x\"],\"b\":0.5,\"c\":{\"d\":[]}}";
    let v = parse_str(text).unwrap();
    let serialized = serialize(&v);
    let v2 = parse(serialized.chars().collect()).unwrap();
    assert_eq!(v, v2);
}

#[test]
fn round_trip_escapes() {
    let text = "\"a\\n\\t\\\\ \\\"q\\\" \\u0041\"";
    let v = parse_str(text).unwrap();
    let v2 = parse(serialize(&v).chars().collect()).unwrap();
    assert_eq!(v, v2);
}

#[test]
fn whitespace_insensitivity() {
    let tight = parse_str("{\"a\":[1,2],\"b\":true}").unwrap();
    let spaced = parse_str(" {\r\n\t\"a\" :\t[ 1 ,\n2 ] , \"b\" : true }\n").unwrap();
    assert_eq!(tight, spaced);
}

#[test]
fn duplicate_keys_last_wins() {
    let v = parse_str("{\"a\":1,\"a\":2}").unwrap();
    match v {
        JsonValue::Object(o) => {
            assert_eq!(o.0.len(), 1);
            assert_eq!(o.0[0].0, js("a"));
            assert_eq!(o.0[0].1, num("2"));
        }
        other => panic!("expected an object, got {:?}", other),
    }
}

#[test]
fn surrogate_pair_decodes_to_one_scalar() {
    let v = parse_str("\"\\uD83D\\uDE00\"").unwrap();
    assert_eq!(v, JsonValue::Str(js("\u{1F600}")));
}

#[test]
fn lone_high_surrogate_fails() {
    assert!(parse_str("\"\\uD800\"").is_err());
}

#[test]
fn lone_low_surrogate_fails() {
    assert!(matches!(
        parse_str("\"\\uDC00\""),
        Err(ParseError::UnexpectedNonHexCharacter { .. })
    ));
}

#[test]
fn leading_zero_rejected() {
    match parse_str("01") {
        Err(ParseError::UnexpectedCharacter {
            character,
            index,
            expected_characters,
        }) => {
            assert_eq!(character, '1');
            assert_eq!(index, 1);
            assert_eq!(expected_characters, vec!['.', 'e', 'E']);
        }
        other => panic!("expected an unexpected-character error, got {:?}", other),
    }
    assert!(matches!(
        parse_str("00"),
        Err(ParseError::UnexpectedCharacter { .. })
    ));
    assert!(matches!(
        parse_str("[01]"),
        Err(ParseError::UnexpectedCharacter { .. })
    ));
    assert!(matches!(
        parse_str("-01"),
        Err(ParseError::UnexpectedCharacter { .. })
    ));
    assert_eq!(parse_str("0").unwrap(), num("0"));
    assert_eq!(parse_str("-0").unwrap(), num("-0"));
    assert_eq!(parse_str("0.5").unwrap(), num("0.5"));
    assert_eq!(parse_str("0e3").unwrap(), num("0e3"));
}

#[test]
fn empty_containers() {
    assert_eq!(parse_str("{}").unwrap(), JsonValue::Object(JsonObject(vec![])));
    assert_eq!(parse_str("[]").unwrap(), JsonValue::Array(JsonArray(vec![])));
    assert_eq!(parse_str("{ }").unwrap(), JsonValue::Object(JsonObject(vec![])));
    assert_eq!(parse_str("[ ]").unwrap(), JsonValue::Array(JsonArray(vec![])));
}

#[test]
fn unterminated_string_is_end_of_input() {
    assert!(matches!(
        parse_str("\"abc"),
        Err(ParseError::UnexpectedEndOfString)
    ));
}

#[test]
fn error_position_points_at_offender() {
    match parse_str("[1, }]") {
        Err(ParseError::UnexpectedCharacter {
            character, index, ..
        }) => {
            assert_eq!(character, '}');
            assert_eq!(index, 4);
        }
        other => panic!("expected an unexpected-character error, got {:?}", other),
    }
}

#[test]
fn control_character_rejected() {
    match parse_str("\"a\nb\"") {
        Err(ParseError::ControlCharacter {
            control_character,
            index,
        }) => {
            assert_eq!(control_character, '\n');
            assert_eq!(index, 2);
        }
        other => panic!("expected a control-character error, got {:?}", other),
    }
}

#[test]
fn non_hex_escape_digit_rejected() {
    match parse_str("\"\\uZZ00\"") {
        Err(ParseError::UnexpectedNonHexCharacter { character, index }) => {
            assert_eq!(character, 'Z');
            assert_eq!(index, 3);
        }
        other => panic!("expected a non-hex error, got {:?}", other),
    }
}

#[test]
fn simple_escapes_decode() {
    let v = parse_str("\"\\b\\f\\n\\r\\t\\/\\\\\\\"\"").unwrap();
    assert_eq!(
        v,
        JsonValue::Str(js("\u{0008}\u{000C}\n\r\t/\\\""))
    );
}

#[test]
fn unknown_escape_rejected() {
    match parse_str("\"\\q\"") {
        Err(ParseError::UnexpectedCharacter {
            character,
            index,
            expected_characters,
        }) => {
            assert_eq!(character, 'q');
            assert_eq!(index, 2);
            assert_eq!(
                expected_characters,
                vec!['"', '\\', '/', 'b', 'f', 'n', 'r', 't', 'u']
            );
        }
        other => panic!("expected an unexpected-character error, got {:?}", other),
    }
}

#[test]
fn unicode_escape_bmp() {
    assert_eq!(parse_str("\"\\u0041\"").unwrap(), JsonValue::Str(js("A")));
    assert_eq!(parse_str("\"\\u00e9\"").unwrap(), JsonValue::Str(js("\u{e9}")));
}

#[test]
fn number_literals_kept_exactly() {
    assert_eq!(parse_str("-12.5e+3").unwrap(), num("-12.5e+3"));
    assert_eq!(parse_str("1e10").unwrap(), num("1e10"));
    assert_eq!(parse_str("-0").unwrap(), num("-0"));
}

#[test]
fn number_literal_converts_to_float() {
    match parse_str("0.5").unwrap() {
        JsonValue::Number(n) => {
            let text: String = n.0.iter().collect();
            let f: f64 = text.parse().unwrap();
            assert_eq!(f, 0.5);
        }
        other => panic!("expected a number, got {:?}", other),
    }
}

#[test]
fn malformed_numbers_rejected() {
    assert!(parse_str("-").is_err());
    assert!(parse_str("1.").is_err());
    assert!(parse_str("1e").is_err());
    assert!(parse_str("1e+").is_err());
    assert!(parse_str("-x").is_err());
}

#[test]
fn literals_parse() {
    assert_eq!(parse_str("true").unwrap(), JsonValue::Bool(JsonBool(true)));
    assert_eq!(parse_str("false").unwrap(), JsonValue::Bool(JsonBool(false)));
    assert_eq!(parse_str("null").unwrap(), JsonValue::Null(JsonNull));
}

#[test]
fn misspelled_literals_rejected() {
    assert!(matches!(
        parse_str("tru"),
        Err(ParseError::UnexpectedEndOfString)
    ));
    match parse_str("trux") {
        Err(ParseError::UnexpectedCharacter {
            character,
            index,
            expected_characters,
        }) => {
            assert_eq!(character, 'x');
            assert_eq!(index, 3);
            assert_eq!(expected_characters, vec!['e']);
        }
        other => panic!("expected an unexpected-character error, got {:?}", other),
    }
    assert!(parse_str("nil").is_err());
}

#[test]
fn trailing_content_rejected() {
    match parse_str("1 2") {
        Err(ParseError::UnexpectedCharacter {
            character, index, ..
        }) => {
            assert_eq!(character, '2');
            assert_eq!(index, 2);
        }
        other => panic!("expected an unexpected-character error, got {:?}", other),
    }
    assert!(parse_str("{} x").is_err());
    assert!(parse_str("[] ").is_ok());
}

#[test]
fn empty_and_blank_input_rejected() {
    assert!(matches!(parse_str(""), Err(ParseError::UnexpectedEndOfString)));
    assert!(matches!(
        parse_str(" \t\r\n"),
        Err(ParseError::UnexpectedEndOfString)
    ));
}

#[test]
fn nested_structures() {
    let v = parse_str("[{\"k\":[true,[null]]},\"s\",-1.5]").unwrap();
    let expected = JsonValue::Array(JsonArray(vec![
        JsonValue::Object(JsonObject(vec![(
            js("k"),
            JsonValue::Array(JsonArray(vec![
                JsonValue::Bool(JsonBool(true)),
                JsonValue::Array(JsonArray(vec![JsonValue::Null(JsonNull)])),
            ])),
        )])),
        JsonValue::Str(js("s")),
        num("-1.5"),
    ]));
    assert_eq!(v, expected);
}

#[test]
fn array_separator_errors() {
    match parse_str("[1;2]") {
        Err(ParseError::UnexpectedCharacter {
            character,
            index,
            expected_characters,
        }) => {
            assert_eq!(character, ';');
            assert_eq!(index, 2);
            assert_eq!(expected_characters, vec![']', ',']);
        }
        other => panic!("expected an unexpected-character error, got {:?}", other),
    }
}

#[test]
fn object_separator_errors() {
    match parse_str("{\"a\":1;}") {
        Err(ParseError::UnexpectedCharacter {
            character,
            index,
            expected_characters,
        }) => {
            assert_eq!(character, ';');
            assert_eq!(index, 6);
            assert_eq!(expected_characters, vec![',', '}']);
        }
        other => panic!("expected an unexpected-character error, got {:?}", other),
    }
}

#[test]
fn object_missing_colon_errors() {
    match parse_str("{\"a\" 1}") {
        Err(ParseError::UnexpectedCharacter {
            character,
            index,
            expected_characters,
        }) => {
            assert_eq!(character, '1');
            assert_eq!(index, 5);
            assert_eq!(expected_characters, vec![':']);
        }
        other => panic!("expected an unexpected-character error, got {:?}", other),
    }
}

#[test]
fn non_starter_rejected() {
    assert!(matches!(
        parse_str("x"),
        Err(ParseError::UnexpectedCharacter { .. })
    ));
}

#[test]
fn object_lookup() {
    let v = parse_str("{\"a\":1,\"b\":[2]}").unwrap();
    match v {
        JsonValue::Object(o) => {
            assert_eq!(o.get(&js("a")), Some(&num("1")));
            assert_eq!(
                o.get(&js("b")),
                Some(&JsonValue::Array(JsonArray(vec![num("2")])))
            );
            assert_eq!(o.get(&js("c")), None);
        }
        other => panic!("expected an object, got {:?}", other),
    }
}

#[test]
fn insertion_order_preserved() {
    let v = parse_str("{\"b\":1,\"a\":2}").unwrap();
    match v {
        JsonValue::Object(o) => {
            assert_eq!(o.0.len(), 2);
            assert_eq!(o.0[0].0, js("b"));
            assert_eq!(o.0[1].0, js("a"));
        }
        other => panic!("expected an object, got {:?}", other),
    }
}

#[test]
fn duplicate_key_replaced_in_place() {
    let v = parse_str("{\"a\":1,\"b\":2,\"a\":3}").unwrap();
    match v {
        JsonValue::Object(o) => {
            assert_eq!(o.0.len(), 2);
            assert_eq!(o.0[0].0, js("a"));
            assert_eq!(o.0[0].1, num("3"));
            assert_eq!(o.0[1].0, js("b"));
        }
        other => panic!("expected an object, got {:?}", other),
    }
}

#[test]
fn surrogate_pair_inside_text() {
    let v = parse_str("\"ab\\uD83D\\uDE00cd\"").unwrap();
    assert_eq!(v, JsonValue::Str(js("ab\u{1F600}cd")));
}

#[test]
fn deeply_nested_arrays() {
    let v = parse_str("[[[[[[[[1]]]]]]]]").unwrap();
    let mut inner = num("1");
    for _ in 0..8 {
        inner = JsonValue::Array(JsonArray(vec![inner]));
    }
    assert_eq!(v, inner);
}

#[test]
fn high_surrogate_followed_by_non_escape_fails() {
    match parse_str("\"\\uD83Dx\"") {
        Err(ParseError::UnexpectedCharacter {
            character,
            index,
            expected_characters,
        }) => {
            assert_eq!(character, 'x');
            assert_eq!(index, 7);
            assert_eq!(expected_characters, vec!['\\']);
        }
        other => panic!("expected an unexpected-character error, got {:?}", other),
    }
}
