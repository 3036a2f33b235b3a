use chisel_json::coords::Coords;
use chisel_json::dom::Parser;
use chisel_json::errors::{ParserErrorDetails, ParserErrorSource};
use chisel_json::JsonValue;

#[test]
fn should_parse_char_iterators_directly() {
    let source = r#"{
            "test" : 1232.0,
            "some other" : "thasdasd",
            "a bool" : true,
            "an array" : [1,2,3,4,5.8,6,7.2,7,8,10]
        }"#;
    let parser = Parser::default();
    let parsed = parser.parse_str(source);
    assert!(parsed.is_ok())
}

#[test]
fn empty_object_builds_an_empty_tree() {
    let parser = Parser::default();
    let parsed = parser.parse_str("{}").unwrap();
    assert_eq!(parsed, JsonValue::Object(vec![]));
}

#[test]
fn arrays_preserve_their_values_in_order() {
    let parser = Parser::default();
    let parsed = parser.parse_str("[1, 2.5, true, null, \"x\"]").unwrap();
    assert_eq!(
        parsed,
        JsonValue::Array(vec![
            JsonValue::Integer(1),
            JsonValue::Float("2.5".to_string()),
            JsonValue::Boolean(true),
            JsonValue::Null,
            JsonValue::String("x".to_string()),
        ])
    );
}

#[test]
fn nested_structures_mirror_the_input() {
    let parser = Parser::default();
    let parsed = parser.parse_str("{\"a\": {\"b\": [10]}}").unwrap();
    assert_eq!(
        parsed,
        JsonValue::Object(vec![(
            "a".to_string(),
            JsonValue::Object(vec![(
                "b".to_string(),
                JsonValue::Array(vec![JsonValue::Integer(10)])
            )])
        )])
    );
}

#[test]
fn duplicate_keys_are_preserved_in_order() {
    let parser = Parser::default();
    let parsed = parser.parse_str("{\"a\": 1, \"a\": 2}").unwrap();
    assert_eq!(
        parsed,
        JsonValue::Object(vec![
            ("a".to_string(), JsonValue::Integer(1)),
            ("a".to_string(), JsonValue::Integer(2)),
        ])
    );
}

#[test]
fn invalid_numbers_fail_at_the_offending_scalar() {
    let parser = Parser::default();
    let err = parser.parse_str("123abc").unwrap_err();
    assert_eq!(err.source, ParserErrorSource::Lexer);
    assert_eq!(
        err.details,
        ParserErrorDetails::InvalidNumericRepresentation("123a".to_string())
    );
    assert_eq!(err.coords, Some(Coords { absolute: 4, line: 1, column: 4 }));
}

#[test]
fn invalid_escapes_fail_with_their_fragment() {
    let parser = Parser::default();
    let err = parser.parse_str("\"\\q\"").unwrap_err();
    assert_eq!(
        err.details,
        ParserErrorDetails::InvalidEscapeSequence("\\q".to_string())
    );
}

#[test]
fn a_scalar_root_is_rejected() {
    let parser = Parser::default();
    let err = parser.parse_str("42 ").unwrap_err();
    assert_eq!(err.details, ParserErrorDetails::InvalidRootObject);
    assert_eq!(err.source, ParserErrorSource::DomParser);
}

#[test]
fn empty_input_has_no_root_object() {
    let parser = Parser::default();
    let err = parser.parse_str("").unwrap_err();
    assert_eq!(err.details, ParserErrorDetails::InvalidRootObject);
    assert_eq!(err.coords, Some(Coords { absolute: 0, line: 1, column: 0 }));
}

#[test]
fn an_unterminated_array_fails_with_end_of_input() {
    let parser = Parser::default();
    let err = parser.parse_str("[1, 2,").unwrap_err();
    assert_eq!(err.details, ParserErrorDetails::EndOfInput);
    assert_eq!(err.coords, Some(Coords { absolute: 6, line: 1, column: 6 }));
}

#[test]
fn a_missing_colon_fails_with_pair_expected() {
    let parser = Parser::default();
    let err = parser.parse_str("{\"a\" 1}").unwrap_err();
    assert_eq!(err.details, ParserErrorDetails::PairExpected);
}

#[test]
fn a_bad_token_in_an_object_fails_with_invalid_object() {
    let parser = Parser::default();
    let err = parser.parse_str("{true}").unwrap_err();
    assert_eq!(err.details, ParserErrorDetails::InvalidObject);
}

#[test]
fn a_bad_token_in_an_array_fails_with_invalid_array() {
    let parser = Parser::default();
    let err = parser.parse_str("[1, :]").unwrap_err();
    assert_eq!(err.details, ParserErrorDetails::InvalidArray);
}

#[test]
fn a_structural_token_in_value_position_is_unexpected() {
    let parser = Parser::default();
    let err = parser.parse_str("{\"a\": ,}").unwrap_err();
    assert!(matches!(err.details, ParserErrorDetails::UnexpectedToken(_)));
}

#[test]
fn non_utf8_bytes_are_rejected() {
    let parser = Parser::default();
    let err = parser.parse_bytes(&[0xff, 0xfe, 0x01]).unwrap_err();
    assert_eq!(err.details, ParserErrorDetails::NonUtf8InputDetected);
}

#[test]
fn multi_byte_scalars_survive_decoding() {
    let parser = Parser::default();
    let parsed = parser.parse_str("{\"k\": \"caf\u{e9}\"}").unwrap();
    assert_eq!(
        parsed,
        JsonValue::Object(vec![(
            "k".to_string(),
            JsonValue::String("caf\u{e9}".to_string())
        )])
    );
}

#[test]
fn diagnostics_render_stage_details_and_coords() {
    let parser = Parser::default();
    let err = parser.parse_str("").unwrap_err();
    assert_eq!(
        err.render(),
        "Stage: parsing, Details: invalid JSON, Coords: (line: 1, column: 0, absolute: 0)"
    );
}
