use chisel_json::coords::Coords;
use chisel_json::dom;
use chisel_json::errors::{ParserErrorDetails, ParserErrorSource};
use chisel_json::events::{Event, Match};
use chisel_json::sax::Parser;
use chisel_json::JsonValue;

fn matches_of(events: &[Event]) -> Vec<Match> {
    events.iter().map(|e| e.matched.clone()).collect()
}

fn pointers_of(events: &[Event]) -> Vec<Option<String>> {
    events.iter().map(|e| e.pointer.clone()).collect()
}

#[test]
fn should_puke_on_empty_input() {
    let input = "";
    let parser = Parser::default();
    let parsed = parser.parse_str(input);
    assert!(parsed.is_err());
    let err = parsed.err().unwrap();
    assert_eq!(err.details, ParserErrorDetails::ZeroLengthInput);
    assert_eq!(err.coords, Some(Coords { absolute: 0, line: 1, column: 0 }));
}

#[test]
fn an_empty_object_is_framed_by_start_and_end_events() {
    let parser = Parser::default();
    let events = parser.parse_str("{}").unwrap();
    assert_eq!(
        matches_of(&events),
        vec![Match::StartOfInput, Match::StartObject, Match::EndObject]
    );
    assert_eq!(
        pointers_of(&events),
        vec![None, Some("".to_string()), Some("".to_string())]
    );
}

#[test]
fn array_elements_carry_their_index_pointers() {
    let parser = Parser::default();
    let events = parser.parse_str("[1, 2.5, true, null, \"x\"]").unwrap();
    assert_eq!(
        matches_of(&events),
        vec![
            Match::StartOfInput,
            Match::StartArray,
            Match::Integer(1),
            Match::Float("2.5".to_string()),
            Match::Boolean(true),
            Match::Null,
            Match::String("x".to_string()),
            Match::EndArray,
        ]
    );
    assert_eq!(
        pointers_of(&events),
        vec![
            Some("".to_string()),
            Some("".to_string()),
            Some("/0".to_string()),
            Some("/1".to_string()),
            Some("/2".to_string()),
            Some("/3".to_string()),
            Some("/4".to_string()),
            Some("".to_string()),
        ]
    );
}

#[test]
fn nested_structures_emit_depth_first_pointers() {
    let parser = Parser::default();
    let events = parser.parse_str("{\"a\": {\"b\": [10]}}").unwrap();
    assert_eq!(
        matches_of(&events),
        vec![
            Match::StartOfInput,
            Match::StartObject,
            Match::ObjectKey("a".to_string()),
            Match::StartObject,
            Match::ObjectKey("b".to_string()),
            Match::StartArray,
            Match::Integer(10),
            Match::EndArray,
            Match::EndObject,
            Match::EndObject,
        ]
    );
    assert_eq!(
        pointers_of(&events),
        vec![
            None,
            Some("".to_string()),
            Some("/a".to_string()),
            Some("/a".to_string()),
            Some("/a/b".to_string()),
            Some("/a/b".to_string()),
            Some("/a/b/0".to_string()),
            Some("/a/b".to_string()),
            Some("/a".to_string()),
            Some("".to_string()),
        ]
    );
}

#[test]
fn keys_containing_separators_are_escaped_in_pointers() {
    let parser = Parser::default();
    let events = parser.parse_str("{\"a/b\":1}").unwrap();
    assert_eq!(events[2].matched, Match::ObjectKey("a/b".to_string()));
    assert_eq!(events[2].pointer, Some("/a~1b".to_string()));
}

#[test]
fn event_spans_are_ordered_and_monotone() {
    let parser = Parser::default();
    let events = parser.parse_str("{\"a\": [1, 2.5], \"b\": null}").unwrap();
    let mut last_start: usize = 0;
    for e in &events {
        assert!(e.span.start.absolute <= e.span.end.absolute);
        assert!(last_start <= e.span.start.absolute);
        last_start = e.span.start.absolute;
    }
}

#[test]
fn an_unterminated_array_fails_at_the_final_coordinate() {
    let parser = Parser::default();
    let err = parser.parse_str("[1, 2,").unwrap_err();
    assert_eq!(err.details, ParserErrorDetails::EndOfInput);
    assert_eq!(err.source, ParserErrorSource::SaxParser);
    assert_eq!(err.coords, Some(Coords { absolute: 6, line: 1, column: 6 }));
}

#[test]
fn a_scalar_root_is_rejected_by_the_emitter() {
    let parser = Parser::default();
    let err = parser.parse_str("\"alone\"").unwrap_err();
    assert_eq!(err.details, ParserErrorDetails::InvalidRootObject);
    assert_eq!(err.source, ParserErrorSource::SaxParser);
}

#[test]
fn empty_bytes_are_zero_length_input() {
    let parser = Parser::default();
    let err = parser.parse_bytes(&[]).unwrap_err();
    assert_eq!(err.details, ParserErrorDetails::ZeroLengthInput);
}

#[test]
fn both_front_ends_agree_on_scalar_matches() {
    let input = "[1, 2.5, true, null, \"x\"]";
    let sax_events = Parser::default().parse_str(input).unwrap();
    let tree = dom::Parser::default().parse_str(input).unwrap();
    let scalars: Vec<Match> = sax_events
        .iter()
        .filter(|e| {
            matches!(
                e.matched,
                Match::Integer(_)
                    | Match::Float(_)
                    | Match::Boolean(_)
                    | Match::Null
                    | Match::String(_)
            )
        })
        .map(|e| e.matched.clone())
        .collect();
    let values = match tree {
        JsonValue::Array(values) => values,
        _ => panic!(),
    };
    assert_eq!(values.len(), scalars.len());
    for (value, matched) in values.iter().zip(scalars.iter()) {
        match (value, matched) {
            (JsonValue::Integer(a), Match::Integer(b)) => assert_eq!(a, b),
            (JsonValue::Float(a), Match::Float(b)) => assert_eq!(a, b),
            (JsonValue::Boolean(a), Match::Boolean(b)) => assert_eq!(a, b),
            (JsonValue::Null, Match::Null) => (),
            (JsonValue::String(a), Match::String(b)) => assert_eq!(a, b),
            _ => panic!("front-ends disagree"),
        }
    }
}

#[test]
fn two_parses_of_one_document_emit_identical_pointers() {
    let input = "{\"a\": {\"b~x\": [1, 2]}, \"c/d\": true}";
    let first = Parser::default().parse_str(input).unwrap();
    let second = Parser::default().parse_str(input).unwrap();
    assert_eq!(pointers_of(&first), pointers_of(&second));
}

#[test]
fn keys_containing_tildes_are_escaped_in_pointers() {
    let parser = Parser::default();
    let events = parser.parse_str("{\"a~b\":1}").unwrap();
    assert_eq!(events[2].matched, Match::ObjectKey("a~b".to_string()));
    assert_eq!(events[2].pointer, Some("/a~0b".to_string()));
}

#[test]
fn failed_parses_keep_the_events_already_emitted() {
    let parser = Parser::default();
    let chars: Vec<char> = "[1, 2,".chars().collect();
    let (events, failure) = parser.parse_partial(&chars);
    assert_eq!(
        matches_of(&events),
        vec![
            Match::StartOfInput,
            Match::StartArray,
            Match::Integer(1),
            Match::Integer(2),
        ]
    );
    let err = failure.unwrap();
    assert_eq!(err.details, ParserErrorDetails::EndOfInput);
}
