use chisel_json::coords::Coords;
use chisel_json::errors::{ParserErrorDetails, ParserResult};
use chisel_json::lexer::{Lexer, PackedToken, Token};

fn chars_of(text: &str) -> Vec<char> {
    text.chars().collect()
}

#[test]
fn should_parse_basic_tokens() {
    let chars = chars_of("{}[],:");
    let mut lexer = Lexer::new(&chars);
    let mut tokens: Vec<Token> = vec![];
    for _ in 1..=7 {
        let token = lexer.consume().unwrap();
        tokens.push(token.0);
    }
    assert_eq!(
        tokens,
        [
            Token::StartObject,
            Token::EndObject,
            Token::StartArray,
            Token::EndArray,
            Token::Comma,
            Token::Colon,
            Token::EndOfInput
        ]
    );
}

#[test]
fn should_parse_null_and_booleans() {
    let chars = chars_of("null true    falsetruefalse");
    let mut lexer = Lexer::new(&chars);
    let mut tokens: Vec<Token> = vec![];
    for _ in 1..=6 {
        let token = lexer.consume().unwrap();
        tokens.push(token.0);
    }
    assert_eq!(
        tokens,
        [
            Token::Null,
            Token::Boolean(true),
            Token::Boolean(false),
            Token::Boolean(true),
            Token::Boolean(false),
            Token::EndOfInput
        ]
    );
}

#[test]
fn should_correctly_report_errors_for_booleans() {
    let chars = chars_of("true farse");
    let mut lexer = Lexer::new(&chars);
    let mut results: Vec<ParserResult<PackedToken>> = vec![];
    for _ in 1..=2 {
        results.push(lexer.consume());
    }
    assert!(results[0].is_ok());
    assert!(results[1].is_err());
}

#[test]
fn literal_mismatches_carry_both_spellings() {
    let chars = chars_of("nule");
    let mut lexer = Lexer::new(&chars);
    let err = lexer.consume().unwrap_err();
    assert_eq!(
        err.details,
        ParserErrorDetails::MatchFailed("null".to_string(), "nule".to_string())
    );
}

#[test]
fn integers_and_floats_are_distinguished() {
    let cases: Vec<(&str, Token)> = vec![
        ("123 ", Token::Integer(123)),
        ("-45,", Token::Integer(-45)),
        ("0 ", Token::Integer(0)),
        ("2.5 ", Token::Float("2.5".to_string())),
        ("-0.5 ", Token::Float("-0.5".to_string())),
        ("1e+5 ", Token::Float("1e+5".to_string())),
        ("3.25e-1]", Token::Float("3.25e-1".to_string())),
    ];
    for (text, expected) in cases {
        let chars = chars_of(text);
        let mut lexer = Lexer::new(&chars);
        let token = lexer.consume().unwrap();
        assert_eq!(token.0, expected, "lexing {:?}", text);
    }
}

#[test]
fn every_number_is_a_float_without_mixed_numerics() {
    let chars = chars_of("123 ");
    let mut lexer = Lexer::with_mixed_numerics(&chars, false);
    let token = lexer.consume().unwrap();
    assert_eq!(token.0, Token::Float("123".to_string()));
}

#[test]
fn should_correctly_handle_invalid_numbers() {
    let cases: Vec<(&str, &str)> = vec![
        ("00 ", "00"),
        ("-x", "-x"),
        ("-01 ", "-01"),
        ("1.2.3 ", "1.2."),
        ("1e5 ", "1e5"),
        ("12a", "12a"),
    ];
    for (text, fragment) in cases {
        let chars = chars_of(text);
        let mut lexer = Lexer::new(&chars);
        let err = lexer.consume().unwrap_err();
        assert_eq!(
            err.details,
            ParserErrorDetails::InvalidNumericRepresentation(fragment.to_string()),
            "lexing {:?}",
            text
        );
    }
}

#[test]
fn out_of_range_integers_are_rejected() {
    let chars = chars_of("9223372036854775808 ");
    let mut lexer = Lexer::new(&chars);
    let err = lexer.consume().unwrap_err();
    assert!(matches!(
        err.details,
        ParserErrorDetails::InvalidNumericRepresentation(_)
    ));
    let chars = chars_of("9223372036854775807 ");
    let mut lexer = Lexer::new(&chars);
    let token = lexer.consume().unwrap();
    assert_eq!(token.0, Token::Integer(i64::MAX));
}

#[test]
fn strings_are_stripped_of_quotes_with_escapes_preserved() {
    let chars = chars_of("\"hello\"");
    let mut lexer = Lexer::new(&chars);
    assert_eq!(lexer.consume().unwrap().0, Token::Str("hello".to_string()));

    let chars = chars_of("\"a\\nb\"");
    let mut lexer = Lexer::new(&chars);
    assert_eq!(lexer.consume().unwrap().0, Token::Str("a\\nb".to_string()));

    let chars = chars_of("\"\\u0041\"");
    let mut lexer = Lexer::new(&chars);
    assert_eq!(lexer.consume().unwrap().0, Token::Str("\\u0041".to_string()));
}

#[test]
fn bad_escape_sequences_are_rejected() {
    let chars = chars_of("\"\\q\"");
    let mut lexer = Lexer::new(&chars);
    let err = lexer.consume().unwrap_err();
    assert_eq!(
        err.details,
        ParserErrorDetails::InvalidEscapeSequence("\\q".to_string())
    );

    let chars = chars_of("\"\\uZZZZ\"");
    let mut lexer = Lexer::new(&chars);
    let err = lexer.consume().unwrap_err();
    assert_eq!(
        err.details,
        ParserErrorDetails::InvalidUnicodeEscapeSequence("\\uZZZZ".to_string())
    );
}

#[test]
fn unterminated_strings_fail_with_end_of_input() {
    let chars = chars_of("\"abc");
    let mut lexer = Lexer::new(&chars);
    let err = lexer.consume().unwrap_err();
    assert_eq!(err.details, ParserErrorDetails::EndOfInput);
}

#[test]
fn invalid_characters_are_reported() {
    let chars = chars_of("@");
    let mut lexer = Lexer::new(&chars);
    let err = lexer.consume().unwrap_err();
    assert_eq!(err.details, ParserErrorDetails::InvalidCharacter('@'));
}

#[test]
fn end_of_input_is_idempotent() {
    let chars = chars_of("  ");
    let mut lexer = Lexer::new(&chars);
    let first = lexer.consume().unwrap();
    let second = lexer.consume().unwrap();
    assert_eq!(first.0, Token::EndOfInput);
    assert_eq!(second.0, Token::EndOfInput);
    assert_eq!(first.1, second.1);
}

#[test]
fn coordinates_track_lines_and_columns() {
    let chars = chars_of("{");
    let mut lexer = Lexer::new(&chars);
    let (_token, span) = lexer.consume().unwrap();
    assert_eq!(span.start, Coords { absolute: 1, line: 1, column: 1 });
    assert_eq!(span.end, Coords { absolute: 1, line: 1, column: 1 });

    let chars = chars_of("\n{");
    let mut lexer = Lexer::new(&chars);
    let (_token, span) = lexer.consume().unwrap();
    assert_eq!(span.start, Coords { absolute: 2, line: 2, column: 1 });
}

#[test]
fn token_spans_are_ordered_and_monotone() {
    let chars = chars_of("{\"a\": [1, 2.5]}");
    let mut lexer = Lexer::new(&chars);
    let mut last_start: usize = 0;
    loop {
        let (token, span) = lexer.consume().unwrap();
        assert!(span.start.absolute <= span.end.absolute);
        assert!(last_start <= span.start.absolute);
        last_start = span.start.absolute;
        if token == Token::EndOfInput {
            break;
        }
    }
}

#[test]
fn numbers_keep_their_terminator_for_the_next_token() {
    let chars = chars_of("[1,2]");
    let mut lexer = Lexer::new(&chars);
    assert_eq!(lexer.consume().unwrap().0, Token::StartArray);
    assert_eq!(lexer.consume().unwrap().0, Token::Integer(1));
    assert_eq!(lexer.consume().unwrap().0, Token::Comma);
    assert_eq!(lexer.consume().unwrap().0, Token::Integer(2));
    assert_eq!(lexer.consume().unwrap().0, Token::EndArray);
    assert_eq!(lexer.consume().unwrap().0, Token::EndOfInput);
}

#[test]
fn raw_control_scalars_are_kept_inside_strings() {
    let chars = chars_of("\"a\nb\"");
    let mut lexer = Lexer::new(&chars);
    assert_eq!(lexer.consume().unwrap().0, Token::Str("a\nb".to_string()));
}

#[test]
fn escaped_quotes_do_not_close_strings() {
    let chars = chars_of("\"a\\\"b\"");
    let mut lexer = Lexer::new(&chars);
    assert_eq!(lexer.consume().unwrap().0, Token::Str("a\\\"b".to_string()));
}
