use chisel_json::coords::{Coords, Span};
use chisel_json::dom;
use chisel_json::sax;
use chisel_json::decoders::{decode_bytes, Encoding};
use chisel_json::errors::ParserErrorDetails;
use chisel_json::lexer::Token;

#[test]
fn span_length_has_a_floor_of_one() {
    let a = Coords { absolute: 3, line: 1, column: 3 };
    let b = Coords { absolute: 7, line: 1, column: 7 };
    assert_eq!(Span { start: a, end: b }.len(), 4);
    assert_eq!(Span { start: a, end: a }.len(), 1);
    assert_eq!(Span { start: b, end: a }.len(), 4);
}

#[test]
fn span_construction_clamps_backwards_ends() {
    let a = Coords { absolute: 3, line: 1, column: 3 };
    let b = Coords { absolute: 7, line: 1, column: 7 };
    let s = Span::new(b, a);
    assert_eq!(s.end, b);
    let s = Span::new(a, b);
    assert_eq!(s.end, b);
}

#[test]
fn coordinates_advance_over_lines_and_columns() {
    let mut c = Coords::start();
    assert_eq!(c, Coords { absolute: 0, line: 1, column: 0 });
    c.advance(false);
    assert_eq!(c, Coords { absolute: 1, line: 1, column: 1 });
    c.advance(true);
    assert_eq!(c, Coords { absolute: 2, line: 2, column: 0 });
    c.advance_n(3);
    assert_eq!(c, Coords { absolute: 5, line: 2, column: 3 });
}

#[test]
fn ascii_decoding_maps_bytes_to_scalars() {
    let decoded = decode_bytes(b"abc", Encoding::Ascii).unwrap();
    assert_eq!(decoded, vec!['a', 'b', 'c']);
    let err = decode_bytes(&[0x61, 0xff], Encoding::Ascii).unwrap_err();
    assert_eq!(err, ParserErrorDetails::NonUtf8InputDetected);
}

#[test]
fn utf8_decoding_reassembles_multi_byte_scalars() {
    let text = "caf\u{e9}\u{1F600}";
    let decoded = decode_bytes(text.as_bytes(), Encoding::Utf8).unwrap();
    let expected: Vec<char> = text.chars().collect();
    assert_eq!(decoded, expected);
}

#[test]
fn tokens_render_for_diagnostics() {
    assert_eq!(Token::Integer(-12).render(), "Integer(-12)");
    assert_eq!(Token::Float("2.5".to_string()).render(), "Float(2.5)");
    assert_eq!(Token::Str("x".to_string()).render(), "String(\"x\")");
    assert_eq!(Token::Boolean(true).render(), "Boolean(true)");
    assert_eq!(Token::EndOfInput.render(), "EndOfInput");
}

#[test]
fn parsers_remember_their_encoding() {
    let d = dom::Parser::with_encoding(Encoding::Ascii);
    assert_eq!(d.encoding(), Encoding::Ascii);
    let s = sax::Parser::with_encoding(Encoding::Utf8);
    assert_eq!(s.encoding(), Encoding::Utf8);
}
