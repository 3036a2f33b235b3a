//! Lexer used by both the DOM and SAX parsers.
//!
//! The lexer consumes a slice of already-decoded Unicode scalars and
//! produces one spanned token per call to [`Lexer::consume`], validating
//! strings, numbers and literals as it goes and tracking precise input
//! coordinates, including over a one-scalar push-back used to return a
//! number's terminator to the input.
use crate::coords::{Coords, Span};
use crate::errors::{ParserError, ParserErrorDetails, ParserErrorSource, ParserResult};
use crate::text::{chars_to_string, i64_to_string, spec_idec};
use vstd::prelude::*;

verus! {

/// Enumeration of valid JSON tokens.
///
/// String payloads carry the scalars between the surrounding quotes, with
/// escape sequences preserved verbatim.  Floating point numbers are carried
/// as their validated textual form; integers are fully converted.
#[derive(Debug, Clone, PartialEq)]
pub enum Token {
    StartObject,
    EndObject,
    StartArray,
    EndArray,
    Colon,
    Comma,
    Str(String),
    Float(String),
    Integer(i64),
    Null,
    Boolean(bool),
    EndOfInput,
}

/// The rendering of a token used within diagnostics.
pub open spec fn spec_render_token(t: Token) -> Seq<char> {
    match t {
        Token::StartObject => "StartObject"@,
        Token::EndObject => "EndObject"@,
        Token::StartArray => "StartArray"@,
        Token::EndArray => "EndArray"@,
        Token::Colon => "Colon"@,
        Token::Comma => "Comma"@,
        Token::Str(s) => "String(\""@ + s@ + "\")"@,
        Token::Float(s) => "Float("@ + s@ + ")"@,
        Token::Integer(n) => "Integer("@ + spec_idec(n as int) + ")"@,
        Token::Null => "Null"@,
        Token::Boolean(b) => if b {
            "Boolean(true)"@
        } else {
            "Boolean(false)"@
        },
        Token::EndOfInput => "EndOfInput"@,
    }
}

impl Token {
    /// Render the token for use within a one-line diagnostic.
    pub fn render(&self) -> (r: String)
        ensures
            r@ == spec_render_token(*self),
    {
        match self {
            Token::StartObject => "StartObject".to_owned(),
            Token::EndObject => "EndObject".to_owned(),
            Token::StartArray => "StartArray".to_owned(),
            Token::EndArray => "EndArray".to_owned(),
            Token::Colon => "Colon".to_owned(),
            Token::Comma => "Comma".to_owned(),
            Token::Str(s) => {
                let mut r = "String(\"".to_owned();
                r.append(s.as_str());
                r.append("\")");
                proof {
                    assert(r@ =~= spec_render_token(*self));
                }
                r
            },
            Token::Float(s) => {
                let mut r = "Float(".to_owned();
                r.append(s.as_str());
                r.append(")");
                proof {
                    assert(r@ =~= spec_render_token(*self));
                }
                r
            },
            Token::Integer(n) => {
                let mut r = "Integer(".to_owned();
                let digits = i64_to_string(*n);
                r.append(digits.as_str());
                r.append(")");
                proof {
                    assert(r@ =~= spec_render_token(*self));
                }
                r
            },
            Token::Null => "Null".to_owned(),
            Token::Boolean(b) => {
                if *b {
                    "Boolean(true)".to_owned()
                } else {
                    "Boolean(false)".to_owned()
                }
            },
            Token::EndOfInput => "EndOfInput".to_owned(),
        }
    }
}

/// A packed token consists of a [`Token`] and the [`Span`] associated with
/// it.
pub type PackedToken = (Token, Span);

/// ASCII whitespace: space, tab, line feed, form feed, carriage return.
pub open spec fn is_ws_char(c: char) -> bool {
    c == ' ' || c == '\t' || c == '\n' || c == '\x0c' || c == '\r'
}

/// Line terminators, for coordinate accounting.
pub open spec fn is_newline_char(c: char) -> bool {
    c == '\n' || c == '\r'
}

/// ASCII decimal digits.
pub open spec fn is_digit_char(c: char) -> bool {
    48 <= c as u32 && c as u32 <= 57
}

/// ASCII decimal digits other than zero.
pub open spec fn is_nonzero_digit_char(c: char) -> bool {
    49 <= c as u32 && c as u32 <= 57
}

/// ASCII hexadecimal digits.
pub open spec fn is_hex_char(c: char) -> bool {
    is_digit_char(c) || (97 <= c as u32 && c as u32 <= 102) || (65 <= c as u32 && c as u32 <= 70)
}

/// The scalars that may follow a backslash in a string, besides `u`.
pub open spec fn is_escape_suffix_char(c: char) -> bool {
    c == 'n' || c == 't' || c == 'r' || c == '\\' || c == '/' || c == 'b' || c == 'f' || c == '"'
}

/// The structural scalars that terminate a number.
pub open spec fn is_numeric_terminator_char(c: char) -> bool {
    c == ',' || c == ']' || c == '}'
}

/// The coordinates after the first `n` scalars of the input have been
/// consumed: a line terminator opens a fresh line, anything else advances
/// the column.
pub open spec fn coords_at(s: Seq<char>, n: int) -> Coords
    decreases n,
{
    if n <= 0 {
        Coords::spec_start()
    } else {
        coords_at(s, n - 1).spec_advance(is_newline_char(s[n - 1]))
    }
}

/// Coordinate sanity: after `n` scalars the absolute position is exactly
/// `n`, and line and column stay within the input's bounds.
pub proof fn lemma_coords_at_bounds(s: Seq<char>, n: int)
    requires
        0 <= n <= s.len(),
        s.len() < usize::MAX,
    ensures
        coords_at(s, n).absolute == n,
        coords_at(s, n).line <= n + 1,
        coords_at(s, n).column <= n,
    decreases n,
{
    if n > 0 {
        lemma_coords_at_bounds(s, n - 1);
    }
}

/// The index of the first scalar at or after `i` that is not ASCII
/// whitespace, or the input's length if only whitespace remains.
pub open spec fn next_non_ws(s: Seq<char>, i: int) -> int
    decreases s.len() - i,
    when 0 <= i <= s.len()
{
    if i >= s.len() {
        s.len() as int
    } else if is_ws_char(s[i]) {
        next_non_ws(s, i + 1)
    } else {
        i
    }
}

/// In a well-formed lexer the current absolute position equals the number
/// of scalars consumed.
pub proof fn lemma_abs_is_pos(l: Lexer)
    requires
        l.wf(),
    ensures
        l.cur_coords().absolute == l.position(),
{
    lemma_coords_at_bounds(l.input(), l.position());
}

/// Whitespace skipping never moves backwards and never leaves the input.
pub proof fn lemma_next_non_ws_bounds(s: Seq<char>, i: int)
    requires
        0 <= i <= s.len(),
    ensures
        i <= next_non_ws(s, i) <= s.len(),
    decreases s.len() - i,
{
    if i < s.len() && is_ws_char(s[i]) {
        lemma_next_non_ws_bounds(s, i + 1);
    }
}

/// The mathematical image of a token.
pub enum TokModel {
    StartObject,
    EndObject,
    StartArray,
    EndArray,
    Colon,
    Comma,
    Str(Seq<char>),
    Float(Seq<char>),
    Integer(int),
    Null,
    Boolean(bool),
    EndOfInput,
}

/// The abstraction of an executable token.
pub open spec fn token_model(t: Token) -> TokModel {
    match t {
        Token::StartObject => TokModel::StartObject,
        Token::EndObject => TokModel::EndObject,
        Token::StartArray => TokModel::StartArray,
        Token::EndArray => TokModel::EndArray,
        Token::Colon => TokModel::Colon,
        Token::Comma => TokModel::Comma,
        Token::Str(s) => TokModel::Str(s@),
        Token::Float(s) => TokModel::Float(s@),
        Token::Integer(n) => TokModel::Integer(n as int),
        Token::Null => TokModel::Null,
        Token::Boolean(b) => TokModel::Boolean(b),
        Token::EndOfInput => TokModel::EndOfInput,
    }
}

/// The mathematical image of a lexical error.
pub enum LexErrModel {
    EndOfInput,
    InvalidCharacter(char),
    MatchFailed(Seq<char>, Seq<char>),
    InvalidNumericRepresentation(Seq<char>),
    InvalidEscapeSequence(Seq<char>),
    InvalidUnicodeEscapeSequence(Seq<char>),
}

/// Whether an executable error detail is the image of a lexical error
/// model.
pub open spec fn details_match(d: ParserErrorDetails, m: LexErrModel) -> bool {
    match m {
        LexErrModel::EndOfInput => d == ParserErrorDetails::EndOfInput,
        LexErrModel::InvalidCharacter(c) => d == ParserErrorDetails::InvalidCharacter(c),
        LexErrModel::MatchFailed(exp, got) => (d matches ParserErrorDetails::MatchFailed(a, b)
            && a@ == exp && b@ == got),
        LexErrModel::InvalidNumericRepresentation(f) => (d
            matches ParserErrorDetails::InvalidNumericRepresentation(a) && a@ == f),
        LexErrModel::InvalidEscapeSequence(f) => (d
            matches ParserErrorDetails::InvalidEscapeSequence(a) && a@ == f),
        LexErrModel::InvalidUnicodeEscapeSequence(f) => (d
            matches ParserErrorDetails::InvalidUnicodeEscapeSequence(a) && a@ == f),
    }
}

/// The complete outcome of one lexing step: either a token with the indices
/// that delimit its span and the next read position, or an error with the
/// index at which it is reported.
pub enum LexStep {
    /// A token was produced
    Tok { token: TokModel, start: int, end: int, next: int },
    /// Lexing failed
    Fail { err: LexErrModel, at: int },
}

/// The result of scanning a string body from an index just inside the
/// opening quote.
pub enum StrScan {
    /// The closing quote sits at this index
    Closed { close: int },
    /// An invalid escape suffix; the fragment runs to this index
    BadEscape { end: int },
    /// A malformed `\uXXXX` sequence; the fragment runs to this index
    BadUnicode { end: int },
    /// The input ended inside the string
    Eof,
}

/// Whether the four scalars starting at `a` are all hexadecimal digits.
pub open spec fn four_hex(s: Seq<char>, a: int) -> bool {
    forall|k: int| a <= k < a + 4 ==> is_hex_char(s[k])
}

/// Scan a string body: scalars are accepted until an unescaped quote; a
/// backslash must be followed by a valid escape suffix, and `\u` by exactly
/// four hexadecimal digits.
pub open spec fn str_scan(s: Seq<char>, j: int) -> StrScan
    decreases s.len() - j,
    when 0 <= j <= s.len()
{
    if j >= s.len() {
        StrScan::Eof
    } else if s[j] == '"' {
        StrScan::Closed { close: j }
    } else if s[j] == '\\' {
        if j + 1 >= s.len() {
            StrScan::Eof
        } else if is_escape_suffix_char(s[j + 1]) {
            str_scan(s, j + 2)
        } else if s[j + 1] == 'u' {
            if j + 6 > s.len() {
                StrScan::Eof
            } else if four_hex(s, j + 2) {
                str_scan(s, j + 6)
            } else {
                StrScan::BadUnicode { end: j + 6 }
            }
        } else {
            StrScan::BadEscape { end: j + 2 }
        }
    } else {
        str_scan(s, j + 1)
    }
}

/// The result of validating a number's prefix.
pub enum NumPrefix {
    /// The prefix is valid; scanning continues at `p`, with `dec` recording
    /// whether a decimal point has been consumed
    Cont { p: int, dec: bool },
    /// The prefix is invalid; the fragment runs to this index
    Bad { end: int },
    /// The input ended inside the prefix
    Eof,
}

/// Validate a number's prefix at its first scalar: a leading minus must be
/// followed by a digit, `-0` must be followed by a decimal point, and a
/// leading zero must not be followed by another digit.
pub open spec fn num_prefix(s: Seq<char>, i0: int) -> NumPrefix {
    if s[i0] == '-' {
        if i0 + 1 >= s.len() {
            NumPrefix::Eof
        } else if is_nonzero_digit_char(s[i0 + 1]) {
            NumPrefix::Cont { p: i0 + 2, dec: false }
        } else if s[i0 + 1] == '0' {
            if i0 + 2 >= s.len() {
                NumPrefix::Eof
            } else if s[i0 + 2] == '.' {
                NumPrefix::Cont { p: i0 + 3, dec: true }
            } else {
                NumPrefix::Bad { end: i0 + 3 }
            }
        } else {
            NumPrefix::Bad { end: i0 + 2 }
        }
    } else if s[i0] == '0' {
        if i0 + 1 >= s.len() {
            NumPrefix::Eof
        } else if s[i0 + 1] == '.' {
            NumPrefix::Cont { p: i0 + 2, dec: true }
        } else if is_digit_char(s[i0 + 1]) {
            NumPrefix::Bad { end: i0 + 2 }
        } else {
            NumPrefix::Cont { p: i0 + 1, dec: false }
        }
    } else {
        NumPrefix::Cont { p: i0 + 1, dec: false }
    }
}

/// The result of scanning a number's body.
pub enum NumScan {
    /// The number's scalars run to just before `end`, where a terminator or
    /// whitespace scalar sits; `dec` and `exp` record whether a decimal
    /// point or an exponent was consumed
    Done { end: int, dec: bool, exp: bool },
    /// The body is invalid; the fragment runs to this index
    Bad { end: int },
    /// The input ended inside the number
    Eof,
}

/// Scan a number's body: digits freely, at most one decimal point, at most
/// one exponent which must be followed by an explicit sign; a structural
/// terminator or whitespace ends the number, anything else is invalid.
pub open spec fn num_scan(s: Seq<char>, p: int, dec: bool, exp: bool) -> NumScan
    decreases s.len() - p,
    when 0 <= p <= s.len()
{
    if p >= s.len() {
        NumScan::Eof
    } else if is_digit_char(s[p]) {
        num_scan(s, p + 1, dec, exp)
    } else if s[p] == 'e' || s[p] == 'E' {
        if exp {
            NumScan::Bad { end: p + 1 }
        } else if p + 1 >= s.len() {
            NumScan::Eof
        } else if s[p + 1] == '+' || s[p + 1] == '-' {
            num_scan(s, p + 2, dec, true)
        } else {
            NumScan::Bad { end: p + 2 }
        }
    } else if s[p] == '.' {
        if dec {
            NumScan::Bad { end: p + 1 }
        } else {
            num_scan(s, p + 1, true, exp)
        }
    } else if is_numeric_terminator_char(s[p]) || is_ws_char(s[p]) {
        NumScan::Done { end: p, dec, exp }
    } else {
        NumScan::Bad { end: p + 1 }
    }
}

/// The value of a sequence of decimal digit scalars.
pub open spec fn dec_seq_value(digits: Seq<char>) -> int
    decreases digits.len(),
{
    if digits.len() == 0 {
        0
    } else {
        dec_seq_value(digits.drop_last()) * 10 + (digits.last() as u32 - 48)
    }
}

/// The value of a number's textual form: an optional leading minus ahead of
/// decimal digits.
pub open spec fn dec_text_value(t: Seq<char>) -> int {
    if t.len() > 0 && t[0] == '-' {
        -dec_seq_value(t.skip(1))
    } else {
        dec_seq_value(t)
    }
}

/// The shape of an integer lexeme: decimal digits with at most a leading
/// minus, which must be followed by at least one digit.
pub open spec fn is_int_text(t: Seq<char>) -> bool {
    &&& t.len() > 0
    &&& if t[0] == '-' {
        t.len() >= 2 && (forall|k: int| 1 <= k < t.len() ==> is_digit_char(t[k]))
    } else {
        forall|k: int| 0 <= k < t.len() ==> is_digit_char(t[k])
    }
}

/// Whether a value fits a signed 64-bit integer.
pub open spec fn in_i64_range(v: int) -> bool {
    i64::MIN as int <= v <= i64::MAX as int
}

/// The complete outcome of lexing a number whose first scalar sits at
/// `i0`: validate the prefix, scan the body, then classify the textual form
/// as an integer (no decimal point, no exponent, and mixed numerics
/// enabled) or a float.  Integer forms whose value does not fit a signed
/// 64-bit integer are rejected.
pub open spec fn num_step(s: Seq<char>, i0: int, mixed: bool) -> LexStep {
    match num_prefix(s, i0) {
        NumPrefix::Eof => LexStep::Fail { err: LexErrModel::EndOfInput, at: s.len() as int },
        NumPrefix::Bad { end } => LexStep::Fail {
            err: LexErrModel::InvalidNumericRepresentation(s.subrange(i0, end)),
            at: end,
        },
        NumPrefix::Cont { p, dec } => match num_scan(s, p, dec, false) {
            NumScan::Eof => LexStep::Fail { err: LexErrModel::EndOfInput, at: s.len() as int },
            NumScan::Bad { end } => LexStep::Fail {
                err: LexErrModel::InvalidNumericRepresentation(s.subrange(i0, end)),
                at: end,
            },
            NumScan::Done { end, dec: d2, exp: e2 } => {
                let text = s.subrange(i0, end);
                if mixed && !d2 && !e2 {
                    if in_i64_range(dec_text_value(text)) {
                        LexStep::Tok {
                            token: TokModel::Integer(dec_text_value(text)),
                            start: i0 + 1,
                            end,
                            next: end,
                        }
                    } else {
                        LexStep::Fail {
                            err: LexErrModel::InvalidNumericRepresentation(text),
                            at: end,
                        }
                    }
                } else {
                    LexStep::Tok { token: TokModel::Float(text), start: i0 + 1, end, next: end }
                }
            },
        },
    }
}

/// The complete outcome of lexing a string whose opening quote sits at
/// `i0`: the token's text is everything between the quotes, escape
/// sequences preserved verbatim.
pub open spec fn str_step(s: Seq<char>, i0: int) -> LexStep {
    match str_scan(s, i0 + 1) {
        StrScan::Closed { close } => LexStep::Tok {
            token: TokModel::Str(s.subrange(i0 + 1, close)),
            start: i0 + 1,
            end: close + 1,
            next: close + 1,
        },
        StrScan::BadEscape { end } => LexStep::Fail {
            err: LexErrModel::InvalidEscapeSequence(s.subrange(i0 + 1, end)),
            at: end,
        },
        StrScan::BadUnicode { end } => LexStep::Fail {
            err: LexErrModel::InvalidUnicodeEscapeSequence(s.subrange(i0 + 1, end)),
            at: end,
        },
        StrScan::Eof => LexStep::Fail { err: LexErrModel::EndOfInput, at: s.len() as int },
    }
}

/// The complete outcome of lexing a literal whose expected spelling is
/// `pattern`, starting at `i0`.
pub open spec fn lit_step(s: Seq<char>, i0: int, pattern: Seq<char>, token: TokModel) -> LexStep {
    if i0 + pattern.len() > s.len() {
        LexStep::Fail { err: LexErrModel::EndOfInput, at: s.len() as int }
    } else if s.subrange(i0, i0 + pattern.len()) == pattern {
        LexStep::Tok { token, start: i0 + 1, end: i0 + pattern.len(), next: i0 + pattern.len() }
    } else {
        LexStep::Fail {
            err: LexErrModel::MatchFailed(pattern, s.subrange(i0, i0 + pattern.len())),
            at: i0 + 1,
        }
    }
}

/// The expected spelling of the `null` literal.
pub open spec fn null_pattern() -> Seq<char> {
    seq!['n', 'u', 'l', 'l']
}

/// The expected spelling of the `true` literal.
pub open spec fn true_pattern() -> Seq<char> {
    seq!['t', 'r', 'u', 'e']
}

/// The expected spelling of the `false` literal.
pub open spec fn false_pattern() -> Seq<char> {
    seq!['f', 'a', 'l', 's', 'e']
}

/// The complete outcome of one lexing step from read position `pos`:
/// whitespace is skipped, then the first scalar selects a structural
/// token, a string, a literal, a number, the end-of-input token, or an
/// invalid-character error.
pub open spec fn spec_consume(s: Seq<char>, pos: int, mixed: bool) -> LexStep {
    let i = next_non_ws(s, pos);
    if i >= s.len() {
        LexStep::Tok {
            token: TokModel::EndOfInput,
            start: s.len() as int,
            end: s.len() as int,
            next: s.len() as int,
        }
    } else if s[i] == '{' {
        LexStep::Tok { token: TokModel::StartObject, start: i + 1, end: i + 1, next: i + 1 }
    } else if s[i] == '}' {
        LexStep::Tok { token: TokModel::EndObject, start: i + 1, end: i + 1, next: i + 1 }
    } else if s[i] == '[' {
        LexStep::Tok { token: TokModel::StartArray, start: i + 1, end: i + 1, next: i + 1 }
    } else if s[i] == ']' {
        LexStep::Tok { token: TokModel::EndArray, start: i + 1, end: i + 1, next: i + 1 }
    } else if s[i] == ':' {
        LexStep::Tok { token: TokModel::Colon, start: i + 1, end: i + 1, next: i + 1 }
    } else if s[i] == ',' {
        LexStep::Tok { token: TokModel::Comma, start: i + 1, end: i + 1, next: i + 1 }
    } else if s[i] == '"' {
        str_step(s, i)
    } else if s[i] == 'n' {
        lit_step(s, i, null_pattern(), TokModel::Null)
    } else if s[i] == 't' {
        lit_step(s, i, true_pattern(), TokModel::Boolean(true))
    } else if s[i] == 'f' {
        lit_step(s, i, false_pattern(), TokModel::Boolean(false))
    } else if s[i] == '-' || is_digit_char(s[i]) {
        num_step(s, i, mixed)
    } else {
        LexStep::Fail { err: LexErrModel::InvalidCharacter(s[i]), at: i + 1 }
    }
}

/// Whether an executable lexing result is the image of a lexing step
/// outcome over the given input.
pub open spec fn step_matches(r: ParserResult<PackedToken>, s: Seq<char>, st: LexStep) -> bool {
    match st {
        LexStep::Tok { token, start, end, next } => (r matches Ok((t, sp)) && token_model(t)
            == token && sp.start == coords_at(s, start) && sp.end == coords_at(s, end)),
        LexStep::Fail { err, at } => (r matches Err(e) && e.source == ParserErrorSource::Lexer
            && details_match(e.details, err) && e.coords == Some(coords_at(s, at))),
    }
}

/// What a number-body scan guarantees when it ends at a terminator: the
/// flags only ever get set, a purely integral body consists of digits
/// alone, and a set flag pinpoints a decimal point or exponent scalar in
/// the consumed body.
pub proof fn lemma_num_scan_done(s: Seq<char>, p: int, dec: bool, exp: bool)
    requires
        0 <= p <= s.len(),
    ensures
        match num_scan(s, p, dec, exp) {
            NumScan::Done { end, dec: d2, exp: e2 } => {
                &&& p <= end <= s.len()
                &&& (dec ==> d2)
                &&& (exp ==> e2)
                &&& (!d2 && !e2 ==> forall|k: int| p <= k < end ==> is_digit_char(s[k]))
                &&& (d2 && !dec ==> exists|k: int| p <= k < end && s[k] == '.')
                &&& (e2 && !exp ==> exists|k: int| p <= k < end && (s[k] == 'e' || s[k] == 'E'))
            },
            _ => true,
        },
    decreases s.len() - p,
{
    if p >= s.len() {
    } else if is_digit_char(s[p]) {
        lemma_num_scan_done(s, p + 1, dec, exp);
    } else if s[p] == 'e' || s[p] == 'E' {
        if !exp && p + 1 < s.len() && (s[p + 1] == '+' || s[p + 1] == '-') {
            lemma_num_scan_done(s, p + 2, dec, true);
        }
    } else if s[p] == '.' {
        if !dec {
            lemma_num_scan_done(s, p + 1, true, exp);
        }
    }
}

/// Consuming a token at the very end of the input always yields the
/// end-of-input token, and leaves the read position where it was: further
/// reads keep yielding end-of-input without consuming anything.
pub proof fn lemma_end_of_input_idempotent(s: Seq<char>, mixed: bool)
    ensures
        spec_consume(s, s.len() as int, mixed) == (LexStep::Tok {
            token: TokModel::EndOfInput,
            start: s.len() as int,
            end: s.len() as int,
            next: s.len() as int,
        }),
{
}

/// No decimal point and no exponent marker anywhere in a region of the
/// input.
pub open spec fn no_float_marks(s: Seq<char>, a: int, b: int) -> bool {
    forall|k: int| a <= k < b ==> (s[k] != '.' && s[k] != 'e' && s[k] != 'E')
}

/// A decimal point or an exponent marker somewhere in a region of the
/// input.
pub open spec fn has_float_mark(s: Seq<char>, a: int, b: int) -> bool {
    exists|k: int| a <= k < b && (s[k] == '.' || s[k] == 'e' || s[k] == 'E')
}

/// Number classification: a number produced as an integer arises only with
/// mixed numerics enabled and its textual form holds neither a decimal
/// point nor an exponent, while a number produced as a float either has
/// mixed numerics disabled or contains a decimal point or an exponent.
pub proof fn lemma_number_classification(s: Seq<char>, pos: int, mixed: bool)
    requires
        0 <= pos <= s.len(),
    ensures
        (spec_consume(s, pos, mixed) matches LexStep::Tok {
            token: TokModel::Integer(v),
            start,
            end,
            ..
        } ==> (mixed && no_float_marks(s, start - 1, end))),
        (spec_consume(s, pos, mixed) matches LexStep::Tok {
            token: TokModel::Float(text),
            start,
            end,
            ..
        } ==> (!mixed || has_float_mark(s, start - 1, end))),
{
    let i = next_non_ws(s, pos);
    lemma_next_non_ws_bounds(s, pos);
    if i < s.len() && (s[i] == '-' || is_digit_char(s[i])) && !(s[i] == '{' || s[i] == '}' || s[i]
        == '[' || s[i] == ']' || s[i] == ':' || s[i] == ',' || s[i] == '"' || s[i] == 'n' || s[i]
        == 't' || s[i] == 'f') {
        match num_prefix(s, i) {
            NumPrefix::Cont { p, dec } => {
                lemma_num_scan_done(s, p, dec, false);
                match num_scan(s, p, dec, false) {
                    NumScan::Done { end, dec: d2, exp: e2 } => {
                        if mixed && !d2 && !e2 {
                            assert forall|k: int| i <= k < end implies (s[k] != '.' && s[k] != 'e'
                                && s[k] != 'E') by {
                                if p <= k {
                                    assert(is_digit_char(s[k]));
                                } else if s[i] == '-' {
                                    assert(k == i || k == i + 1);
                                    assert(is_nonzero_digit_char(s[i + 1]));
                                } else {
                                    assert(k == i);
                                    assert(is_digit_char(s[i]));
                                }
                            }
                        } else if mixed {
                            if d2 && !dec {
                            } else if d2 && dec {
                                if s[i] == '-' {
                                    assert(s[i + 2] == '.');
                                } else {
                                    assert(s[i + 1] == '.');
                                }
                            } else {
                                assert(e2 && !false);
                            }
                        }
                    },
                    _ => {},
                }
            },
            _ => {},
        }
    }
}

/// A string-body scan stays within the input: a closing quote lies inside
/// it, and an error fragment ends no later than its end.
pub proof fn lemma_str_scan_bounds(s: Seq<char>, j: int)
    requires
        0 <= j <= s.len(),
    ensures
        match str_scan(s, j) {
            StrScan::Closed { close } => j <= close < s.len(),
            StrScan::BadEscape { end } => j < end <= s.len(),
            StrScan::BadUnicode { end } => j < end <= s.len(),
            StrScan::Eof => true,
        },
    decreases s.len() - j,
{
    if j < s.len() {
        if s[j] == '"' {
        } else if s[j] == '\\' {
            if j + 1 < s.len() {
                if is_escape_suffix_char(s[j + 1]) {
                    lemma_str_scan_bounds(s, j + 2);
                } else if s[j + 1] == 'u' && j + 6 <= s.len() && four_hex(s, j + 2) {
                    lemma_str_scan_bounds(s, j + 6);
                }
            }
        } else {
            lemma_str_scan_bounds(s, j + 1);
        }
    }
}

/// One lexing step stays within the input and makes progress: any token but
/// end-of-input advances the read position, and the end-of-input token sits
/// exactly at the input's end.
pub proof fn lemma_spec_consume_bounds(s: Seq<char>, pos: int, mixed: bool)
    requires
        0 <= pos <= s.len(),
    ensures
        match spec_consume(s, pos, mixed) {
            LexStep::Tok { token, start, end, next } => {
                &&& pos <= next <= s.len()
                &&& (!(token is EndOfInput) ==> pos < next)
                &&& (token is EndOfInput ==> next == s.len())
            },
            LexStep::Fail { .. } => true,
        },
{
    lemma_next_non_ws_bounds(s, pos);
    let i = next_non_ws(s, pos);
    if i < s.len() {
        let c = s[i];
        if c == '{' || c == '}' || c == '[' || c == ']' || c == ':' || c == ',' {
        } else if c == '"' {
            lemma_str_scan_bounds(s, i + 1);
        } else if c == 'n' || c == 't' || c == 'f' {
        } else if c == '-' || is_digit_char(c) {
            match num_prefix(s, i) {
                NumPrefix::Cont { p, dec } => {
                    lemma_num_scan_done(s, p, dec, false);
                },
                _ => {},
            }
        } else {
        }
    }
}

/// Relies on `lexical::parse::<i64>`: a complete decimal integer parser
/// that returns the represented value, and an error for values outside the
/// signed 64-bit range.
#[verifier::external_body]
fn parse_i64_text(digits: &Vec<char>) -> (r: Option<i64>)
    requires
        is_int_text(digits@),
    ensures
        r matches Some(v) ==> v as int == dec_text_value(digits@),
        r is None ==> !in_i64_range(dec_text_value(digits@)),
{
    let bytes: Vec<u8> = digits.iter().map(|c| *c as u8).collect();
    lexical::parse::<i64, _>(&bytes).ok()
}

/// ASCII whitespace, executably.
fn is_ws(c: char) -> (r: bool)
    ensures
        r == is_ws_char(c),
{
    c == ' ' || c == '\t' || c == '\n' || c == '\x0c' || c == '\r'
}

/// Line terminators, executably.
fn is_newline(c: char) -> (r: bool)
    ensures
        r == is_newline_char(c),
{
    c == '\n' || c == '\r'
}

/// ASCII decimal digits, executably.
fn is_digit(c: char) -> (r: bool)
    ensures
        r == is_digit_char(c),
{
    let u = c as u32;
    48 <= u && u <= 57
}

/// Non-zero ASCII decimal digits, executably.
fn is_nonzero_digit(c: char) -> (r: bool)
    ensures
        r == is_nonzero_digit_char(c),
{
    let u = c as u32;
    49 <= u && u <= 57
}

/// ASCII hexadecimal digits, executably.
fn is_hex(c: char) -> (r: bool)
    ensures
        r == is_hex_char(c),
{
    let u = c as u32;
    (48 <= u && u <= 57) || (97 <= u && u <= 102) || (65 <= u && u <= 70)
}

/// Valid non-unicode escape suffixes, executably.
fn is_escape_suffix(c: char) -> (r: bool)
    ensures
        r == is_escape_suffix_char(c),
{
    c == 'n' || c == 't' || c == 'r' || c == '\\' || c == '/' || c == 'b' || c == 'f' || c == '"'
}

/// Structural number terminators, executably.
fn is_terminator(c: char) -> (r: bool)
    ensures
        r == is_numeric_terminator_char(c),
{
    c == ',' || c == ']' || c == '}'
}

/// The lexer: a cursor over a slice of decoded scalars, with a scratch
/// buffer for the lexeme in progress and precise coordinate tracking.
pub struct Lexer<'a> {
    /// The decoded input scalars
    chars: &'a [char],
    /// The next read position
    pos: usize,
    /// Scratch buffer holding the lexeme in progress
    buffer: Vec<char>,
    /// Current input coordinates
    coords: Coords,
    /// The coordinates before the most recently consumed scalar, used to
    /// restore the state on push-back
    prev_coords: Coords,
    /// Whether integers are distinguished from floats
    mixed_numerics: bool,
}

impl<'a> Lexer<'a> {
    /// The input scalars.
    pub closed spec fn input(self) -> Seq<char> {
        self.chars@
    }

    /// The current read position.
    pub closed spec fn position(self) -> int {
        self.pos as int
    }

    /// The current input coordinates.
    pub closed spec fn cur_coords(self) -> Coords {
        self.coords
    }

    /// Whether integers are distinguished from floats.
    pub closed spec fn mixed(self) -> bool {
        self.mixed_numerics
    }

    /// The scratch buffer's contents: the most recent lexeme.
    pub closed spec fn lexeme(self) -> Seq<char> {
        self.buffer@
    }

    /// The coordinates before the most recently consumed scalar.
    pub closed spec fn prev_c(self) -> Coords {
        self.prev_coords
    }

    /// Well-formedness: the read position sits within the input and the
    /// tracked coordinates agree with it.
    pub open spec fn wf(self) -> bool {
        &&& 0 <= self.position() <= self.input().len()
        &&& self.input().len() < usize::MAX
        &&& self.cur_coords() == coords_at(self.input(), self.position())
    }

    /// Construct a lexer over a slice of decoded scalars, with mixed
    /// numerics enabled: integers are distinguished from floats.
    pub fn new(chars: &'a [char]) -> (r: Lexer<'a>)
        requires
            chars@.len() < usize::MAX,
        ensures
            r.wf(),
            r.input() == chars@,
            r.position() == 0,
            r.mixed(),
    {
        Lexer {
            chars,
            pos: 0,
            buffer: Vec::new(),
            coords: Coords::start(),
            prev_coords: Coords::start(),
            mixed_numerics: true,
        }
    }

    /// Construct a lexer, choosing whether integers are distinguished from
    /// floats; with mixed numerics disabled every number is produced as a
    /// float.
    pub fn with_mixed_numerics(chars: &'a [char], mixed_numerics: bool) -> (r: Lexer<'a>)
        requires
            chars@.len() < usize::MAX,
        ensures
            r.wf(),
            r.input() == chars@,
            r.position() == 0,
            r.mixed() == mixed_numerics,
    {
        Lexer {
            chars,
            pos: 0,
            buffer: Vec::new(),
            coords: Coords::start(),
            prev_coords: Coords::start(),
            mixed_numerics,
        }
    }

    /// Reset the scratch buffer ahead of the next lexeme.
    fn reset(&mut self)
        ensures
            final(self).input() == old(self).input(),
            final(self).position() == old(self).position(),
            final(self).cur_coords() == old(self).cur_coords(),
            final(self).mixed() == old(self).mixed(),
            final(self).prev_c() == old(self).prev_c(),
            final(self).lexeme() == Seq::<char>::empty(),
    {
        self.buffer.clear();
    }

    /// Convert the contents of the scratch buffer into an owned string.
    fn buffer_to_string(&self) -> (r: String)
        ensures
            r@ == self.lexeme(),
    {
        chars_to_string(&self.buffer)
    }

    /// Consume one scalar (optionally skipping whitespace first), pushing
    /// the consumed scalar onto the scratch buffer and keeping the
    /// coordinates in step.  Returns false when the input runs out first.
    #[verifier::loop_isolation(false)]
    fn advance(&mut self, skip_whitespace: bool) -> (r: bool)
        requires
            old(self).wf(),
        ensures
            final(self).wf(),
            final(self).input() == old(self).input(),
            final(self).mixed() == old(self).mixed(),
            old(self).position() <= final(self).position(),
            skip_whitespace ==> ({
                let t = next_non_ws(old(self).input(), old(self).position());
                if t < old(self).input().len() {
                    r && final(self).position() == t + 1 && final(self).lexeme() == old(self).lexeme().push(
                        old(self).input()[t],
                    )
                } else {
                    !r && final(self).position() == old(self).input().len() && final(self).lexeme() == old(self).lexeme()
                }
            }),
            !skip_whitespace ==> ({
                if old(self).position() < old(self).input().len() {
                    r && final(self).position() == old(self).position() + 1 && final(self).lexeme() == old(self).lexeme().push(old(self).input()[old(self).position()])
                } else {
                    !r && final(self).position() == old(self).position() && final(self).lexeme() == old(self).lexeme()
                }
            }),
            r ==> final(self).position() >= 1 && final(self).prev_c() == coords_at(
                final(self).input(),
                final(self).position() - 1,
            ),
    {
        let ghost s = self.chars@;
        let ghost p0 = self.pos as int;
        loop
            invariant
                self.chars == old(self).chars,
                self.mixed_numerics == old(self).mixed_numerics,
                self.buffer@ == old(self).buffer@,
                p0 <= self.pos as int <= s.len(),
                self.coords == coords_at(s, self.pos as int),
                skip_whitespace ==> next_non_ws(s, p0) == next_non_ws(s, self.pos as int),
                !skip_whitespace ==> self.pos as int == p0,
            decreases s.len() - self.pos,
        {
            if self.pos >= self.chars.len() {
                return false;
            }
            let c = self.chars[self.pos];
            proof {
                lemma_coords_at_bounds(s, self.pos as int);
            }
            self.prev_coords = self.coords;
            let nl = is_newline(c);
            self.coords.advance(nl);
            self.pos = self.pos + 1;
            if skip_whitespace && is_ws(c) {
            } else {
                self.buffer.push(c);
                return true;
            }
        }
    }

    /// Consume `n` scalars without skipping whitespace.  Returns false when
    /// the input runs out first.
    #[verifier::loop_isolation(false)]
    fn advance_n(&mut self, n: usize) -> (r: bool)
        requires
            old(self).wf(),
        ensures
            final(self).wf(),
            final(self).input() == old(self).input(),
            final(self).mixed() == old(self).mixed(),
            old(self).position() <= final(self).position(),
            old(self).position() + n <= old(self).input().len() ==> (r && final(self).position() == old(self).position() + n && final(self).lexeme() == old(self).lexeme() + old(self).input().subrange(
                old(self).position(),
                old(self).position() + n,
            )),
            old(self).position() + n > old(self).input().len() ==> (!r && final(self).position() == old(self).input().len()),
            (r && n >= 1) ==> final(self).position() >= 1 && final(self).prev_c() == coords_at(
                final(self).input(),
                final(self).position() - 1,
            ),
    {
        let ghost s = self.chars@;
        let ghost p0 = self.pos as int;
        let mut i: usize = 0;
        while i < n
            invariant
                self.chars == old(self).chars,
                self.mixed_numerics == old(self).mixed_numerics,
                i <= n,
                p0 + i == self.pos as int,
                self.pos as int <= s.len(),
                self.coords == coords_at(s, self.pos as int),
                self.buffer@ == old(self).buffer@ + s.subrange(p0, p0 + i),
                i >= 1 ==> self.pos as int >= 1 && self.prev_coords == coords_at(
                    s,
                    self.pos as int - 1,
                ),
            decreases n - i,
        {
            if !self.advance(false) {
                return false;
            }
            i = i + 1;
            proof {
                assert(self.buffer@ =~= old(self).buffer@ + s.subrange(p0, p0 + i as int));
            }
        }
        proof {
            assert(self.buffer@ =~= old(self).buffer@ + s.subrange(p0, p0 + n as int));
        }
        true
    }

    /// Transfer the last scalar in the buffer back to the input, restoring
    /// the coordinates that preceded it.
    fn pushback(&mut self)
        requires
            old(self).wf(),
            old(self).position() >= 1,
            old(self).lexeme().len() >= 1,
            old(self).prev_c() == coords_at(old(self).input(), old(self).position() - 1),
        ensures
            final(self).wf(),
            final(self).input() == old(self).input(),
            final(self).mixed() == old(self).mixed(),
            final(self).position() == old(self).position() - 1,
            final(self).lexeme() == old(self).lexeme().drop_last(),
    {
        self.pos = self.pos - 1;
        self.coords = self.prev_coords;
        let _ = self.buffer.pop();
    }

    /// Build a lexer-stage error at the given coordinates.
    fn fail(&self, details: ParserErrorDetails) -> (r: ParserError)
        ensures
            r.source == ParserErrorSource::Lexer,
            r.details == details,
            r.coords == Some(self.cur_coords()),
    {
        ParserError {
            source: ParserErrorSource::Lexer,
            details,
            coords: Some(self.coords),
        }
    }

    /// Match on a valid JSON string, whose opening quote has just been
    /// consumed.  The token's text is everything between the quotes, escape
    /// sequences preserved verbatim.
    #[verifier::loop_isolation(false)]
    #[verifier::rlimit(100)]
    fn match_string(&mut self) -> (r: ParserResult<PackedToken>)
        requires
            old(self).wf(),
            old(self).position() >= 1,
            old(self).input()[old(self).position() - 1] == '"',
        ensures
            final(self).wf(),
            final(self).input() == old(self).input(),
            final(self).mixed() == old(self).mixed(),
            old(self).position() <= final(self).position(),
            step_matches(r, old(self).input(), str_step(old(self).input(), old(self).position() - 1)),
            (str_step(old(self).input(), old(self).position() - 1) matches LexStep::Tok {
                next,
                ..
            } ==> final(self).position() == next),
            r matches Ok((t, sp)) ==> (old(self).cur_coords().absolute <= sp.start.absolute
                && sp.start.absolute <= sp.end.absolute && sp.end.absolute == final(self).cur_coords().absolute),
    {
        let ghost s = self.chars@;
        let ghost i0 = self.pos as int - 1;
        self.buffer.clear();
        let start_coords = self.coords;
        proof {
            lemma_coords_at_bounds(s, i0 + 1);
        }
        loop
            invariant
                self.chars == old(self).chars,
                self.mixed_numerics == old(self).mixed_numerics,
                i0 + 1 <= self.pos as int <= s.len(),
                self.coords == coords_at(s, self.pos as int),
                self.buffer@ == s.subrange(i0 + 1, self.pos as int),
                str_scan(s, i0 + 1) == str_scan(s, self.pos as int),
                start_coords == coords_at(s, i0 + 1),
            decreases s.len() - self.pos,
        {
            let ghost j = self.pos as int;
            if !self.advance(false) {
                return Err(self.fail(ParserErrorDetails::EndOfInput));
            }
            let c = self.buffer[self.buffer.len() - 1];
            if c == '\\' {
                if !self.advance(false) {
                    return Err(self.fail(ParserErrorDetails::EndOfInput));
                }
                let e = self.buffer[self.buffer.len() - 1];
                if is_escape_suffix(e) {
                    proof {
                        assert(self.buffer@ =~= s.subrange(i0 + 1, self.pos as int));
                    }
                } else if e == 'u' {
                    if !self.advance_n(4) {
                        return Err(self.fail(ParserErrorDetails::EndOfInput));
                    }
                    proof {
                        assert(self.buffer@ =~= s.subrange(i0 + 1, self.pos as int));
                        lemma_coords_at_bounds(s, self.pos as int);
                    }
                    let blen = self.buffer.len();
                    let h0 = is_hex(self.buffer[blen - 4]);
                    let h1 = is_hex(self.buffer[blen - 3]);
                    let h2 = is_hex(self.buffer[blen - 2]);
                    let h3 = is_hex(self.buffer[blen - 1]);
                    if h0 && h1 && h2 && h3 {
                        proof {
                            assert forall|k: int| j + 2 <= k < j + 6 implies is_hex_char(
                                s[k],
                            ) by {
                                assert(s[k] == self.buffer@[k - (i0 + 1)]);
                            }
                            assert(four_hex(s, j + 2));
                        }
                    } else {
                        proof {
                            if !h0 {
                                assert(!is_hex_char(s[j + 2]));
                            } else if !h1 {
                                assert(!is_hex_char(s[j + 3]));
                            } else if !h2 {
                                assert(!is_hex_char(s[j + 4]));
                            } else {
                                assert(!is_hex_char(s[j + 5]));
                            }
                            assert(!four_hex(s, j + 2));
                        }
                        let fragment = self.buffer_to_string();
                        return Err(
                            self.fail(
                                ParserErrorDetails::InvalidUnicodeEscapeSequence(fragment),
                            ),
                        );
                    }
                } else {
                    proof {
                        assert(self.buffer@ =~= s.subrange(i0 + 1, self.pos as int));
                        assert(str_scan(s, j) == StrScan::BadEscape { end: j + 2 });
                    }
                    let fragment = self.buffer_to_string();
                    return Err(
                        self.fail(ParserErrorDetails::InvalidEscapeSequence(fragment)),
                    );
                }
            } else if c == '"' {
                let _ = self.buffer.pop();
                proof {
                    assert(self.buffer@ =~= s.subrange(i0 + 1, j));
                    lemma_coords_at_bounds(s, self.pos as int);
                }
                let content = chars_to_string(&self.buffer);
                return Ok(
                    (Token::Str(content), Span { start: start_coords, end: self.coords }),
                );
            } else {
            }
        }
    }

    /// Match on one of the `null`, `true` or `false` literals, whose first
    /// scalar has just been consumed into the buffer.  `extra` further
    /// scalars are read and the whole buffer is compared against the
    /// expected spelling.
    #[verifier::loop_isolation(false)]
    #[verifier::rlimit(60)]
    fn match_literal(&mut self, expected: &str, extra: usize, token: Token) -> (r: ParserResult<
        PackedToken,
    >)
        requires
            old(self).wf(),
            old(self).position() >= 1,
            old(self).lexeme() =~= seq![old(self).input()[old(self).position() - 1]],
            expected@.len() == 1 + extra,
            expected@[0] == old(self).input()[old(self).position() - 1],
            token_model(token) is Null || token_model(token) is Boolean,
        ensures
            final(self).wf(),
            final(self).input() == old(self).input(),
            final(self).mixed() == old(self).mixed(),
            old(self).position() <= final(self).position(),
            step_matches(
                r,
                old(self).input(),
                lit_step(
                    old(self).input(),
                    old(self).position() - 1,
                    expected@,
                    token_model(token),
                ),
            ),
            (lit_step(
                old(self).input(),
                old(self).position() - 1,
                expected@,
                token_model(token),
            ) matches LexStep::Tok { next, .. } ==> final(self).position() == next),
            r matches Ok((t, sp)) ==> (old(self).cur_coords().absolute <= sp.start.absolute
                && sp.start.absolute <= sp.end.absolute && sp.end.absolute == final(self).cur_coords().absolute),
    {
        let ghost s = self.chars@;
        let ghost i0 = self.pos as int - 1;
        let ghost pat = expected@;
        let start_coords = self.coords;
        proof {
            lemma_coords_at_bounds(s, i0 + 1);
        }
        if !self.advance_n(extra) {
            return Err(self.fail(ParserErrorDetails::EndOfInput));
        }
        proof {
            assert(self.buffer@ =~= s.subrange(i0, i0 + pat.len()));
            lemma_coords_at_bounds(s, self.pos as int);
        }
        let n = expected.unicode_len();
        let mut k: usize = 0;
        let mut all_eq = true;
        while k < n
            invariant
                self.chars == old(self).chars,
                n == pat.len(),
                k <= n,
                self.buffer@.len() == pat.len(),
                self.buffer@ == s.subrange(i0, i0 + pat.len()),
                all_eq == (forall|m: int| 0 <= m < k ==> self.buffer@[m] == pat[m]),
            decreases n - k,
        {
            let c = self.buffer[k];
            let e = expected.get_char(k);
            if c != e {
                all_eq = false;
            }
            k = k + 1;
        }
        if all_eq {
            proof {
                assert(s.subrange(i0, i0 + pat.len()) =~= pat);
            }
            Ok((token, Span { start: start_coords, end: self.coords }))
        } else {
            proof {
                assert(s.subrange(i0, i0 + pat.len()) != pat);
            }
            let got = self.buffer_to_string();
            let exp_string = expected.to_owned();
            Err(
                ParserError {
                    source: ParserErrorSource::Lexer,
                    details: ParserErrorDetails::MatchFailed(exp_string, got),
                    coords: Some(start_coords),
                },
            )
        }
    }

    /// Validate a number's prefix, whose first scalar (a minus or a digit)
    /// has just been consumed into the buffer.  On success, says whether
    /// the prefix already contains a decimal point.
    #[verifier::rlimit(60)]
    fn match_number_prefix(&mut self) -> (r: Result<bool, ParserError>)
        requires
            old(self).wf(),
            old(self).position() >= 1,
            old(self).input()[old(self).position() - 1] == '-' || is_digit_char(
                old(self).input()[old(self).position() - 1],
            ),
            old(self).lexeme() =~= seq![old(self).input()[old(self).position() - 1]],
        ensures
            final(self).wf(),
            final(self).input() == old(self).input(),
            final(self).mixed() == old(self).mixed(),
            old(self).position() <= final(self).position(),
            (num_prefix(old(self).input(), old(self).position() - 1) matches NumPrefix::Cont {
                p,
                dec,
            } ==> (r == Result::<bool, ParserError>::Ok(dec) && final(self).position() == p
                && final(self).lexeme() == old(self).input().subrange(old(self).position() - 1, p))),
            (num_prefix(old(self).input(), old(self).position() - 1) matches NumPrefix::Bad {
                end,
            } ==> (r matches Err(e) && e.source == ParserErrorSource::Lexer && details_match(
                e.details,
                LexErrModel::InvalidNumericRepresentation(
                    old(self).input().subrange(old(self).position() - 1, end),
                ),
            ) && e.coords == Some(coords_at(old(self).input(), end)))),
            (num_prefix(old(self).input(), old(self).position() - 1) is Eof ==> (r matches Err(e)
                && e.source == ParserErrorSource::Lexer && details_match(
                e.details,
                LexErrModel::EndOfInput,
            ) && e.coords == Some(
                coords_at(old(self).input(), old(self).input().len() as int),
            ))),
    {
        let ghost s = self.chars@;
        let ghost i0 = self.pos as int - 1;
        let c0 = self.buffer[0];
        let mut dec = false;
        if c0 == '-' {
            if !self.advance(false) {
                return Err(self.fail(ParserErrorDetails::EndOfInput));
            }
            let c1 = self.buffer[1];
            if is_nonzero_digit(c1) {
            } else if c1 == '0' {
                if !self.advance(false) {
                    return Err(self.fail(ParserErrorDetails::EndOfInput));
                }
                let c2 = self.buffer[2];
                if c2 == '.' {
                    dec = true;
                } else {
                    proof {
                        assert(self.buffer@ =~= s.subrange(i0, i0 + 3));
                    }
                    let fragment = self.buffer_to_string();
                    return Err(
                        self.fail(
                            ParserErrorDetails::InvalidNumericRepresentation(fragment),
                        ),
                    );
                }
            } else {
                proof {
                    assert(self.buffer@ =~= s.subrange(i0, i0 + 2));
                }
                let fragment = self.buffer_to_string();
                return Err(
                    self.fail(ParserErrorDetails::InvalidNumericRepresentation(fragment)),
                );
            }
        } else if c0 == '0' {
            if !self.advance(false) {
                return Err(self.fail(ParserErrorDetails::EndOfInput));
            }
            let c1 = self.buffer[1];
            if c1 == '.' {
                dec = true;
            } else if is_digit(c1) {
                proof {
                    assert(self.buffer@ =~= s.subrange(i0, i0 + 2));
                }
                let fragment = self.buffer_to_string();
                return Err(
                    self.fail(ParserErrorDetails::InvalidNumericRepresentation(fragment)),
                );
            } else {
                self.pushback();
            }
        } else {
        }
        proof {
            assert(self.buffer@ =~= s.subrange(i0, self.pos as int));
        }
        Ok(dec)
    }

    /// Scan a number's body from the current position, with `dec_in`
    /// saying whether the prefix already held a decimal point.  On success
    /// returns the final decimal-point and exponent flags, with the number's
    /// terminator pushed back.
    #[verifier::loop_isolation(false)]
    #[verifier::rlimit(60)]
    fn match_number_body(&mut self, dec_in: bool, i0: Ghost<int>) -> (r: Result<
        (bool, bool),
        ParserError,
    >)
        requires
            old(self).wf(),
            0 <= i0@ < old(self).position(),
            old(self).lexeme() == old(self).input().subrange(i0@, old(self).position()),
        ensures
            final(self).wf(),
            final(self).input() == old(self).input(),
            final(self).mixed() == old(self).mixed(),
            old(self).position() <= final(self).position(),
            (num_scan(old(self).input(), old(self).position(), dec_in, false)
                matches NumScan::Done { end, dec, exp } ==> (r == Result::<
                (bool, bool),
                ParserError,
            >::Ok((dec, exp)) && final(self).position() == end && final(self).lexeme() == old(
                self,
            ).input().subrange(i0@, end))),
            (num_scan(old(self).input(), old(self).position(), dec_in, false)
                matches NumScan::Bad { end } ==> (r matches Err(e) && e.source
                == ParserErrorSource::Lexer && details_match(
                e.details,
                LexErrModel::InvalidNumericRepresentation(
                    old(self).input().subrange(i0@, end),
                ),
            ) && e.coords == Some(coords_at(old(self).input(), end)))),
            (num_scan(old(self).input(), old(self).position(), dec_in, false) is Eof ==> (r
                matches Err(e) && e.source == ParserErrorSource::Lexer && details_match(
                e.details,
                LexErrModel::EndOfInput,
            ) && e.coords == Some(
                coords_at(old(self).input(), old(self).input().len() as int),
            ))),
    {
        let ghost s = self.chars@;
        let ghost p_init = self.pos as int;
        let mut dec = dec_in;
        let mut exp = false;
        loop
            invariant
                self.chars == old(self).chars,
                self.mixed_numerics == old(self).mixed_numerics,
                i0@ < p_init <= self.pos as int,
                self.pos as int <= s.len(),
                self.coords == coords_at(s, self.pos as int),
                self.buffer@ == s.subrange(i0@, self.pos as int),
                num_scan(s, p_init, dec_in, false) == num_scan(s, self.pos as int, dec, exp),
            decreases s.len() - self.pos,
        {
            let ghost p = self.pos as int;
            if !self.advance(false) {
                return Err(self.fail(ParserErrorDetails::EndOfInput));
            }
            let c = self.buffer[self.buffer.len() - 1];
            if is_digit(c) {
            } else if c == 'e' || c == 'E' {
                if exp {
                    proof {
                        assert(self.buffer@ =~= s.subrange(i0@, self.pos as int));
                    }
                    let fragment = self.buffer_to_string();
                    return Err(
                        self.fail(
                            ParserErrorDetails::InvalidNumericRepresentation(fragment),
                        ),
                    );
                }
                if !self.advance(false) {
                    return Err(self.fail(ParserErrorDetails::EndOfInput));
                }
                let c2 = self.buffer[self.buffer.len() - 1];
                if c2 == '+' || c2 == '-' {
                    exp = true;
                } else {
                    proof {
                        assert(self.buffer@ =~= s.subrange(i0@, self.pos as int));
                    }
                    let fragment = self.buffer_to_string();
                    return Err(
                        self.fail(
                            ParserErrorDetails::InvalidNumericRepresentation(fragment),
                        ),
                    );
                }
            } else if c == '.' {
                if dec {
                    proof {
                        assert(self.buffer@ =~= s.subrange(i0@, self.pos as int));
                    }
                    let fragment = self.buffer_to_string();
                    return Err(
                        self.fail(
                            ParserErrorDetails::InvalidNumericRepresentation(fragment),
                        ),
                    );
                }
                dec = true;
            } else {
                let term = is_terminator(c);
                let white = is_ws(c);
                if term || white {
                    self.pushback();
                    proof {
                        assert(self.buffer@ =~= s.subrange(i0@, self.pos as int));
                    }
                    return Ok((dec, exp));
                } else {
                    proof {
                        assert(self.buffer@ =~= s.subrange(i0@, self.pos as int));
                    }
                    let fragment = self.buffer_to_string();
                    return Err(
                        self.fail(
                            ParserErrorDetails::InvalidNumericRepresentation(fragment),
                        ),
                    );
                }
            }
        }
    }

    /// Match on a valid JSON number representation, whose first scalar (a
    /// minus or a digit) has just been consumed into the buffer.
    #[verifier::rlimit(100)]
    #[verifier::spinoff_prover]
    fn match_number(&mut self) -> (r: ParserResult<PackedToken>)
        requires
            old(self).wf(),
            old(self).position() >= 1,
            old(self).input()[old(self).position() - 1] == '-' || is_digit_char(
                old(self).input()[old(self).position() - 1],
            ),
            old(self).lexeme() =~= seq![old(self).input()[old(self).position() - 1]],
        ensures
            final(self).wf(),
            final(self).input() == old(self).input(),
            final(self).mixed() == old(self).mixed(),
            old(self).position() <= final(self).position(),
            step_matches(
                r,
                old(self).input(),
                num_step(old(self).input(), old(self).position() - 1, old(self).mixed()),
            ),
            (num_step(old(self).input(), old(self).position() - 1, old(self).mixed())
                matches LexStep::Tok { next, .. } ==> final(self).position() == next),
            r matches Ok((t, sp)) ==> (old(self).cur_coords().absolute <= sp.start.absolute
                && sp.start.absolute <= sp.end.absolute && sp.end.absolute == final(self).cur_coords().absolute),
    {
        let ghost s = self.chars@;
        let ghost i0 = self.pos as int - 1;
        let start_coords = self.coords;
        proof {
            lemma_coords_at_bounds(s, i0 + 1);
        }
        let mut dec = false;
        match self.match_number_prefix() {
            Ok(d) => {
                dec = d;
            },
            Err(e) => {
                return Err(e);
            },
        }
        let ghost p_init = self.pos as int;
        let ghost dec0 = dec;
        proof {
            assert(num_prefix(s, i0) == NumPrefix::Cont { p: p_init, dec: dec0 });
        }
        let flags = match self.match_number_body(dec, Ghost(i0)) {
            Ok(f) => f,
            Err(e) => {
                return Err(e);
            },
        };
        let dec2 = flags.0;
        let exp2 = flags.1;
        let ghost end = self.pos as int;
        proof {
            assert(num_scan(s, p_init, dec0, false) == NumScan::Done {
                end,
                dec: dec2,
                exp: exp2,
            });
            lemma_coords_at_bounds(s, end);
        }
        if self.mixed_numerics && !dec2 && !exp2 {
            proof {
                lemma_num_scan_done(s, p_init, dec0, false);
                assert(is_int_text(s.subrange(i0, end))) by {
                    let text = s.subrange(i0, end);
                    assert(forall|k: int| p_init <= k < end ==> is_digit_char(s[k]));
                    if s[i0] == '-' {
                        assert(is_nonzero_digit_char(s[i0 + 1]));
                        assert(p_init == i0 + 2);
                        assert(text[0] == '-');
                        assert(forall|k: int| 1 <= k < text.len() ==> is_digit_char(text[k]));
                    } else {
                        assert(is_digit_char(s[i0]));
                        assert(forall|k: int| 0 <= k < text.len() ==> is_digit_char(text[k]));
                    }
                }
                assert(self.buffer@ == s.subrange(i0, end));
            }
            match parse_i64_text(&self.buffer) {
                Some(v) => Ok((Token::Integer(v), Span { start: start_coords, end: self.coords })),
                None => {
                    let fragment = self.buffer_to_string();
                    Err(
                        self.fail(
                            ParserErrorDetails::InvalidNumericRepresentation(fragment),
                        ),
                    )
                },
            }
        } else {
            let text = self.buffer_to_string();
            Ok((Token::Float(text), Span { start: start_coords, end: self.coords }))
        }
    }

    /// Consume the next token from the input: skip leading whitespace, then
    /// dispatch on the first scalar.  At the end of the input an
    /// [`Token::EndOfInput`] token is produced, idempotently on subsequent
    /// calls.
    #[verifier::rlimit(60)]
    pub fn consume(&mut self) -> (r: ParserResult<PackedToken>)
        requires
            old(self).wf(),
        ensures
            final(self).wf(),
            final(self).input() == old(self).input(),
            final(self).mixed() == old(self).mixed(),
            old(self).position() <= final(self).position(),
            old(self).cur_coords().absolute == old(self).position(),
            final(self).cur_coords().absolute == final(self).position(),
            old(self).cur_coords().absolute <= final(self).cur_coords().absolute,
            step_matches(
                r,
                old(self).input(),
                spec_consume(old(self).input(), old(self).position(), old(self).mixed()),
            ),
            (spec_consume(old(self).input(), old(self).position(), old(self).mixed())
                matches LexStep::Tok { next, .. } ==> final(self).position() == next),
            r matches Ok((t, sp)) ==> (old(self).cur_coords().absolute <= sp.start.absolute
                && sp.start.absolute <= sp.end.absolute && sp.end.absolute <= final(self).cur_coords().absolute),
            (r matches Ok((t, sp)) && !(t is EndOfInput)) ==> old(self).position() < final(self).position(),
            (r matches Ok((t, sp)) && t is EndOfInput) ==> final(self).position() == final(self).input().len(),
            old(self).position() == old(self).input().len() ==> (final(self).position() == old(self).position() && final(self).cur_coords() == old(self).cur_coords()),
    {
        let ghost s = self.chars@;
        let ghost p0 = self.pos as int;
        proof {
            lemma_coords_at_bounds(s, p0);
        }
        self.reset();
        if !self.advance(true) {
            proof {
                lemma_coords_at_bounds(s, s.len() as int);
            }
            let span = Span { start: self.coords, end: self.coords };
            return Ok((Token::EndOfInput, span));
        }
        let ghost i0 = self.pos as int - 1;
        proof {
            assert(i0 == next_non_ws(s, p0));
            lemma_next_non_ws_bounds(s, p0);
            lemma_coords_at_bounds(s, i0 + 1);
        }
        let c = self.buffer[0];
        let result = if c == '{' {
            Ok((Token::StartObject, Span { start: self.coords, end: self.coords }))
        } else if c == '}' {
            Ok((Token::EndObject, Span { start: self.coords, end: self.coords }))
        } else if c == '[' {
            Ok((Token::StartArray, Span { start: self.coords, end: self.coords }))
        } else if c == ']' {
            Ok((Token::EndArray, Span { start: self.coords, end: self.coords }))
        } else if c == ':' {
            Ok((Token::Colon, Span { start: self.coords, end: self.coords }))
        } else if c == ',' {
            Ok((Token::Comma, Span { start: self.coords, end: self.coords }))
        } else if c == '"' {
            let r = self.match_string();
            proof {
                lemma_coords_at_bounds(s, self.pos as int);
            }
            r
        } else if c == 'n' {
            let expected = "null";
            proof {
                reveal_strlit("null");
                assert(expected@ =~= null_pattern());
            }
            let r = self.match_literal(expected, 3, Token::Null);
            proof {
                lemma_coords_at_bounds(s, self.pos as int);
            }
            r
        } else if c == 't' {
            let expected = "true";
            proof {
                reveal_strlit("true");
                assert(expected@ =~= true_pattern());
            }
            let r = self.match_literal(expected, 3, Token::Boolean(true));
            proof {
                lemma_coords_at_bounds(s, self.pos as int);
            }
            r
        } else if c == 'f' {
            let expected = "false";
            proof {
                reveal_strlit("false");
                assert(expected@ =~= false_pattern());
            }
            let r = self.match_literal(expected, 4, Token::Boolean(false));
            proof {
                lemma_coords_at_bounds(s, self.pos as int);
            }
            r
        } else {
            let digit = is_digit(c);
            if c == '-' || digit {
                let r = self.match_number();
                proof {
                    if r is Ok {
                        lemma_coords_at_bounds(s, self.pos as int);
                    }
                }
                r
            } else {
                Err(self.fail(ParserErrorDetails::InvalidCharacter(c)))
            }
        };
        proof {
            lemma_coords_at_bounds(s, self.pos as int);
        }
        result
    }
}

} // verus!
