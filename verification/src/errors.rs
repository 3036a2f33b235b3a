//! Error and result types used throughout the parser stages, together with
//! their one-line diagnostic renderings.
use crate::coords::Coords;
use crate::lexer::{spec_render_token, Token};
use crate::text::{push_char, spec_udec, usize_to_string};
use vstd::prelude::*;

verus! {

/// Global result type used throughout the parser stages.
pub type ParserResult<T> = Result<T, ParserError>;

/// Enumeration of the various different parser stages that can produce an
/// error.
#[derive(Debug, Copy, Clone, PartialEq, Eq, Structural)]
pub enum ParserErrorSource {
    /// The lexing stage of the parser
    Lexer,
    /// The parsing stage of the DOM parser
    DomParser,
    /// The parsing stage of the SAX parser
    SaxParser,
}

/// The rendering of an error stage within diagnostics: the lexing stage
/// renders as `lexing`, both parsing stages render as `parsing`.
pub open spec fn spec_render_source(s: ParserErrorSource) -> Seq<char> {
    match s {
        ParserErrorSource::Lexer => "lexing"@,
        ParserErrorSource::DomParser => "parsing"@,
        ParserErrorSource::SaxParser => "parsing"@,
    }
}

impl ParserErrorSource {
    /// Render the stage name for use within a one-line diagnostic.
    pub fn render(&self) -> (r: String)
        ensures
            r@ == spec_render_source(*self),
    {
        match self {
            ParserErrorSource::Lexer => "lexing".to_owned(),
            ParserErrorSource::DomParser => "parsing".to_owned(),
            ParserErrorSource::SaxParser => "parsing".to_owned(),
        }
    }
}

/// A global enumeration of error codes.
#[derive(Debug, Clone, PartialEq)]
pub enum ParserErrorDetails {
    /// An invalid file has been specified.  It might not exist, or might not
    /// be accessible.
    InvalidFile,
    /// We can't parse nothing.
    ZeroLengthInput,
    /// End of input has been reached. This is used as a stopping condition
    /// at various points.
    EndOfInput,
    /// If pulling bytes from an underlying stream of some description, and
    /// an error occurs, this will be returned.
    StreamFailure,
    /// Dodgy UTF8 has been found in the input.
    NonUtf8InputDetected,
    /// Edge case error condition. This means that something has gone
    /// horribly wrong with the parse.
    UnexpectedToken(Token),
    /// KV pair is expected but not detected.
    PairExpected,
    /// Supplied JSON doesn't have an object or array as a root object.
    InvalidRootObject,
    /// The parse of an object has failed.
    InvalidObject,
    /// The parse of an array has failed.
    InvalidArray,
    /// An invalid character has been detected within the input.
    InvalidCharacter(char),
    /// Whilst looking for a literal string token (null, true, false) a match
    /// couldn't be found.
    MatchFailed(String, String),
    /// A number has been found with an incorrect string representation.
    InvalidNumericRepresentation(String),
    /// An invalid escape sequence has been found within the input.
    InvalidEscapeSequence(String),
    /// An invalid unicode escape sequence (`\uXXXX`) has been found within
    /// the input.
    InvalidUnicodeEscapeSequence(String),
}

/// The rendering of each error detail within diagnostics.
pub open spec fn spec_render_details(d: ParserErrorDetails) -> Seq<char> {
    match d {
        ParserErrorDetails::InvalidFile => "invalid file specified"@,
        ParserErrorDetails::ZeroLengthInput => "zero length input"@,
        ParserErrorDetails::EndOfInput => "end of input reached"@,
        ParserErrorDetails::StreamFailure => "failure in the underlying stream"@,
        ParserErrorDetails::NonUtf8InputDetected => "non-UTF8 input"@,
        ParserErrorDetails::UnexpectedToken(t) => "unexpected token found: "@ + spec_render_token(
            t,
        ),
        ParserErrorDetails::PairExpected => "pair expected, something else was found"@,
        ParserErrorDetails::InvalidRootObject => "invalid JSON"@,
        ParserErrorDetails::InvalidObject => "invalid object"@,
        ParserErrorDetails::InvalidArray => "invalid array"@,
        ParserErrorDetails::InvalidCharacter(c) => "invalid character: '"@ + seq![c] + "'"@,
        ParserErrorDetails::MatchFailed(exp, got) => "a match failed. Looking for \""@ + exp@
            + "\", found \""@ + got@ + "\""@,
        ParserErrorDetails::InvalidNumericRepresentation(r) => "invalid number representation: \""@
            + r@ + "\""@,
        ParserErrorDetails::InvalidEscapeSequence(s) => "invalid escape sequence: \""@ + s@ + "\""@,
        ParserErrorDetails::InvalidUnicodeEscapeSequence(s) => "invalid unicode escape sequence: \""@
            + s@ + "\""@,
    }
}

impl ParserErrorDetails {
    /// Render the error detail for use within a one-line diagnostic.
    pub fn render(&self) -> (r: String)
        ensures
            r@ == spec_render_details(*self),
    {
        match self {
            ParserErrorDetails::InvalidFile => "invalid file specified".to_owned(),
            ParserErrorDetails::ZeroLengthInput => "zero length input".to_owned(),
            ParserErrorDetails::EndOfInput => "end of input reached".to_owned(),
            ParserErrorDetails::StreamFailure => "failure in the underlying stream".to_owned(),
            ParserErrorDetails::NonUtf8InputDetected => "non-UTF8 input".to_owned(),
            ParserErrorDetails::UnexpectedToken(t) => {
                let mut r = "unexpected token found: ".to_owned();
                let tok = t.render();
                r.append(tok.as_str());
                proof {
                    assert(r@ =~= spec_render_details(*self));
                }
                r
            },
            ParserErrorDetails::PairExpected => "pair expected, something else was found".to_owned(),
            ParserErrorDetails::InvalidRootObject => "invalid JSON".to_owned(),
            ParserErrorDetails::InvalidObject => "invalid object".to_owned(),
            ParserErrorDetails::InvalidArray => "invalid array".to_owned(),
            ParserErrorDetails::InvalidCharacter(c) => {
                let mut r = "invalid character: '".to_owned();
                push_char(&mut r, *c);
                r.append("'");
                proof {
                    assert(r@ =~= spec_render_details(*self));
                }
                r
            },
            ParserErrorDetails::MatchFailed(exp, got) => {
                let mut r = "a match failed. Looking for \"".to_owned();
                r.append(exp.as_str());
                r.append("\", found \"");
                r.append(got.as_str());
                r.append("\"");
                proof {
                    assert(r@ =~= spec_render_details(*self));
                }
                r
            },
            ParserErrorDetails::InvalidNumericRepresentation(rep) => {
                let mut r = "invalid number representation: \"".to_owned();
                r.append(rep.as_str());
                r.append("\"");
                proof {
                    assert(r@ =~= spec_render_details(*self));
                }
                r
            },
            ParserErrorDetails::InvalidEscapeSequence(s) => {
                let mut r = "invalid escape sequence: \"".to_owned();
                r.append(s.as_str());
                r.append("\"");
                proof {
                    assert(r@ =~= spec_render_details(*self));
                }
                r
            },
            ParserErrorDetails::InvalidUnicodeEscapeSequence(s) => {
                let mut r = "invalid unicode escape sequence: \"".to_owned();
                r.append(s.as_str());
                r.append("\"");
                proof {
                    assert(r@ =~= spec_render_details(*self));
                }
                r
            },
        }
    }
}

/// The general error structure.
#[derive(Debug, Clone, PartialEq)]
pub struct ParserError {
    /// The originating source for the error
    pub source: ParserErrorSource,
    /// The global error code for the error
    pub details: ParserErrorDetails,
    /// Parser [`Coords`]
    pub coords: Option<Coords>,
}

/// The rendering of a coordinate triple within diagnostics.
pub open spec fn spec_render_coords(c: Coords) -> Seq<char> {
    "(line: "@ + spec_udec(c.line as int) + ", column: "@ + spec_udec(c.column as int)
        + ", absolute: "@ + spec_udec(c.absolute as int) + ")"@
}

/// The one-line diagnostic rendering of an error: its stage, its detail, and
/// the coordinates of first detection where they are known.
pub open spec fn spec_render_error(e: ParserError) -> Seq<char> {
    let head = "Stage: "@ + spec_render_source(e.source) + ", Details: "@ + spec_render_details(
        e.details,
    );
    match e.coords {
        Some(c) => head + ", Coords: "@ + spec_render_coords(c),
        None => head,
    }
}

impl ParserError {
    /// Render the error as a one-line diagnostic.
    pub fn render(&self) -> (r: String)
        ensures
            r@ == spec_render_error(*self),
    {
        let mut r = "Stage: ".to_owned();
        let src = self.source.render();
        r.append(src.as_str());
        r.append(", Details: ");
        let det = self.details.render();
        r.append(det.as_str());
        match &self.coords {
            Some(c) => {
                r.append(", Coords: ");
                r.append("(line: ");
                let line = usize_to_string(c.line);
                r.append(line.as_str());
                r.append(", column: ");
                let col = usize_to_string(c.column);
                r.append(col.as_str());
                r.append(", absolute: ");
                let abs = usize_to_string(c.absolute);
                r.append(abs.as_str());
                r.append(")");
                proof {
                    assert(r@ =~= spec_render_error(*self));
                }
            },
            None => {
                proof {
                    assert(r@ =~= spec_render_error(*self));
                }
            },
        }
        r
    }
}

} // verus!
