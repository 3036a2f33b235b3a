//! Both the DOM and SAX parser implementations operate over a sequence of
//! Unicode scalars decoded from an underlying byte source.
//!
//! The decoding itself is done by an outside decoder crate; because its
//! iterator interface reports exhaustion for malformed input and clean end
//! of input alike, the byte source is validated for the selected encoding
//! first, so that malformed input fails with
//! [`crate::errors::ParserErrorDetails::NonUtf8InputDetected`] rather than
//! silently truncating the scalar stream.
use crate::errors::ParserErrorDetails;
use vstd::prelude::*;
use vstd::string::StringSliceAdditionalSpecFns;
use vstd::utf8::{decode_utf8, encode_utf8_decode_utf8, encode_utf8_valid_utf8, valid_utf8};

verus! {

/// Enumeration of different supported encoding types.
#[derive(Debug, Copy, Clone, PartialEq, Eq, Structural)]
pub enum Encoding {
    /// UTF-8, the default
    Utf8,
    /// ASCII only
    Ascii,
}

impl Default for Encoding {
    /// The default encoding is UTF-8.
    fn default() -> (r: Encoding)
        ensures
            r == Encoding::Utf8,
    {
        Encoding::Utf8
    }
}

/// The scalars an ASCII byte sequence decodes to: each byte stands for
/// itself.
pub open spec fn ascii_chars(bytes: Seq<u8>) -> Seq<char> {
    bytes.map(|i: int, b: u8| b as char)
}

/// Whether every byte of a sequence is ASCII.
pub open spec fn all_ascii(bytes: Seq<u8>) -> bool {
    forall|i: int| 0 <= i < bytes.len() ==> bytes[i] < 128
}

/// Relies on `core::str::from_utf8`, which succeeds exactly on well-formed
/// UTF-8 input.
#[verifier::external_body]
fn utf8_is_valid(bytes: &[u8]) -> (r: bool)
    ensures
        r == valid_utf8(bytes@),
{
    core::str::from_utf8(bytes).is_ok()
}

/// Relies on `chisel_decoders::utf8::Utf8Decoder`: on well-formed UTF-8
/// input its iterator yields exactly the encoded scalar sequence, and it
/// never yields more scalars than there are bytes.  Malformed input is
/// excluded up front: the decoder indexes past its buffer on a truncated
/// multi-byte sequence.
#[verifier::external_body]
fn utf8_decode_to_vec(bytes: &[u8]) -> (r: Vec<char>)
    requires
        valid_utf8(bytes@),
    ensures
        r@.len() <= bytes@.len(),
        r@ == decode_utf8(bytes@),
{
    let mut reader = std::io::BufReader::new(bytes);
    let decoder = chisel_decoders::utf8::Utf8Decoder::new(&mut reader);
    decoder.collect()
}

/// Relies on `chisel_decoders::ascii::AsciiDecoder`: on all-ASCII input
/// its iterator yields one scalar per byte, each byte standing for itself,
/// and it never yields more scalars than there are bytes.
#[verifier::external_body]
fn ascii_decode_to_vec(bytes: &[u8]) -> (r: Vec<char>)
    ensures
        r@.len() <= bytes@.len(),
        all_ascii(bytes@) ==> r@ == ascii_chars(bytes@),
{
    let mut reader = std::io::BufReader::new(bytes);
    let decoder = chisel_decoders::ascii::AsciiDecoder::new(&mut reader);
    decoder.collect()
}

/// Check in advance that every byte is ASCII.
fn bytes_all_ascii(bytes: &[u8]) -> (r: bool)
    ensures
        r == all_ascii(bytes@),
{
    let mut i: usize = 0;
    while i < bytes.len()
        invariant
            i <= bytes@.len(),
            forall|k: int| 0 <= k < i ==> bytes@[k] < 128,
        decreases bytes@.len() - i,
    {
        if bytes[i] >= 128 {
            return false;
        }
        i = i + 1;
    }
    true
}

/// Turn a byte source into the sequence of Unicode scalars it encodes under
/// the given encoding.  Malformed input for the selected encoding fails
/// with [`ParserErrorDetails::NonUtf8InputDetected`].
pub fn decode_bytes(bytes: &[u8], encoding: Encoding) -> (r: Result<Vec<char>, ParserErrorDetails>)
    ensures
        r matches Ok(v) ==> v@.len() <= bytes@.len(),
        encoding == Encoding::Utf8 && valid_utf8(bytes@) ==> (r matches Ok(v) && v@ == decode_utf8(
            bytes@,
        )),
        encoding == Encoding::Utf8 && !valid_utf8(bytes@) ==> r == Result::<
            Vec<char>,
            ParserErrorDetails,
        >::Err(ParserErrorDetails::NonUtf8InputDetected),
        encoding == Encoding::Ascii && all_ascii(bytes@) ==> (r matches Ok(v) && v@ == ascii_chars(
            bytes@,
        )),
        encoding == Encoding::Ascii && !all_ascii(bytes@) ==> r == Result::<
            Vec<char>,
            ParserErrorDetails,
        >::Err(ParserErrorDetails::NonUtf8InputDetected),
{
    match encoding {
        Encoding::Utf8 => {
            if utf8_is_valid(bytes) {
                Ok(utf8_decode_to_vec(bytes))
            } else {
                Err(ParserErrorDetails::NonUtf8InputDetected)
            }
        },
        Encoding::Ascii => {
            if bytes_all_ascii(bytes) {
                Ok(ascii_decode_to_vec(bytes))
            } else {
                Err(ParserErrorDetails::NonUtf8InputDetected)
            }
        },
    }
}

/// Turn a text source into its sequence of Unicode scalars.
pub fn decode_str(text: &str) -> (r: Vec<char>)
    ensures
        r@ == text@,
{
    broadcast use encode_utf8_valid_utf8, encode_utf8_decode_utf8;

    let bytes = text.as_bytes();
    proof {
        assert(bytes@ == text.spec_bytes());
    }
    let decoded = utf8_decode_to_vec(bytes);
    decoded
}

} // verus!
