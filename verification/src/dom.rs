//! The DOM parser: a recursive descent over the token stream that builds an
//! in-memory [`JsonValue`] tree.
//!
//! Every function is proved to return exactly what the shared driver model
//! in [`crate::parser`] assigns to its input: the same tree on success —
//! key/value pairs in insertion order, duplicates preserved — and the same
//! error, at the same coordinates, on failure.
use crate::decoders::{decode_bytes, decode_str, Encoding};
use crate::errors::{ParserError, ParserErrorDetails, ParserErrorSource, ParserResult};
use crate::lexer::{spec_consume, LexStep, Lexer, Token};
use crate::parser::{
    array_result_matches, fuel_at, items_model_from, lemma_fuel_mono, lemma_items_model_push,
    lemma_pairs_model_push, lemma_parse_canonical, object_result_matches, pairs_model_from,
    spec_items, spec_items_cons, spec_members, spec_parse, spec_value, value_model,
    value_result_matches, ItemsParse, MembersParse, ValModel, ValueParse,
};
use crate::JsonValue;
use vstd::prelude::*;
use vstd::string::StringSliceAdditionalSpecFns;
use vstd::utf8::{decode_utf8, valid_utf8};

verus! {

/// Main JSON parser struct.
pub struct Parser {
    /// The encoding expected of byte-oriented input
    encoding: Encoding,
}

impl Default for Parser {
    /// The default encoding is UTF-8.
    fn default() -> (r: Parser)
        ensures
            r.spec_encoding() == Encoding::Utf8,
    {
        Parser { encoding: Encoding::Utf8 }
    }
}

impl Parser {
    /// The encoding this parser expects of byte-oriented input.
    pub closed spec fn spec_encoding(self) -> Encoding {
        self.encoding
    }

    /// Create a new instance of the parser using a specific [`Encoding`].
    pub fn with_encoding(encoding: Encoding) -> (r: Parser)
        ensures
            r.spec_encoding() == encoding,
    {
        Parser { encoding }
    }

    /// The encoding this parser was configured with.
    pub fn encoding(&self) -> (r: Encoding)
        ensures
            r == self.spec_encoding(),
    {
        self.encoding
    }

    /// Parse a byte source, decoding it as UTF-8 first.
    pub fn parse_bytes(&self, bytes: &[u8]) -> (r: ParserResult<JsonValue>)
        requires
            bytes@.len() < usize::MAX,
        ensures
            !valid_utf8(bytes@) ==> (r matches Err(e) && e.details
                == ParserErrorDetails::NonUtf8InputDetected),
            valid_utf8(bytes@) ==> value_result_matches(
                r,
                decode_utf8(bytes@),
                spec_parse(decode_utf8(bytes@), true),
                ParserErrorSource::DomParser,
            ),
    {
        match decode_bytes(bytes, Encoding::Utf8) {
            Ok(chars) => self.parse(chars.as_slice()),
            Err(details) => Err(
                ParserError { source: ParserErrorSource::Lexer, details, coords: None },
            ),
        }
    }

    /// Parse a text source.
    pub fn parse_str(&self, text: &str) -> (r: ParserResult<JsonValue>)
        requires
            text@.len() < usize::MAX,
        ensures
            value_result_matches(r, text@, spec_parse(text@, true), ParserErrorSource::DomParser),
    {
        let chars = decode_str(text);
        self.parse(chars.as_slice())
    }

    /// Parse a sequence of decoded scalars.  The result is exactly what the
    /// driver model assigns to them: the document's tree when the root
    /// opens an object or array that parses, and the model's failure — the
    /// same detail at the same coordinates — otherwise.
    pub fn parse(&self, chars: &[char]) -> (r: ParserResult<JsonValue>)
        requires
            chars@.len() < usize::MAX,
        ensures
            value_result_matches(
                r,
                chars@,
                spec_parse(chars@, true),
                ParserErrorSource::DomParser,
            ),
    {
        let ghost s = chars@;
        let mut lexer = Lexer::new(chars);
        match lexer.consume() {
            Ok((Token::StartObject, _span)) => {
                proof {
                    lemma_parse_canonical(s, lexer.position(), true);
                }
                self.parse_object(&mut lexer)
            },
            Ok((Token::StartArray, _span)) => {
                proof {
                    lemma_parse_canonical(s, lexer.position(), true);
                }
                self.parse_array(&mut lexer)
            },
            Ok((_token, span)) => Err(
                ParserError {
                    source: ParserErrorSource::DomParser,
                    details: ParserErrorDetails::InvalidRootObject,
                    coords: Some(span.start),
                },
            ),
            Err(e) => Err(e),
        }
    }

    /// Parse a single value: a nested structure or a scalar leaf.
    #[verifier::rlimit(100)]
    #[verifier::spinoff_prover]
    fn parse_value(&self, lexer: &mut Lexer) -> (r: ParserResult<JsonValue>)
        requires
            old(lexer).wf(),
        ensures
            final(lexer).wf(),
            final(lexer).input() == old(lexer).input(),
            final(lexer).mixed() == old(lexer).mixed(),
            old(lexer).position() <= final(lexer).position(),
            value_result_matches(
                r,
                old(lexer).input(),
                spec_value(
                    old(lexer).input(),
                    old(lexer).position(),
                    old(lexer).mixed(),
                    fuel_at(old(lexer).input(), old(lexer).position()),
                ),
                ParserErrorSource::DomParser,
            ),
            (spec_value(
                old(lexer).input(),
                old(lexer).position(),
                old(lexer).mixed(),
                fuel_at(old(lexer).input(), old(lexer).position()),
            ) matches ValueParse::Value { v, next } ==> final(lexer).position() == next),
        decreases old(lexer).input().len() - old(lexer).position(), 2int,
    {
        let ghost s = old(lexer).input();
        let ghost p0 = old(lexer).position();
        let ghost mx = old(lexer).mixed();
        let ghost f = fuel_at(s, p0);
        match lexer.consume() {
            Ok((Token::StartObject, _span)) => {
                proof {
                    lemma_parse_canonical(s, lexer.position(), mx);
                    lemma_fuel_mono(
                        s,
                        lexer.position(),
                        mx,
                        fuel_at(s, lexer.position()),
                        (f - 1) as nat,
                    );
                }
                self.parse_object(lexer)
            },
            Ok((Token::StartArray, _span)) => {
                proof {
                    lemma_parse_canonical(s, lexer.position(), mx);
                    lemma_fuel_mono(
                        s,
                        lexer.position(),
                        mx,
                        fuel_at(s, lexer.position()),
                        (f - 1) as nat,
                    );
                }
                self.parse_array(lexer)
            },
            Ok((Token::Str(text), _span)) => Ok(JsonValue::String(text)),
            Ok((Token::Float(text), _span)) => Ok(JsonValue::Float(text)),
            Ok((Token::Integer(value), _span)) => Ok(JsonValue::Integer(value)),
            Ok((Token::Boolean(value), _span)) => Ok(JsonValue::Boolean(value)),
            Ok((Token::Null, _span)) => Ok(JsonValue::Null),
            Ok((Token::EndOfInput, span)) => Err(
                ParserError {
                    source: ParserErrorSource::DomParser,
                    details: ParserErrorDetails::EndOfInput,
                    coords: Some(span.start),
                },
            ),
            Ok((token, span)) => Err(
                ParserError {
                    source: ParserErrorSource::DomParser,
                    details: ParserErrorDetails::UnexpectedToken(token),
                    coords: Some(span.start),
                },
            ),
            Err(e) => Err(e),
        }
    }

    /// An object is just a list of comma separated KV pairs, collected in
    /// insertion order with duplicates preserved.
    #[verifier::loop_isolation(false)]
    #[verifier::rlimit(100)]
    #[verifier::spinoff_prover]
    fn parse_object(&self, lexer: &mut Lexer) -> (r: ParserResult<JsonValue>)
        requires
            old(lexer).wf(),
        ensures
            final(lexer).wf(),
            final(lexer).input() == old(lexer).input(),
            final(lexer).mixed() == old(lexer).mixed(),
            old(lexer).position() <= final(lexer).position(),
            object_result_matches(
                r,
                old(lexer).input(),
                spec_members(
                    old(lexer).input(),
                    old(lexer).position(),
                    old(lexer).mixed(),
                    fuel_at(old(lexer).input(), old(lexer).position()),
                ),
                ParserErrorSource::DomParser,
            ),
            (spec_members(
                old(lexer).input(),
                old(lexer).position(),
                old(lexer).mixed(),
                fuel_at(old(lexer).input(), old(lexer).position()),
            ) matches MembersParse::Members { pairs, next } ==> final(lexer).position() == next),
        decreases old(lexer).input().len() - old(lexer).position(), 1int,
    {
        let ghost s = old(lexer).input();
        let ghost p0 = old(lexer).position();
        let ghost mx = old(lexer).mixed();
        let ghost whole = spec_members(s, p0, mx, fuel_at(s, p0));
        let mut pairs: Vec<(String, JsonValue)> = Vec::new();
        proof {
            assert(pairs_model_from(pairs, 0) =~= Seq::<(Seq<char>, ValModel)>::empty());
            match whole {
                MembersParse::Members { pairs: rest, next } => {
                    assert(pairs_model_from(pairs, 0) + rest =~= rest);
                },
                _ => {},
            }
        }
        loop
            invariant
                lexer.wf(),
                lexer.input() == s,
                lexer.mixed() == mx,
                p0 <= lexer.position(),
                whole == spec_members(s, p0, mx, fuel_at(s, p0)),
                ({
                    let here = spec_members(s, lexer.position(), mx, fuel_at(s, lexer.position()));
                    match here {
                        MembersParse::Members { pairs: rest, next } => whole
                            == (MembersParse::Members {
                            pairs: pairs_model_from(pairs, 0) + rest,
                            next,
                        }),
                        MembersParse::Fail { f } => whole == (MembersParse::Fail { f }),
                        MembersParse::Hang => true,
                    }
                }),
            decreases lexer.input().len() - lexer.position(),
        {
            let ghost cur = lexer.position();
            let ghost fc = fuel_at(s, cur);
            proof {
                lemma_parse_canonical(s, cur, mx);
            }
            match lexer.consume() {
                Ok((Token::Str(key), _span)) => {
                    match lexer.consume() {
                        Ok((Token::Colon, _colon_span)) => {
                            let ghost n2 = lexer.position();
                            proof {
                                lemma_parse_canonical(s, n2, mx);
                                lemma_fuel_mono(s, n2, mx, fuel_at(s, n2), (fc - 1) as nat);
                            }
                            match self.parse_value(lexer) {
                                Ok(value) => {
                                    let ghost n3 = lexer.position();
                                    let ghost v = value_model(value);
                                    let ghost old_pairs = pairs;
                                    proof {
                                        lemma_parse_canonical(s, n3, mx);
                                        lemma_fuel_mono(
                                            s,
                                            n3,
                                            mx,
                                            fuel_at(s, n3),
                                            (fc - 1) as nat,
                                        );
                                    }
                                    pairs.push((key, value));
                                    proof {
                                        lemma_pairs_model_push(
                                            old_pairs,
                                            pairs,
                                            (pairs@[pairs@.len() - 1]),
                                            0,
                                        );
                                        let here3 = spec_members(s, n3, mx, fuel_at(s, n3));
                                        match here3 {
                                            MembersParse::Members { pairs: rest, next } => {
                                                assert(pairs_model_from(old_pairs, 0) + (seq![
                                                    (pairs@[pairs@.len() - 1].0@, v),
                                                ] + rest) =~= pairs_model_from(pairs, 0) + rest);
                                            },
                                            _ => {},
                                        }
                                    }
                                },
                                Err(e) => {
                                    return Err(e);
                                },
                            }
                        },
                        Ok((_token, colon_span)) => {
                            return Err(
                                ParserError {
                                    source: ParserErrorSource::DomParser,
                                    details: ParserErrorDetails::PairExpected,
                                    coords: Some(colon_span.start),
                                },
                            );
                        },
                        Err(e) => {
                            return Err(e);
                        },
                    }
                },
                Ok((Token::Comma, _span)) => {
                    proof {
                        let nx = lexer.position();
                        lemma_parse_canonical(s, nx, mx);
                        lemma_fuel_mono(s, nx, mx, fuel_at(s, nx), (fc - 1) as nat);
                    }
                },
                Ok((Token::EndObject, _span)) => {
                    proof {
                        match whole {
                            MembersParse::Members { pairs: all, next } => {
                                assert(pairs_model_from(pairs, 0) + Seq::<
                                    (Seq<char>, ValModel),
                                >::empty() =~= pairs_model_from(pairs, 0));
                            },
                            _ => {},
                        }
                    }
                    return Ok(JsonValue::Object(pairs));
                },
                Ok((Token::EndOfInput, span)) => {
                    return Err(
                        ParserError {
                            source: ParserErrorSource::DomParser,
                            details: ParserErrorDetails::EndOfInput,
                            coords: Some(span.start),
                        },
                    );
                },
                Ok((_token, span)) => {
                    return Err(
                        ParserError {
                            source: ParserErrorSource::DomParser,
                            details: ParserErrorDetails::InvalidObject,
                            coords: Some(span.start),
                        },
                    );
                },
                Err(e) => {
                    return Err(e);
                },
            }
        }
    }

    /// An array is just a list of comma separated values, collected in
    /// document order.
    #[verifier::loop_isolation(false)]
    #[verifier::rlimit(100)]
    #[verifier::spinoff_prover]
    fn parse_array(&self, lexer: &mut Lexer) -> (r: ParserResult<JsonValue>)
        requires
            old(lexer).wf(),
        ensures
            final(lexer).wf(),
            final(lexer).input() == old(lexer).input(),
            final(lexer).mixed() == old(lexer).mixed(),
            old(lexer).position() <= final(lexer).position(),
            array_result_matches(
                r,
                old(lexer).input(),
                spec_items(
                    old(lexer).input(),
                    old(lexer).position(),
                    old(lexer).mixed(),
                    fuel_at(old(lexer).input(), old(lexer).position()),
                ),
                ParserErrorSource::DomParser,
            ),
            (spec_items(
                old(lexer).input(),
                old(lexer).position(),
                old(lexer).mixed(),
                fuel_at(old(lexer).input(), old(lexer).position()),
            ) matches ItemsParse::Items { items, next } ==> final(lexer).position() == next),
        decreases old(lexer).input().len() - old(lexer).position(), 1int,
    {
        let ghost s = old(lexer).input();
        let ghost p0 = old(lexer).position();
        let ghost mx = old(lexer).mixed();
        let ghost whole = spec_items(s, p0, mx, fuel_at(s, p0));
        let mut values: Vec<JsonValue> = Vec::new();
        proof {
            assert(items_model_from(values, 0) =~= Seq::<ValModel>::empty());
            match whole {
                ItemsParse::Items { items: rest, next } => {
                    assert(items_model_from(values, 0) + rest =~= rest);
                },
                _ => {},
            }
        }
        loop
            invariant
                lexer.wf(),
                lexer.input() == s,
                lexer.mixed() == mx,
                p0 <= lexer.position(),
                whole == spec_items(s, p0, mx, fuel_at(s, p0)),
                ({
                    let here = spec_items(s, lexer.position(), mx, fuel_at(s, lexer.position()));
                    match here {
                        ItemsParse::Items { items: rest, next } => whole == (ItemsParse::Items {
                            items: items_model_from(values, 0) + rest,
                            next,
                        }),
                        ItemsParse::Fail { f } => whole == (ItemsParse::Fail { f }),
                        ItemsParse::Hang => true,
                    }
                }),
            decreases lexer.input().len() - lexer.position(),
        {
            let ghost cur = lexer.position();
            let ghost fc = fuel_at(s, cur);
            proof {
                lemma_parse_canonical(s, cur, mx);
                reveal_with_fuel(spec_items_cons, 2);
            }
            match lexer.consume() {
                Ok((Token::StartArray, _span)) => {
                    let ghost n1 = lexer.position();
                    proof {
                        lemma_parse_canonical(s, n1, mx);
                        lemma_fuel_mono(s, n1, mx, fuel_at(s, n1), (fc - 1) as nat);
                    }
                    match self.parse_array(lexer) {
                        Ok(value) => {
                            let ghost n2 = lexer.position();
                            let ghost old_values = values;
                            proof {
                                lemma_parse_canonical(s, n2, mx);
                                lemma_fuel_mono(s, n2, mx, fuel_at(s, n2), (fc - 1) as nat);
                            }
                            values.push(value);
                            proof {
                                lemma_items_model_push(
                                    old_values,
                                    values,
                                    values@[values@.len() - 1],
                                    0,
                                );
                                let here2 = spec_items(s, n2, mx, fuel_at(s, n2));
                                match here2 {
                                    ItemsParse::Items { items: rest, next } => {
                                        assert(items_model_from(old_values, 0) + (seq![
                                            value_model(values@[values@.len() - 1]),
                                        ] + rest) =~= items_model_from(values, 0) + rest);
                                    },
                                    _ => {},
                                }
                            }
                        },
                        Err(e) => {
                            return Err(e);
                        },
                    }
                },
                Ok((Token::EndArray, _span)) => {
                    proof {
                        match whole {
                            ItemsParse::Items { items: all, next } => {
                                assert(items_model_from(values, 0) + Seq::<ValModel>::empty()
                                    =~= items_model_from(values, 0));
                            },
                            _ => {},
                        }
                    }
                    return Ok(JsonValue::Array(values));
                },
                Ok((Token::StartObject, _span)) => {
                    let ghost n1 = lexer.position();
                    proof {
                        lemma_parse_canonical(s, n1, mx);
                        lemma_fuel_mono(s, n1, mx, fuel_at(s, n1), (fc - 1) as nat);
                    }
                    match self.parse_object(lexer) {
                        Ok(value) => {
                            let ghost n2 = lexer.position();
                            let ghost old_values = values;
                            proof {
                                lemma_parse_canonical(s, n2, mx);
                                lemma_fuel_mono(s, n2, mx, fuel_at(s, n2), (fc - 1) as nat);
                            }
                            values.push(value);
                            proof {
                                lemma_items_model_push(
                                    old_values,
                                    values,
                                    values@[values@.len() - 1],
                                    0,
                                );
                                let here2 = spec_items(s, n2, mx, fuel_at(s, n2));
                                match here2 {
                                    ItemsParse::Items { items: rest, next } => {
                                        assert(items_model_from(old_values, 0) + (seq![
                                            value_model(values@[values@.len() - 1]),
                                        ] + rest) =~= items_model_from(values, 0) + rest);
                                    },
                                    _ => {},
                                }
                            }
                        },
                        Err(e) => {
                            return Err(e);
                        },
                    }
                },
                Ok((Token::Str(text), _span)) => {
                    let ghost old_values = values;
                    values.push(JsonValue::String(text));
                    proof {
                        Self::lemma_array_scalar_step(s, cur, mx, old_values, values, whole);
                    }
                },
                Ok((Token::Float(text), _span)) => {
                    let ghost old_values = values;
                    values.push(JsonValue::Float(text));
                    proof {
                        Self::lemma_array_scalar_step(s, cur, mx, old_values, values, whole);
                    }
                },
                Ok((Token::Integer(value), _span)) => {
                    let ghost old_values = values;
                    values.push(JsonValue::Integer(value));
                    proof {
                        Self::lemma_array_scalar_step(s, cur, mx, old_values, values, whole);
                    }
                },
                Ok((Token::Boolean(value), _span)) => {
                    let ghost old_values = values;
                    values.push(JsonValue::Boolean(value));
                    proof {
                        Self::lemma_array_scalar_step(s, cur, mx, old_values, values, whole);
                    }
                },
                Ok((Token::Null, _span)) => {
                    let ghost old_values = values;
                    values.push(JsonValue::Null);
                    proof {
                        Self::lemma_array_scalar_step(s, cur, mx, old_values, values, whole);
                    }
                },
                Ok((Token::Comma, _span)) => {
                    proof {
                        let nx = lexer.position();
                        lemma_parse_canonical(s, nx, mx);
                        lemma_fuel_mono(s, nx, mx, fuel_at(s, nx), (fc - 1) as nat);
                    }
                },
                Ok((Token::EndOfInput, span)) => {
                    return Err(
                        ParserError {
                            source: ParserErrorSource::DomParser,
                            details: ParserErrorDetails::EndOfInput,
                            coords: Some(span.start),
                        },
                    );
                },
                Ok((_token, span)) => {
                    return Err(
                        ParserError {
                            source: ParserErrorSource::DomParser,
                            details: ParserErrorDetails::InvalidArray,
                            coords: Some(span.start),
                        },
                    );
                },
                Err(e) => {
                    return Err(e);
                },
            }
        }
    }

    /// One scalar element prepends its image onto the items that follow it:
    /// the bookkeeping shared by every scalar arm of the array loop.
    proof fn lemma_array_scalar_step(
        s: Seq<char>,
        cur: int,
        mx: bool,
        old_values: Vec<JsonValue>,
        values: Vec<JsonValue>,
        whole: ItemsParse,
    )
        requires
            0 <= cur <= s.len(),
            values@.len() >= 1,
            values@ == old_values@.push(values@[values@.len() - 1]),
            spec_consume(s, cur, mx) matches LexStep::Tok { token, start, end, next } && !(token
                is EndOfInput) && cur < next <= s.len(),
            ({
                let here = spec_items(s, cur, mx, fuel_at(s, cur));
                match here {
                    ItemsParse::Items { items: rest, next } => whole == (ItemsParse::Items {
                        items: items_model_from(old_values, 0) + rest,
                        next,
                    }),
                    ItemsParse::Fail { f } => whole == (ItemsParse::Fail { f }),
                    ItemsParse::Hang => true,
                }
            }),
            ({
                let st = spec_consume(s, cur, mx);
                st matches LexStep::Tok { token, start, end, next } && spec_items(
                    s,
                    cur,
                    mx,
                    fuel_at(s, cur),
                ) == spec_items_cons(
                    value_model(values@[values@.len() - 1]),
                    s,
                    next,
                    mx,
                    fuel_at(s, cur),
                )
            }),
        ensures
            ({
                let st = spec_consume(s, cur, mx);
                st matches LexStep::Tok { token, start, end, next } && ({
                    let here = spec_items(s, next, mx, fuel_at(s, next));
                    match here {
                        ItemsParse::Items { items: rest, next: nx } => whole == (ItemsParse::Items {
                            items: items_model_from(values, 0) + rest,
                            next: nx,
                        }),
                        ItemsParse::Fail { f } => whole == (ItemsParse::Fail { f }),
                        ItemsParse::Hang => true,
                    }
                })
            }),
    {
        reveal_with_fuel(spec_items_cons, 2);
        let st = spec_consume(s, cur, mx);
        match st {
            LexStep::Tok { token, start, end, next } => {
                let fc = fuel_at(s, cur);
                lemma_parse_canonical(s, next, mx);
                lemma_fuel_mono(s, next, mx, fuel_at(s, next), (fc - 1) as nat);
                lemma_items_model_push(old_values, values, values@[values@.len() - 1], 0);
                let here = spec_items(s, next, mx, fuel_at(s, next));
                match here {
                    ItemsParse::Items { items: rest, next: nx } => {
                        assert(items_model_from(old_values, 0) + (seq![
                            value_model(values@[values@.len() - 1]),
                        ] + rest) =~= items_model_from(values, 0) + rest);
                    },
                    _ => {},
                }
            },
            _ => {},
        }
    }
}

} // verus!
