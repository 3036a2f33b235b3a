//! The SAX parser: a recursive descent over the token stream that reports
//! structural and scalar matches as a stream of [`Event`]s, each carrying a
//! location span and, where one applies, the serialized structural pointer
//! of the position at which it was matched.
//!
//! Events arrive in strict document order: the parse is framed by a
//! `StartOfInput` event and the root's closing structural event, and the
//! spans attached to successive events never move backwards.
use crate::coords::{Coords, Span};
use crate::decoders::{decode_bytes, decode_str, Encoding};
use crate::errors::{ParserError, ParserErrorDetails, ParserErrorSource, ParserResult};
use crate::events::{
    events_monotone, events_within, lemma_events_concat, lemma_events_within_widen, Event, Match,
};
use crate::lexer::{
    coords_at, details_match, lemma_abs_is_pos, spec_consume, LexStep, Lexer, TokModel, Token,
};
use crate::parser::{
    fail_matches, fuel_at, items_done_matches, lemma_fuel_mono, lemma_parse_canonical,
    members_done_matches, spec_items, spec_items_cons, spec_members, spec_parse, spec_value,
    value_done_matches, ItemsParse, MembersParse, ValModel, ValueParse,
};
use crate::pointer::JsonPointer;
use vstd::prelude::*;
use vstd::string::StringSliceAdditionalSpecFns;
use vstd::utf8::{decode_utf8, valid_utf8};

verus! {

/// Whether a lexing outcome carries a token other than the two valid roots
/// of a JSON document.
pub open spec fn sax_bad_root(st: LexStep) -> bool {
    match st {
        LexStep::Tok { token, .. } => !(token is StartObject) && !(token is StartArray),
        LexStep::Fail { .. } => false,
    }
}

/// Main JSON parser struct.
pub struct Parser {
    /// The encoding expected of byte-oriented input
    encoding: Encoding,
}

impl Default for Parser {
    /// The default encoding is UTF-8.
    fn default() -> (r: Parser)
        ensures
            r.spec_encoding() == Encoding::Utf8,
    {
        Parser { encoding: Encoding::Utf8 }
    }
}

impl Parser {
    /// The encoding this parser expects of byte-oriented input.
    pub closed spec fn spec_encoding(self) -> Encoding {
        self.encoding
    }

    /// Create a new instance of the parser using a specific [`Encoding`].
    pub fn with_encoding(encoding: Encoding) -> (r: Parser)
        ensures
            r.spec_encoding() == encoding,
    {
        Parser { encoding }
    }

    /// The encoding this parser was configured with.
    pub fn encoding(&self) -> (r: Encoding)
        ensures
            r == self.spec_encoding(),
    {
        self.encoding
    }

    /// Parse a byte source, decoding it as UTF-8 first.  Empty input is
    /// rejected up front with `ZeroLengthInput`.
    pub fn parse_bytes(&self, bytes: &[u8]) -> (r: ParserResult<Vec<Event>>)
        requires
            bytes@.len() < usize::MAX,
        ensures
            bytes@.len() == 0 ==> (r matches Err(e) && e.source == ParserErrorSource::SaxParser
                && e.details == ParserErrorDetails::ZeroLengthInput && e.coords == Some(
                Coords::spec_start(),
            )),
            bytes@.len() > 0 && !valid_utf8(bytes@) ==> (r matches Err(e) && e.details
                == ParserErrorDetails::NonUtf8InputDetected),
            r matches Ok(evs) ==> (evs@.len() >= 3 && evs@[0].matched is StartOfInput && (
            evs@.last().matched is EndObject || evs@.last().matched is EndArray)
                && events_monotone(evs@)),
            bytes@.len() > 0 && valid_utf8(bytes@) ==> (spec_parse(decode_utf8(bytes@), true)
                matches ValueParse::Value { v, next } ==> r is Ok),
            bytes@.len() > 0 && valid_utf8(bytes@) ==> (spec_parse(decode_utf8(bytes@), true)
                matches ValueParse::Fail { f } ==> (r matches Err(e) && fail_matches(
                e,
                decode_utf8(bytes@),
                f,
                ParserErrorSource::SaxParser,
            ))),
    {
        if bytes.len() == 0 {
            return Err(
                ParserError {
                    source: ParserErrorSource::SaxParser,
                    details: ParserErrorDetails::ZeroLengthInput,
                    coords: Some(Coords::start()),
                },
            );
        }
        match decode_bytes(bytes, Encoding::Utf8) {
            Ok(chars) => self.parse(chars.as_slice()),
            Err(details) => Err(
                ParserError { source: ParserErrorSource::Lexer, details, coords: None },
            ),
        }
    }

    /// Parse a text source.  Empty input is rejected up front with
    /// `ZeroLengthInput`.
    pub fn parse_str(&self, text: &str) -> (r: ParserResult<Vec<Event>>)
        requires
            text@.len() < usize::MAX,
        ensures
            text@.len() == 0 ==> (r matches Err(e) && e.source == ParserErrorSource::SaxParser
                && e.details == ParserErrorDetails::ZeroLengthInput && e.coords == Some(
                Coords::spec_start(),
            )),
            text@.len() > 0 && sax_bad_root(spec_consume(text@, 0, true)) ==> (r matches Err(e)
                && e.source == ParserErrorSource::SaxParser && e.details
                == ParserErrorDetails::InvalidRootObject),
            r matches Ok(evs) ==> (evs@.len() >= 3 && evs@[0].matched is StartOfInput && (
            evs@.last().matched is EndObject || evs@.last().matched is EndArray)
                && events_monotone(evs@) && events_within(evs@, 0, text@.len() as int)),
            text@.len() > 0 ==> (spec_parse(text@, true) matches ValueParse::Value {
                v,
                next,
            } ==> r is Ok),
            text@.len() > 0 ==> (spec_parse(text@, true) matches ValueParse::Fail { f } ==> (r
                matches Err(e) && fail_matches(e, text@, f, ParserErrorSource::SaxParser))),
    {
        if text.is_empty() {
            return Err(
                ParserError {
                    source: ParserErrorSource::SaxParser,
                    details: ParserErrorDetails::ZeroLengthInput,
                    coords: Some(Coords::start()),
                },
            );
        }
        let chars = decode_str(text);
        self.parse(chars.as_slice())
    }

    /// Parse a sequence of decoded scalars into a stream of events in
    /// strict document order, framed by `StartOfInput` and the root's
    /// closing structural event.
    pub fn parse(&self, chars: &[char]) -> (r: ParserResult<Vec<Event>>)
        requires
            chars@.len() < usize::MAX,
        ensures
            sax_bad_root(spec_consume(chars@, 0, true)) ==> (r matches Err(e) && e.source
                == ParserErrorSource::SaxParser && e.details
                == ParserErrorDetails::InvalidRootObject),
            (spec_consume(chars@, 0, true) matches LexStep::Fail { err, at } ==> (r matches Err(e)
                && e.source == ParserErrorSource::Lexer && details_match(e.details, err)
                && e.coords == Some(coords_at(chars@, at)))),
            r matches Ok(evs) ==> (evs@.len() >= 3 && evs@[0].matched is StartOfInput && (
            evs@.last().matched is EndObject || evs@.last().matched is EndArray)
                && events_monotone(evs@) && events_within(evs@, 0, chars@.len() as int)),
            (r matches Ok(evs) && evs@.last().matched is EndObject) ==> (spec_consume(
                chars@,
                0,
                true,
            ) matches LexStep::Tok { token: TokModel::StartObject, .. }),
            (r matches Ok(evs) && evs@.last().matched is EndArray) ==> (spec_consume(
                chars@,
                0,
                true,
            ) matches LexStep::Tok { token: TokModel::StartArray, .. }),
            (spec_parse(chars@, true) matches ValueParse::Value { v, next } ==> r is Ok),
            (spec_parse(chars@, true) matches ValueParse::Fail { f } ==> (r matches Err(e)
                && fail_matches(e, chars@, f, ParserErrorSource::SaxParser))),
    {
        let (events, failure) = self.parse_partial(chars);
        match failure {
            None => Ok(events),
            Some(e) => Err(e),
        }
    }

    /// Parse a sequence of decoded scalars, keeping whatever events were
    /// emitted before a failure: the parse runs to completion or to first
    /// error, and the returned stream holds everything matched up to that
    /// point, in document order.
    pub fn parse_partial(&self, chars: &[char]) -> (r: (Vec<Event>, Option<ParserError>))
        requires
            chars@.len() < usize::MAX,
        ensures
            events_monotone(r.0@),
            events_within(r.0@, 0, chars@.len() as int),
            sax_bad_root(spec_consume(chars@, 0, true)) ==> (r.1 matches Some(e) && e.source
                == ParserErrorSource::SaxParser && e.details
                == ParserErrorDetails::InvalidRootObject),
            (spec_consume(chars@, 0, true) matches LexStep::Fail { err, at } ==> (r.1
                matches Some(e) && e.source == ParserErrorSource::Lexer && details_match(
                e.details,
                err,
            ) && e.coords == Some(coords_at(chars@, at)))),
            r.1 is None ==> (r.0@.len() >= 3 && r.0@[0].matched is StartOfInput && (
            r.0@.last().matched is EndObject || r.0@.last().matched is EndArray)),
            (r.1 is None && r.0@.last().matched is EndObject) ==> (spec_consume(
                chars@,
                0,
                true,
            ) matches LexStep::Tok { token: TokModel::StartObject, .. }),
            (r.1 is None && r.0@.last().matched is EndArray) ==> (spec_consume(
                chars@,
                0,
                true,
            ) matches LexStep::Tok { token: TokModel::StartArray, .. }),
            (spec_parse(chars@, true) matches ValueParse::Value { v, next } ==> r.1 is None),
            (spec_parse(chars@, true) matches ValueParse::Fail { f } ==> (r.1 matches Some(e)
                && fail_matches(e, chars@, f, ParserErrorSource::SaxParser))),
    {
        let mut events: Vec<Event> = Vec::new();
        let mut pointer = JsonPointer::default();
        let mut lexer = Lexer::new(chars);
        let ghost s = chars@;
        match lexer.consume() {
            Ok((Token::StartObject, span)) => {
                proof {
                    lemma_abs_is_pos(lexer);
                    lemma_parse_canonical(s, lexer.position(), true);
                }
                events.push(Event { matched: Match::StartOfInput, span, pointer: None });
                let root_pointer = pointer.as_str();
                events.push(
                    Event { matched: Match::StartObject, span, pointer: Some(root_pointer) },
                );
                let ghost evs2 = events@;
                let ghost mid = lexer.cur_coords().absolute as int;
                proof {
                    assert(events_monotone(evs2));
                    assert(events_within(evs2, 0, mid));
                }
                let failure = match self.parse_object(&mut lexer, &mut pointer, &mut events) {
                    Ok(()) => None,
                    Err(e) => Some(e),
                };
                proof {
                    lemma_abs_is_pos(lexer);
                    lemma_events_concat(
                        evs2,
                        events@.skip(2),
                        0,
                        mid,
                        lexer.cur_coords().absolute as int,
                    );
                    assert(events@ =~= evs2 + events@.skip(2));
                    assert(events@[0] == evs2[0]);
                    lemma_events_within_widen(
                        events@,
                        0,
                        lexer.cur_coords().absolute as int,
                        0,
                        s.len() as int,
                    );
                    if failure is None {
                        assert(events@.last().matched is EndObject);
                    }
                }
                (events, failure)
            },
            Ok((Token::StartArray, span)) => {
                proof {
                    lemma_abs_is_pos(lexer);
                    lemma_parse_canonical(s, lexer.position(), true);
                }
                let first_pointer = pointer.as_str();
                events.push(
                    Event { matched: Match::StartOfInput, span, pointer: Some(first_pointer) },
                );
                let root_pointer = pointer.as_str();
                events.push(
                    Event { matched: Match::StartArray, span, pointer: Some(root_pointer) },
                );
                let ghost evs2 = events@;
                let ghost mid = lexer.cur_coords().absolute as int;
                proof {
                    assert(events_monotone(evs2));
                    assert(events_within(evs2, 0, mid));
                }
                let failure = match self.parse_array(&mut lexer, &mut pointer, &mut events) {
                    Ok(()) => None,
                    Err(e) => Some(e),
                };
                proof {
                    lemma_abs_is_pos(lexer);
                    lemma_events_concat(
                        evs2,
                        events@.skip(2),
                        0,
                        mid,
                        lexer.cur_coords().absolute as int,
                    );
                    assert(events@ =~= evs2 + events@.skip(2));
                    assert(events@[0] == evs2[0]);
                    lemma_events_within_widen(
                        events@,
                        0,
                        lexer.cur_coords().absolute as int,
                        0,
                        s.len() as int,
                    );
                    if failure is None {
                        assert(events@.last().matched is EndArray);
                    }
                }
                (events, failure)
            },
            Ok((_token, span)) => {
                proof {
                    assert(events_monotone(events@));
                    assert(events_within(events@, 0, s.len() as int));
                }
                (
                    events,
                    Some(
                        ParserError {
                            source: ParserErrorSource::SaxParser,
                            details: ParserErrorDetails::InvalidRootObject,
                            coords: Some(span.start),
                        },
                    ),
                )
            },
            Err(e) => {
                proof {
                    assert(events_monotone(events@));
                    assert(events_within(events@, 0, s.len() as int));
                }
                (events, Some(e))
            },
        }
    }

    /// Parse a single value, emitting its events.
    #[verifier::rlimit(100)]
    #[verifier::spinoff_prover]
    fn parse_value(&self, lexer: &mut Lexer, pointer: &mut JsonPointer, events: &mut Vec<Event>) -> (r:
        ParserResult<()>)
        requires
            old(lexer).wf(),
        ensures
            final(lexer).wf(),
            final(lexer).input() == old(lexer).input(),
            final(lexer).mixed() == old(lexer).mixed(),
            old(lexer).position() <= final(lexer).position(),
            final(events)@.len() >= old(events)@.len(),
            final(events)@.subrange(0, old(events)@.len() as int) == old(events)@,
            events_within(
                final(events)@.skip(old(events)@.len() as int),
                old(lexer).cur_coords().absolute as int,
                final(lexer).cur_coords().absolute as int,
            ),
            events_monotone(final(events)@.skip(old(events)@.len() as int)),
            value_done_matches(
                r,
                old(lexer).input(),
                spec_value(
                    old(lexer).input(),
                    old(lexer).position(),
                    old(lexer).mixed(),
                    fuel_at(old(lexer).input(), old(lexer).position()),
                ),
                ParserErrorSource::SaxParser,
            ),
            (spec_value(
                old(lexer).input(),
                old(lexer).position(),
                old(lexer).mixed(),
                fuel_at(old(lexer).input(), old(lexer).position()),
            ) matches ValueParse::Value { v, next } ==> final(lexer).position() == next),
        decreases old(lexer).input().len() - old(lexer).position(), 2int,
    {
        let ghost base = old(events)@;
        let ghost lo = old(lexer).cur_coords().absolute as int;
        let ghost s = old(lexer).input();
        let ghost p0 = old(lexer).position();
        let ghost mx = old(lexer).mixed();
        let ghost f = fuel_at(s, p0);
        match lexer.consume() {
            Ok((Token::StartObject, span)) => {
                let here = pointer.as_str();
                let ghost mid = lexer.cur_coords().absolute as int;
                events.push(Event { matched: Match::StartObject, span, pointer: Some(here) });
                let ghost evs1 = events@;
                proof {
                    lemma_parse_canonical(s, lexer.position(), mx);
                    lemma_fuel_mono(
                        s,
                        lexer.position(),
                        mx,
                        fuel_at(s, lexer.position()),
                        (f - 1) as nat,
                    );
                }
                let r = self.parse_object(lexer, pointer, events);
                proof {
                    assert(events@[base.len() as int] == events@.subrange(0, evs1.len() as int)[base.len() as int]);
                    assert(events@[base.len() as int].span == span);
                    assert(events@.skip(evs1.len() as int) == events@.skip(base.len() as int + 1));
                    lemma_abs_is_pos(*lexer);
                    assert(base.len() as int + 1 <= events@.len());
                    assert(lo <= span.start.absolute);
                    assert(span.start.absolute <= span.end.absolute);
                    assert(span.end.absolute <= mid);
                    assert(mid <= lexer.cur_coords().absolute as int);
                    assert(events_within(
                        events@.skip(base.len() as int + 1),
                        mid,
                        lexer.cur_coords().absolute as int,
                    ));
                    assert(events_monotone(events@.skip(base.len() as int + 1)));
                    Self::lemma_one_then_rest(events@, base, span, lo, mid, lexer.cur_coords().absolute as int);
                }
                r
            },
            Ok((Token::StartArray, span)) => {
                let here = pointer.as_str();
                let ghost mid = lexer.cur_coords().absolute as int;
                events.push(Event { matched: Match::StartArray, span, pointer: Some(here) });
                let ghost evs1 = events@;
                proof {
                    lemma_parse_canonical(s, lexer.position(), mx);
                    lemma_fuel_mono(
                        s,
                        lexer.position(),
                        mx,
                        fuel_at(s, lexer.position()),
                        (f - 1) as nat,
                    );
                }
                let r = self.parse_array(lexer, pointer, events);
                proof {
                    assert(events@[base.len() as int] == events@.subrange(0, evs1.len() as int)[base.len() as int]);
                    assert(events@[base.len() as int].span == span);
                    assert(events@.skip(evs1.len() as int) == events@.skip(base.len() as int + 1));
                    lemma_abs_is_pos(*lexer);
                    assert(base.len() as int + 1 <= events@.len());
                    assert(lo <= span.start.absolute);
                    assert(span.start.absolute <= span.end.absolute);
                    assert(span.end.absolute <= mid);
                    assert(mid <= lexer.cur_coords().absolute as int);
                    assert(events_within(
                        events@.skip(base.len() as int + 1),
                        mid,
                        lexer.cur_coords().absolute as int,
                    ));
                    assert(events_monotone(events@.skip(base.len() as int + 1)));
                    Self::lemma_one_then_rest(events@, base, span, lo, mid, lexer.cur_coords().absolute as int);
                }
                r
            },
            Ok((Token::Str(text), span)) => {
                let here = pointer.as_str();
                events.push(Event { matched: Match::String(text), span, pointer: Some(here) });
                proof {
                    assert(events@.skip(base.len() as int) =~= seq![events@.last()]);
                }
                Ok(())
            },
            Ok((Token::Float(text), span)) => {
                let here = pointer.as_str();
                events.push(Event { matched: Match::Float(text), span, pointer: Some(here) });
                proof {
                    assert(events@.skip(base.len() as int) =~= seq![events@.last()]);
                }
                Ok(())
            },
            Ok((Token::Integer(value), span)) => {
                let here = pointer.as_str();
                events.push(Event { matched: Match::Integer(value), span, pointer: Some(here) });
                proof {
                    assert(events@.skip(base.len() as int) =~= seq![events@.last()]);
                }
                Ok(())
            },
            Ok((Token::Boolean(value), span)) => {
                let here = pointer.as_str();
                events.push(Event { matched: Match::Boolean(value), span, pointer: Some(here) });
                proof {
                    assert(events@.skip(base.len() as int) =~= seq![events@.last()]);
                }
                Ok(())
            },
            Ok((Token::Null, span)) => {
                let here = pointer.as_str();
                events.push(Event { matched: Match::Null, span, pointer: Some(here) });
                proof {
                    assert(events@.skip(base.len() as int) =~= seq![events@.last()]);
                }
                Ok(())
            },
            Ok((Token::EndOfInput, span)) => Err(
                ParserError {
                    source: ParserErrorSource::SaxParser,
                    details: ParserErrorDetails::EndOfInput,
                    coords: Some(span.start),
                },
            ),
            Ok((token, span)) => Err(
                ParserError {
                    source: ParserErrorSource::SaxParser,
                    details: ParserErrorDetails::UnexpectedToken(token),
                    coords: Some(span.start),
                },
            ),
            Err(e) => Err(e),
        }
    }

    /// An object is just a list of comma separated KV pairs.  Each key is
    /// pushed onto the pointer before its `ObjectKey` event is emitted, and
    /// popped once the corresponding value has been parsed.
    #[verifier::loop_isolation(false)]
    #[verifier::rlimit(100)]
    #[verifier::spinoff_prover]
    fn parse_object(
        &self,
        lexer: &mut Lexer,
        pointer: &mut JsonPointer,
        events: &mut Vec<Event>,
    ) -> (r: ParserResult<()>)
        requires
            old(lexer).wf(),
        ensures
            final(lexer).wf(),
            final(lexer).input() == old(lexer).input(),
            final(lexer).mixed() == old(lexer).mixed(),
            old(lexer).position() <= final(lexer).position(),
            final(events)@.len() >= old(events)@.len(),
            final(events)@.subrange(0, old(events)@.len() as int) == old(events)@,
            events_within(
                final(events)@.skip(old(events)@.len() as int),
                old(lexer).cur_coords().absolute as int,
                final(lexer).cur_coords().absolute as int,
            ),
            events_monotone(final(events)@.skip(old(events)@.len() as int)),
            r is Ok ==> (final(events)@.len() > old(events)@.len()
                && final(events)@.last().matched is EndObject),
            members_done_matches(
                r,
                old(lexer).input(),
                spec_members(
                    old(lexer).input(),
                    old(lexer).position(),
                    old(lexer).mixed(),
                    fuel_at(old(lexer).input(), old(lexer).position()),
                ),
                ParserErrorSource::SaxParser,
            ),
            (spec_members(
                old(lexer).input(),
                old(lexer).position(),
                old(lexer).mixed(),
                fuel_at(old(lexer).input(), old(lexer).position()),
            ) matches MembersParse::Members { pairs, next } ==> final(lexer).position() == next),
        decreases old(lexer).input().len() - old(lexer).position(), 1int,
    {
        let ghost base = old(events)@;
        let ghost lo = old(lexer).cur_coords().absolute as int;
        let ghost s = old(lexer).input();
        let ghost mx = old(lexer).mixed();
        let ghost whole = spec_members(s, old(lexer).position(), mx, fuel_at(s, old(lexer).position()));
        proof {
            lemma_abs_is_pos(*old(lexer));
            assert(events@.subrange(0, base.len() as int) =~= base);
            assert(events@.skip(base.len() as int) =~= Seq::<Event>::empty());
        }
        loop
            invariant
                lexer.wf(),
                lexer.input() == old(lexer).input(),
                lexer.mixed() == old(lexer).mixed(),
                old(lexer).position() <= lexer.position(),
                lo <= lexer.cur_coords().absolute as int,
                lexer.cur_coords().absolute == lexer.position(),
                events@.len() >= base.len(),
                events@.subrange(0, base.len() as int) == base,
                events_within(
                    events@.skip(base.len() as int),
                    lo,
                    lexer.cur_coords().absolute as int,
                ),
                events_monotone(events@.skip(base.len() as int)),
                ({
                    let here = spec_members(s, lexer.position(), mx, fuel_at(s, lexer.position()));
                    &&& (here matches MembersParse::Members { pairs, next } ==> (whole
                        matches MembersParse::Members { pairs: wp, next: wn } && wn == next))
                    &&& (here matches MembersParse::Fail { f } ==> whole == (MembersParse::Fail {
                        f,
                    }))
                }),
            decreases lexer.input().len() - lexer.position(),
        {
            let ghost a = lexer.cur_coords().absolute as int;
            let ghost evs0 = events@;
            let ghost cur = lexer.position();
            let ghost fc = fuel_at(s, cur);
            proof {
                lemma_parse_canonical(s, cur, mx);
            }
            match lexer.consume() {
                Ok((Token::Str(key), span)) => {
                    proof {
                        lemma_abs_is_pos(*lexer);
                    }
                    let key_for_pointer = key.clone();
                    pointer.push_name(key_for_pointer);
                    let here = pointer.as_str();
                    events.push(Event { matched: Match::ObjectKey(key), span, pointer: Some(here) });
                    proof {
                        Self::lemma_emit_step(
                            evs0,
                            events@,
                            base,
                            events@.last(),
                            lo,
                            a,
                            lexer.cur_coords().absolute as int,
                        );
                    }
                    let ghost evs1 = events@;
                    match lexer.consume() {
                        Ok((Token::Colon, _colon_span)) => {
                            proof {
                                lemma_abs_is_pos(*lexer);
                            }
                            let ghost b = lexer.cur_coords().absolute as int;
                            proof {
                                assert(events_within(events@.skip(base.len() as int), lo, b));
                                lemma_parse_canonical(s, lexer.position(), mx);
                                lemma_fuel_mono(
                                    s,
                                    lexer.position(),
                                    mx,
                                    fuel_at(s, lexer.position()),
                                    (fc - 1) as nat,
                                );
                            }
                            let ghost n2 = lexer.position();
                            match self.parse_value(lexer, pointer, events) {
                                Ok(()) => {
                                    let _ = pointer.pop();
                                    proof {
                                        lemma_abs_is_pos(*lexer);
                                        Self::lemma_child_step(
                                            evs1,
                                            events@,
                                            base,
                                            lo,
                                            b,
                                            lexer.cur_coords().absolute as int,
                                        );
                                        lemma_parse_canonical(s, lexer.position(), mx);
                                        lemma_fuel_mono(
                                            s,
                                            lexer.position(),
                                            mx,
                                            fuel_at(s, lexer.position()),
                                            (fc - 1) as nat,
                                        );
                                    }
                                },
                                Err(e) => {
                                    proof {
                                        lemma_abs_is_pos(*lexer);
                                        Self::lemma_child_step(
                                            evs1,
                                            events@,
                                            base,
                                            lo,
                                            b,
                                            lexer.cur_coords().absolute as int,
                                        );
                                    }
                                    return Err(e);
                                },
                            }
                        },
                        Ok((_token, colon_span)) => {
                            return Err(
                                ParserError {
                                    source: ParserErrorSource::SaxParser,
                                    details: ParserErrorDetails::PairExpected,
                                    coords: Some(colon_span.start),
                                },
                            );
                        },
                        Err(e) => {
                            return Err(e);
                        },
                    }
                },
                Ok((Token::Comma, _span)) => {
                    proof {
                        lemma_parse_canonical(s, lexer.position(), mx);
                        lemma_fuel_mono(
                            s,
                            lexer.position(),
                            mx,
                            fuel_at(s, lexer.position()),
                            (fc - 1) as nat,
                        );
                    }
                },
                Ok((Token::EndObject, span)) => {
                    proof {
                        lemma_abs_is_pos(*lexer);
                    }
                    let here = pointer.as_str();
                    events.push(Event { matched: Match::EndObject, span, pointer: Some(here) });
                    proof {
                        Self::lemma_emit_step(
                            evs0,
                            events@,
                            base,
                            events@.last(),
                            lo,
                            a,
                            lexer.cur_coords().absolute as int,
                        );
                    }
                    return Ok(());
                },
                Ok((Token::EndOfInput, span)) => {
                    return Err(
                        ParserError {
                            source: ParserErrorSource::SaxParser,
                            details: ParserErrorDetails::EndOfInput,
                            coords: Some(span.start),
                        },
                    );
                },
                Ok((_token, span)) => {
                    return Err(
                        ParserError {
                            source: ParserErrorSource::SaxParser,
                            details: ParserErrorDetails::InvalidObject,
                            coords: Some(span.start),
                        },
                    );
                },
                Err(e) => {
                    return Err(e);
                },
            }
            proof {
                lemma_abs_is_pos(*lexer);
            }
        }
    }

    /// An array is just a list of comma separated values.  The element
    /// index is pushed onto the pointer ahead of each element and popped
    /// after it; the index advances on each comma.
    #[verifier::loop_isolation(false)]
    #[verifier::rlimit(100)]
    #[verifier::spinoff_prover]
    fn parse_array(
        &self,
        lexer: &mut Lexer,
        pointer: &mut JsonPointer,
        events: &mut Vec<Event>,
    ) -> (r: ParserResult<()>)
        requires
            old(lexer).wf(),
        ensures
            final(lexer).wf(),
            final(lexer).input() == old(lexer).input(),
            final(lexer).mixed() == old(lexer).mixed(),
            old(lexer).position() <= final(lexer).position(),
            final(events)@.len() >= old(events)@.len(),
            final(events)@.subrange(0, old(events)@.len() as int) == old(events)@,
            events_within(
                final(events)@.skip(old(events)@.len() as int),
                old(lexer).cur_coords().absolute as int,
                final(lexer).cur_coords().absolute as int,
            ),
            events_monotone(final(events)@.skip(old(events)@.len() as int)),
            r is Ok ==> (final(events)@.len() > old(events)@.len()
                && final(events)@.last().matched is EndArray),
            items_done_matches(
                r,
                old(lexer).input(),
                spec_items(
                    old(lexer).input(),
                    old(lexer).position(),
                    old(lexer).mixed(),
                    fuel_at(old(lexer).input(), old(lexer).position()),
                ),
                ParserErrorSource::SaxParser,
            ),
            (spec_items(
                old(lexer).input(),
                old(lexer).position(),
                old(lexer).mixed(),
                fuel_at(old(lexer).input(), old(lexer).position()),
            ) matches ItemsParse::Items { items, next } ==> final(lexer).position() == next),
        decreases old(lexer).input().len() - old(lexer).position(), 1int,
    {
        let ghost base = old(events)@;
        let ghost lo = old(lexer).cur_coords().absolute as int;
        let ghost s = old(lexer).input();
        let ghost mx = old(lexer).mixed();
        let ghost whole = spec_items(s, old(lexer).position(), mx, fuel_at(s, old(lexer).position()));
        proof {
            lemma_abs_is_pos(*old(lexer));
            assert(events@.subrange(0, base.len() as int) =~= base);
            assert(events@.skip(base.len() as int) =~= Seq::<Event>::empty());
        }
        let mut index: usize = 0;
        loop
            invariant
                lexer.wf(),
                lexer.input() == old(lexer).input(),
                lexer.mixed() == old(lexer).mixed(),
                old(lexer).position() <= lexer.position(),
                lo <= lexer.cur_coords().absolute as int,
                lexer.cur_coords().absolute == lexer.position(),
                index as int <= lexer.position(),
                events@.len() >= base.len(),
                events@.subrange(0, base.len() as int) == base,
                events_within(
                    events@.skip(base.len() as int),
                    lo,
                    lexer.cur_coords().absolute as int,
                ),
                events_monotone(events@.skip(base.len() as int)),
                ({
                    let here = spec_items(s, lexer.position(), mx, fuel_at(s, lexer.position()));
                    &&& (here matches ItemsParse::Items { items, next } ==> (whole
                        matches ItemsParse::Items { items: wi, next: wn } && wn == next))
                    &&& (here matches ItemsParse::Fail { f } ==> whole == (ItemsParse::Fail { f }))
                }),
            decreases lexer.input().len() - lexer.position(),
        {
            let ghost a = lexer.cur_coords().absolute as int;
            let ghost evs0 = events@;
            let ghost cur = lexer.position();
            let ghost fc = fuel_at(s, cur);
            proof {
                lemma_parse_canonical(s, cur, mx);
                reveal_with_fuel(spec_items_cons, 2);
            }
            pointer.push_index(index);
            match lexer.consume() {
                Ok((Token::StartArray, span)) => {
                    proof {
                        lemma_abs_is_pos(*lexer);
                        lemma_parse_canonical(s, lexer.position(), mx);
                        lemma_fuel_mono(
                            s,
                            lexer.position(),
                            mx,
                            fuel_at(s, lexer.position()),
                            (fc - 1) as nat,
                        );
                    }
                    let here = pointer.as_str();
                    events.push(Event { matched: Match::StartArray, span, pointer: Some(here) });
                    proof {
                        Self::lemma_emit_step(
                            evs0,
                            events@,
                            base,
                            events@.last(),
                            lo,
                            a,
                            lexer.cur_coords().absolute as int,
                        );
                    }
                    let ghost evs1 = events@;
                    let ghost b = lexer.cur_coords().absolute as int;
                    match self.parse_array(lexer, pointer, events) {
                        Ok(()) => {
                            proof {
                                lemma_abs_is_pos(*lexer);
                                Self::lemma_child_step(
                                            evs1,
                                            events@,
                                            base,
                                            lo,
                                            b,
                                            lexer.cur_coords().absolute as int,
                                        );
                                lemma_parse_canonical(s, lexer.position(), mx);
                                lemma_fuel_mono(
                                    s,
                                    lexer.position(),
                                    mx,
                                    fuel_at(s, lexer.position()),
                                    (fc - 1) as nat,
                                );
                            }
                        },
                        Err(e) => {
                            proof {
                                lemma_abs_is_pos(*lexer);
                                Self::lemma_child_step(
                                            evs1,
                                            events@,
                                            base,
                                            lo,
                                            b,
                                            lexer.cur_coords().absolute as int,
                                        );
                                lemma_parse_canonical(s, lexer.position(), mx);
                                lemma_fuel_mono(
                                    s,
                                    lexer.position(),
                                    mx,
                                    fuel_at(s, lexer.position()),
                                    (fc - 1) as nat,
                                );
                            }
                            return Err(e);
                        },
                    }
                },
                Ok((Token::EndArray, span)) => {
                    proof {
                        lemma_abs_is_pos(*lexer);
                    }
                    let _ = pointer.pop();
                    let here = pointer.as_str();
                    events.push(Event { matched: Match::EndArray, span, pointer: Some(here) });
                    proof {
                        Self::lemma_emit_step(
                            evs0,
                            events@,
                            base,
                            events@.last(),
                            lo,
                            a,
                            lexer.cur_coords().absolute as int,
                        );
                    }
                    return Ok(());
                },
                Ok((Token::StartObject, span)) => {
                    proof {
                        lemma_abs_is_pos(*lexer);
                        lemma_parse_canonical(s, lexer.position(), mx);
                        lemma_fuel_mono(
                            s,
                            lexer.position(),
                            mx,
                            fuel_at(s, lexer.position()),
                            (fc - 1) as nat,
                        );
                    }
                    let here = pointer.as_str();
                    events.push(Event { matched: Match::StartObject, span, pointer: Some(here) });
                    proof {
                        Self::lemma_emit_step(
                            evs0,
                            events@,
                            base,
                            events@.last(),
                            lo,
                            a,
                            lexer.cur_coords().absolute as int,
                        );
                    }
                    let ghost evs1 = events@;
                    let ghost b = lexer.cur_coords().absolute as int;
                    match self.parse_object(lexer, pointer, events) {
                        Ok(()) => {
                            proof {
                                lemma_abs_is_pos(*lexer);
                                Self::lemma_child_step(
                                            evs1,
                                            events@,
                                            base,
                                            lo,
                                            b,
                                            lexer.cur_coords().absolute as int,
                                        );
                                lemma_parse_canonical(s, lexer.position(), mx);
                                lemma_fuel_mono(
                                    s,
                                    lexer.position(),
                                    mx,
                                    fuel_at(s, lexer.position()),
                                    (fc - 1) as nat,
                                );
                            }
                        },
                        Err(e) => {
                            proof {
                                lemma_abs_is_pos(*lexer);
                                Self::lemma_child_step(
                                            evs1,
                                            events@,
                                            base,
                                            lo,
                                            b,
                                            lexer.cur_coords().absolute as int,
                                        );
                                lemma_parse_canonical(s, lexer.position(), mx);
                                lemma_fuel_mono(
                                    s,
                                    lexer.position(),
                                    mx,
                                    fuel_at(s, lexer.position()),
                                    (fc - 1) as nat,
                                );
                            }
                            return Err(e);
                        },
                    }
                },
                Ok((Token::Str(text), span)) => {
                    let ghost tm = text@;
                    proof {
                        lemma_abs_is_pos(*lexer);
                    }
                    let here = pointer.as_str();
                    events.push(Event { matched: Match::String(text), span, pointer: Some(here) });
                    proof {
                        Self::lemma_emit_step(
                            evs0,
                            events@,
                            base,
                            events@.last(),
                            lo,
                            a,
                            lexer.cur_coords().absolute as int,
                        );
                                                assert(spec_items(s, cur, mx, fuel_at(s, cur)) == spec_items_cons(
                            ValModel::Str(tm),
                            s,
                            lexer.position(),
                            mx,
                            fuel_at(s, cur),
                        ));
                        Self::lemma_items_unit_scalar(s, cur, mx, whole);
                    }
                },
                Ok((Token::Float(text), span)) => {
                    let ghost tm = text@;
                    proof {
                        lemma_abs_is_pos(*lexer);
                    }
                    let here = pointer.as_str();
                    events.push(Event { matched: Match::Float(text), span, pointer: Some(here) });
                    proof {
                        Self::lemma_emit_step(
                            evs0,
                            events@,
                            base,
                            events@.last(),
                            lo,
                            a,
                            lexer.cur_coords().absolute as int,
                        );
                                                assert(spec_items(s, cur, mx, fuel_at(s, cur)) == spec_items_cons(
                            ValModel::Float(tm),
                            s,
                            lexer.position(),
                            mx,
                            fuel_at(s, cur),
                        ));
                        Self::lemma_items_unit_scalar(s, cur, mx, whole);
                    }
                },
                Ok((Token::Integer(value), span)) => {
                    proof {
                        lemma_abs_is_pos(*lexer);
                    }
                    let here = pointer.as_str();
                    events.push(Event { matched: Match::Integer(value), span, pointer: Some(here) });
                    proof {
                        Self::lemma_emit_step(
                            evs0,
                            events@,
                            base,
                            events@.last(),
                            lo,
                            a,
                            lexer.cur_coords().absolute as int,
                        );
                                                assert(spec_items(s, cur, mx, fuel_at(s, cur)) == spec_items_cons(
                            ValModel::Integer(value as int),
                            s,
                            lexer.position(),
                            mx,
                            fuel_at(s, cur),
                        ));
                        Self::lemma_items_unit_scalar(s, cur, mx, whole);
                    }
                },
                Ok((Token::Boolean(value), span)) => {
                    proof {
                        lemma_abs_is_pos(*lexer);
                    }
                    let here = pointer.as_str();
                    events.push(Event { matched: Match::Boolean(value), span, pointer: Some(here) });
                    proof {
                        Self::lemma_emit_step(
                            evs0,
                            events@,
                            base,
                            events@.last(),
                            lo,
                            a,
                            lexer.cur_coords().absolute as int,
                        );
                                                assert(spec_items(s, cur, mx, fuel_at(s, cur)) == spec_items_cons(
                            ValModel::Boolean(value),
                            s,
                            lexer.position(),
                            mx,
                            fuel_at(s, cur),
                        ));
                        Self::lemma_items_unit_scalar(s, cur, mx, whole);
                    }
                },
                Ok((Token::Null, span)) => {
                    proof {
                        lemma_abs_is_pos(*lexer);
                    }
                    let here = pointer.as_str();
                    events.push(Event { matched: Match::Null, span, pointer: Some(here) });
                    proof {
                        Self::lemma_emit_step(
                            evs0,
                            events@,
                            base,
                            events@.last(),
                            lo,
                            a,
                            lexer.cur_coords().absolute as int,
                        );
                                                assert(spec_items(s, cur, mx, fuel_at(s, cur)) == spec_items_cons(
                            ValModel::Null,
                            s,
                            lexer.position(),
                            mx,
                            fuel_at(s, cur),
                        ));
                        Self::lemma_items_unit_scalar(s, cur, mx, whole);
                    }
                },
                Ok((Token::Comma, _span)) => {
                    index = index + 1;
                    proof {
                        lemma_parse_canonical(s, lexer.position(), mx);
                        lemma_fuel_mono(
                            s,
                            lexer.position(),
                            mx,
                            fuel_at(s, lexer.position()),
                            (fc - 1) as nat,
                        );
                    }
                },
                Ok((Token::EndOfInput, span)) => {
                    return Err(
                        ParserError {
                            source: ParserErrorSource::SaxParser,
                            details: ParserErrorDetails::EndOfInput,
                            coords: Some(span.start),
                        },
                    );
                },
                Ok((_token, span)) => {
                    return Err(
                        ParserError {
                            source: ParserErrorSource::SaxParser,
                            details: ParserErrorDetails::InvalidArray,
                            coords: Some(span.start),
                        },
                    );
                },
                Err(e) => {
                    return Err(e);
                },
            }
            let _ = pointer.pop();
            proof {
                lemma_abs_is_pos(*lexer);
            }
        }
    }

    /// Appending one event whose span sits between the previous and the
    /// current read position preserves the stream's prefix, bounds and
    /// order.
    proof fn lemma_emit_step(
        prev: Seq<Event>,
        now: Seq<Event>,
        base: Seq<Event>,
        e: Event,
        lo: int,
        a: int,
        hi: int,
    )
        requires
            now == prev.push(e),
            base.len() <= prev.len(),
            prev.subrange(0, base.len() as int) == base,
            events_within(prev.skip(base.len() as int), lo, a),
            events_monotone(prev.skip(base.len() as int)),
            lo <= a,
            a <= hi,
            a <= e.span.start.absolute,
            e.span.start.absolute <= e.span.end.absolute,
            e.span.end.absolute <= hi,
        ensures
            now.subrange(0, base.len() as int) == base,
            events_within(now.skip(base.len() as int), lo, hi),
            events_monotone(now.skip(base.len() as int)),
            now.len() == prev.len() + 1,
            now.last() == e,
    {
        assert(now.skip(base.len() as int) =~= prev.skip(base.len() as int) + seq![e]);
        lemma_events_concat(prev.skip(base.len() as int), seq![e], lo, a, hi);
        assert(now.subrange(0, base.len() as int) =~= base);
    }

    /// A child's appended event stream concatenates onto the events already
    /// emitted, preserving prefix, bounds and order.
    proof fn lemma_child_step(
        mid: Seq<Event>,
        now: Seq<Event>,
        base: Seq<Event>,
        lo: int,
        b: int,
        hi: int,
    )
        requires
            base.len() <= mid.len() <= now.len(),
            now.subrange(0, mid.len() as int) == mid,
            mid.subrange(0, base.len() as int) == base,
            events_within(mid.skip(base.len() as int), lo, b),
            events_monotone(mid.skip(base.len() as int)),
            events_within(now.skip(mid.len() as int), b, hi),
            events_monotone(now.skip(mid.len() as int)),
            lo <= b,
            b <= hi,
        ensures
            now.subrange(0, base.len() as int) == base,
            events_within(now.skip(base.len() as int), lo, hi),
            events_monotone(now.skip(base.len() as int)),
    {
        assert(now.skip(base.len() as int) =~= mid.skip(base.len() as int) + now.skip(
            mid.len() as int,
        ));
        lemma_events_concat(
            mid.skip(base.len() as int),
            now.skip(mid.len() as int),
            lo,
            b,
            hi,
        );
        assert(now.subrange(0, base.len() as int) =~= base);
    }

    /// One scalar element of an array hands the rest of the items on
    /// unchanged: the bookkeeping shared by every scalar arm of the array
    /// loop.
    proof fn lemma_items_unit_scalar(s: Seq<char>, cur: int, mx: bool, whole: ItemsParse)
        requires
            0 <= cur <= s.len(),
            spec_consume(s, cur, mx) matches LexStep::Tok { token, start, end, next } && cur < next
                <= s.len(),
            ({
                let here = spec_items(s, cur, mx, fuel_at(s, cur));
                &&& (here matches ItemsParse::Items { items, next } ==> (whole
                    matches ItemsParse::Items { items: wi, next: wn } && wn == next))
                &&& (here matches ItemsParse::Fail { f } ==> whole == (ItemsParse::Fail { f }))
            }),
            ({
                let st = spec_consume(s, cur, mx);
                st matches LexStep::Tok { token, start, end, next } && (exists|h: ValModel|
                    spec_items(s, cur, mx, fuel_at(s, cur)) == spec_items_cons(
                        h,
                        s,
                        next,
                        mx,
                        fuel_at(s, cur),
                    ))
            }),
        ensures
            ({
                let st = spec_consume(s, cur, mx);
                st matches LexStep::Tok { token, start, end, next } && ({
                    let here2 = spec_items(s, next, mx, fuel_at(s, next));
                    &&& (here2 matches ItemsParse::Items { items, next: nx } ==> (whole
                        matches ItemsParse::Items { items: wi, next: wn } && wn == nx))
                    &&& (here2 matches ItemsParse::Fail { f } ==> whole == (ItemsParse::Fail {
                        f,
                    }))
                })
            }),
    {
        reveal_with_fuel(spec_items_cons, 2);
        match spec_consume(s, cur, mx) {
            LexStep::Tok { token, start, end, next } => {
                lemma_parse_canonical(s, next, mx);
                lemma_fuel_mono(s, next, mx, fuel_at(s, next), (fuel_at(s, cur) - 1) as nat);
                let h = choose|h: ValModel|
                    spec_items(s, cur, mx, fuel_at(s, cur)) == spec_items_cons(
                        h,
                        s,
                        next,
                        mx,
                        fuel_at(s, cur),
                    );
            },
            _ => {},
        }
    }

    /// One structural event followed by a child's event stream is itself an
    /// ordered event stream.
    proof fn lemma_one_then_rest(
        evs: Seq<Event>,
        base: Seq<Event>,
        span: Span,
        lo: int,
        mid: int,
        hi: int,
    )
        requires
            base.len() as int + 1 <= evs.len(),
            evs[base.len() as int].span == span,
            lo <= span.start.absolute,
            span.start.absolute <= span.end.absolute,
            span.end.absolute <= mid,
            mid <= hi,
            events_within(evs.skip(base.len() as int + 1), mid, hi),
            events_monotone(evs.skip(base.len() as int + 1)),
        ensures
            events_within(evs.skip(base.len() as int), lo, hi),
            events_monotone(evs.skip(base.len() as int)),
    {
        let one = seq![evs[base.len() as int]];
        let rest = evs.skip(base.len() as int + 1);
        assert(events_within(one, lo, mid));
        assert(events_monotone(one));
        lemma_events_concat(one, rest, lo, mid, hi);
        assert(evs.skip(base.len() as int) =~= one + rest);
    }
}

} // verus!
