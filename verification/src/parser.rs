//! The mathematical model of the syntactic driver shared between the two
//! front-ends: a recursive descent over [`crate::lexer::spec_consume`]'s
//! token outcomes that assigns every scalar sequence either a value tree or
//! the exact failure the drivers report.
//!
//! The recursion is indexed by a fuel bound so that it is well-founded by
//! construction; [`lemma_parse_canonical`] shows that the canonical fuel
//! (one more than the number of unread scalars) always suffices, so the
//! model is total in effect and both parsers' contracts can speak of it at
//! that fuel.
use crate::errors::{ParserError, ParserErrorDetails, ParserErrorSource};
use crate::lexer::{
    coords_at, details_match, spec_consume, token_model, LexErrModel, LexStep, TokModel,
};
use crate::JsonValue;
use vstd::prelude::*;

verus! {

/// The mathematical image of a JSON value tree.
pub enum ValModel {
    /// Object: key/value pairs in document order, duplicates preserved
    Object(Seq<(Seq<char>, ValModel)>),
    /// Array: elements in document order
    Array(Seq<ValModel>),
    /// String leaf
    Str(Seq<char>),
    /// Float leaf, as its validated textual form
    Float(Seq<char>),
    /// Integer leaf
    Integer(int),
    /// Boolean leaf
    Boolean(bool),
    /// Null leaf
    Null,
}

/// The abstraction of an executable value tree.
pub open spec fn value_model(v: JsonValue) -> ValModel
    decreases v, 1int, 0int,
{
    match v {
        JsonValue::Object(pairs) => ValModel::Object(pairs_model_from(pairs, 0)),
        JsonValue::Array(items) => ValModel::Array(items_model_from(items, 0)),
        JsonValue::String(s) => ValModel::Str(s@),
        JsonValue::Float(s) => ValModel::Float(s@),
        JsonValue::Integer(n) => ValModel::Integer(n as int),
        JsonValue::Boolean(b) => ValModel::Boolean(b),
        JsonValue::Null => ValModel::Null,
    }
}

/// The abstraction of an executable pair list, from index `i` on.
pub open spec fn pairs_model_from(pairs: Vec<(String, JsonValue)>, i: int) -> Seq<
    (Seq<char>, ValModel),
>
    decreases pairs, 0int, pairs@.len() - i,
{
    if i < 0 || i >= pairs@.len() {
        Seq::empty()
    } else {
        seq![(pairs@[i].0@, value_model(pairs@[i].1))] + pairs_model_from(pairs, i + 1)
    }
}

/// The abstraction of an executable element list, from index `i` on.
pub open spec fn items_model_from(items: Vec<JsonValue>, i: int) -> Seq<ValModel>
    decreases items, 0int, items@.len() - i,
{
    if i < 0 || i >= items@.len() {
        Seq::empty()
    } else {
        seq![value_model(items@[i])] + items_model_from(items, i + 1)
    }
}

/// The exact failure a parse ends in: a propagated lexical error, or one of
/// the driver's own stops, each at the index whose coordinates the error
/// carries.
pub enum ParseFail {
    /// A lexical error, surfaced unchanged
    Lex(LexErrModel, int),
    /// The input ended inside a structure
    EndOfInput(int),
    /// A token that cannot stand in value position
    UnexpectedToken(TokModel, int),
    /// A key was not followed by a colon
    PairExpected(int),
    /// A token that cannot stand in an object
    InvalidObject(int),
    /// A token that cannot stand in an array
    InvalidArray(int),
    /// The document's root is neither an object nor an array
    InvalidRoot(int),
}

/// Whether an executable error is the image of a parse failure, for the
/// given driver stage.
pub open spec fn fail_matches(
    e: ParserError,
    s: Seq<char>,
    f: ParseFail,
    src: ParserErrorSource,
) -> bool {
    match f {
        ParseFail::Lex(m, at) => e.source == ParserErrorSource::Lexer && details_match(e.details, m)
            && e.coords == Some(coords_at(s, at)),
        ParseFail::EndOfInput(at) => e.source == src && e.details == ParserErrorDetails::EndOfInput
            && e.coords == Some(coords_at(s, at)),
        ParseFail::UnexpectedToken(tm, at) => e.source == src && (e.details
            matches ParserErrorDetails::UnexpectedToken(t) && token_model(t) == tm) && e.coords
            == Some(coords_at(s, at)),
        ParseFail::PairExpected(at) => e.source == src && e.details
            == ParserErrorDetails::PairExpected && e.coords == Some(coords_at(s, at)),
        ParseFail::InvalidObject(at) => e.source == src && e.details
            == ParserErrorDetails::InvalidObject && e.coords == Some(coords_at(s, at)),
        ParseFail::InvalidArray(at) => e.source == src && e.details
            == ParserErrorDetails::InvalidArray && e.coords == Some(coords_at(s, at)),
        ParseFail::InvalidRoot(at) => e.source == src && e.details
            == ParserErrorDetails::InvalidRootObject && e.coords == Some(coords_at(s, at)),
    }
}

/// The outcome of parsing a single value.
pub enum ValueParse {
    /// A value, and the read position after it
    Value { v: ValModel, next: int },
    /// The parse failed
    Fail { f: ParseFail },
    /// The fuel bound ran out (never the case at the canonical fuel)
    Hang,
}

/// The outcome of parsing an object's members after its opening brace.
pub enum MembersParse {
    /// The key/value pairs, and the read position after the closing brace
    Members { pairs: Seq<(Seq<char>, ValModel)>, next: int },
    /// The parse failed
    Fail { f: ParseFail },
    /// The fuel bound ran out (never the case at the canonical fuel)
    Hang,
}

/// The outcome of parsing an array's items after its opening bracket.
pub enum ItemsParse {
    /// The elements, and the read position after the closing bracket
    Items { items: Seq<ValModel>, next: int },
    /// The parse failed
    Fail { f: ParseFail },
    /// The fuel bound ran out (never the case at the canonical fuel)
    Hang,
}

/// The canonical fuel at a read position: one more than the number of
/// unread scalars, which [`lemma_parse_canonical`] proves sufficient.
pub open spec fn fuel_at(s: Seq<char>, pos: int) -> nat
    recommends
        0 <= pos <= s.len(),
{
    (s.len() - pos + 1) as nat
}

/// Parse a single value at the given position: a nested structure, a
/// scalar leaf, or the failure the drivers report there.
pub open spec fn spec_value(s: Seq<char>, pos: int, mixed: bool, fuel: nat) -> ValueParse
    decreases fuel, 2int,
{
    if fuel == 0 {
        ValueParse::Hang
    } else {
        match spec_consume(s, pos, mixed) {
            LexStep::Fail { err, at } => ValueParse::Fail { f: ParseFail::Lex(err, at) },
            LexStep::Tok { token, start, end, next } => match token {
                TokModel::StartObject => match spec_members(s, next, mixed, (fuel - 1) as nat) {
                    MembersParse::Members { pairs, next: n2 } => ValueParse::Value {
                        v: ValModel::Object(pairs),
                        next: n2,
                    },
                    MembersParse::Fail { f } => ValueParse::Fail { f },
                    MembersParse::Hang => ValueParse::Hang,
                },
                TokModel::StartArray => match spec_items(s, next, mixed, (fuel - 1) as nat) {
                    ItemsParse::Items { items, next: n2 } => ValueParse::Value {
                        v: ValModel::Array(items),
                        next: n2,
                    },
                    ItemsParse::Fail { f } => ValueParse::Fail { f },
                    ItemsParse::Hang => ValueParse::Hang,
                },
                TokModel::Str(t) => ValueParse::Value { v: ValModel::Str(t), next },
                TokModel::Float(t) => ValueParse::Value { v: ValModel::Float(t), next },
                TokModel::Integer(n) => ValueParse::Value { v: ValModel::Integer(n), next },
                TokModel::Boolean(b) => ValueParse::Value { v: ValModel::Boolean(b), next },
                TokModel::Null => ValueParse::Value { v: ValModel::Null, next },
                TokModel::EndOfInput => ValueParse::Fail { f: ParseFail::EndOfInput(start) },
                _ => ValueParse::Fail { f: ParseFail::UnexpectedToken(token, start) },
            },
        }
    }
}

/// Parse an object's members from just after its opening brace: keys with
/// colon-separated values, commas between pairs, a closing brace to end.
pub open spec fn spec_members(s: Seq<char>, pos: int, mixed: bool, fuel: nat) -> MembersParse
    decreases fuel, 0int,
{
    if fuel == 0 {
        MembersParse::Hang
    } else {
        match spec_consume(s, pos, mixed) {
            LexStep::Fail { err, at } => MembersParse::Fail { f: ParseFail::Lex(err, at) },
            LexStep::Tok { token, start, end, next } => match token {
                TokModel::Str(k) => match spec_consume(s, next, mixed) {
                    LexStep::Fail { err, at } => MembersParse::Fail { f: ParseFail::Lex(err, at) },
                    LexStep::Tok { token: t2, start: cstart, end: _, next: n2 } => if t2 is Colon {
                        match spec_value(s, n2, mixed, (fuel - 1) as nat) {
                            ValueParse::Value { v, next: n3 } => match spec_members(
                                s,
                                n3,
                                mixed,
                                (fuel - 1) as nat,
                            ) {
                                MembersParse::Members { pairs, next: n4 } => MembersParse::Members {
                                    pairs: seq![(k, v)] + pairs,
                                    next: n4,
                                },
                                MembersParse::Fail { f } => MembersParse::Fail { f },
                                MembersParse::Hang => MembersParse::Hang,
                            },
                            ValueParse::Fail { f } => MembersParse::Fail { f },
                            ValueParse::Hang => MembersParse::Hang,
                        }
                    } else {
                        MembersParse::Fail { f: ParseFail::PairExpected(cstart) }
                    },
                },
                TokModel::Comma => spec_members(s, next, mixed, (fuel - 1) as nat),
                TokModel::EndObject => MembersParse::Members { pairs: Seq::empty(), next },
                TokModel::EndOfInput => MembersParse::Fail { f: ParseFail::EndOfInput(start) },
                _ => MembersParse::Fail { f: ParseFail::InvalidObject(start) },
            },
        }
    }
}

/// Parse an array's items from just after its opening bracket: values,
/// commas between them, a closing bracket to end.
pub open spec fn spec_items(s: Seq<char>, pos: int, mixed: bool, fuel: nat) -> ItemsParse
    decreases fuel, 1int,
{
    if fuel == 0 {
        ItemsParse::Hang
    } else {
        match spec_consume(s, pos, mixed) {
            LexStep::Fail { err, at } => ItemsParse::Fail { f: ParseFail::Lex(err, at) },
            LexStep::Tok { token, start, end, next } => match token {
                TokModel::StartArray => match spec_items(s, next, mixed, (fuel - 1) as nat) {
                    ItemsParse::Items { items: inner, next: n2 } => match spec_items(
                        s,
                        n2,
                        mixed,
                        (fuel - 1) as nat,
                    ) {
                        ItemsParse::Items { items: rest, next: n3 } => ItemsParse::Items {
                            items: seq![ValModel::Array(inner)] + rest,
                            next: n3,
                        },
                        ItemsParse::Fail { f } => ItemsParse::Fail { f },
                        ItemsParse::Hang => ItemsParse::Hang,
                    },
                    ItemsParse::Fail { f } => ItemsParse::Fail { f },
                    ItemsParse::Hang => ItemsParse::Hang,
                },
                TokModel::EndArray => ItemsParse::Items { items: Seq::empty(), next },
                TokModel::StartObject => match spec_members(s, next, mixed, (fuel - 1) as nat) {
                    MembersParse::Members { pairs, next: n2 } => match spec_items(
                        s,
                        n2,
                        mixed,
                        (fuel - 1) as nat,
                    ) {
                        ItemsParse::Items { items: rest, next: n3 } => ItemsParse::Items {
                            items: seq![ValModel::Object(pairs)] + rest,
                            next: n3,
                        },
                        ItemsParse::Fail { f } => ItemsParse::Fail { f },
                        ItemsParse::Hang => ItemsParse::Hang,
                    },
                    MembersParse::Fail { f } => ItemsParse::Fail { f },
                    MembersParse::Hang => ItemsParse::Hang,
                },
                TokModel::Str(t) => spec_items_cons(ValModel::Str(t), s, next, mixed, fuel),
                TokModel::Float(t) => spec_items_cons(ValModel::Float(t), s, next, mixed, fuel),
                TokModel::Integer(n) => spec_items_cons(
                    ValModel::Integer(n),
                    s,
                    next,
                    mixed,
                    fuel,
                ),
                TokModel::Boolean(b) => spec_items_cons(
                    ValModel::Boolean(b),
                    s,
                    next,
                    mixed,
                    fuel,
                ),
                TokModel::Null => spec_items_cons(ValModel::Null, s, next, mixed, fuel),
                TokModel::Comma => spec_items(s, next, mixed, (fuel - 1) as nat),
                TokModel::EndOfInput => ItemsParse::Fail { f: ParseFail::EndOfInput(start) },
                _ => ItemsParse::Fail { f: ParseFail::InvalidArray(start) },
            },
        }
    }
}

/// Prepend a scalar element onto the rest of an array's items.
pub open spec fn spec_items_cons(
    head: ValModel,
    s: Seq<char>,
    pos: int,
    mixed: bool,
    fuel: nat,
) -> ItemsParse
    decreases fuel, 0int,
{
    if fuel == 0 {
        ItemsParse::Hang
    } else {
        match spec_items(s, pos, mixed, (fuel - 1) as nat) {
            ItemsParse::Items { items, next } => ItemsParse::Items {
                items: seq![head] + items,
                next,
            },
            ItemsParse::Fail { f } => ItemsParse::Fail { f },
            ItemsParse::Hang => ItemsParse::Hang,
        }
    }
}

/// Raising the fuel bound never changes an outcome it sufficed for: a
/// non-Hang result at a lower fuel persists at every higher fuel.
#[verifier::rlimit(100)]
#[verifier::spinoff_prover]
pub proof fn lemma_fuel_mono(s: Seq<char>, pos: int, mixed: bool, f1: nat, f2: nat)
    requires
        f1 <= f2,
    ensures
        !(spec_value(s, pos, mixed, f1) is Hang) ==> spec_value(s, pos, mixed, f2) == spec_value(
            s,
            pos,
            mixed,
            f1,
        ),
        !(spec_members(s, pos, mixed, f1) is Hang) ==> spec_members(s, pos, mixed, f2)
            == spec_members(s, pos, mixed, f1),
        !(spec_items(s, pos, mixed, f1) is Hang) ==> spec_items(s, pos, mixed, f2) == spec_items(
            s,
            pos,
            mixed,
            f1,
        ),
    decreases f1,
{
    reveal_with_fuel(spec_items, 2);
    reveal_with_fuel(spec_items_cons, 2);
    if f1 == 0 || f1 == f2 {
    } else {
        let g1 = (f1 - 1) as nat;
        let g2 = (f2 - 1) as nat;
        match spec_consume(s, pos, mixed) {
            LexStep::Fail { .. } => {},
            LexStep::Tok { token, start, end, next } => {
                lemma_fuel_mono(s, next, mixed, g1, g2);
                match spec_consume(s, next, mixed) {
                    LexStep::Tok { token: t2, start: cstart, end: _, next: n2 } => {
                        lemma_fuel_mono(s, n2, mixed, g1, g2);
                        match spec_value(s, n2, mixed, g1) {
                            ValueParse::Value { v, next: n3 } => {
                                lemma_fuel_mono(s, n3, mixed, g1, g2);
                            },
                            _ => {},
                        }
                    },
                    _ => {},
                }
                match spec_items(s, next, mixed, g1) {
                    ItemsParse::Items { items, next: n2 } => {
                        lemma_fuel_mono(s, n2, mixed, g1, g2);
                    },
                    _ => {},
                }
                match spec_members(s, next, mixed, g1) {
                    MembersParse::Members { pairs, next: n2 } => {
                        lemma_fuel_mono(s, n2, mixed, g1, g2);
                    },
                    _ => {},
                }
            },
        }
    }
}

/// The canonical fuel always suffices: at `fuel_at` the machine never
/// hangs, and every successful outcome's next position moves strictly
/// forward while staying within the input.
#[verifier::rlimit(100)]
#[verifier::spinoff_prover]
pub proof fn lemma_parse_canonical(s: Seq<char>, pos: int, mixed: bool)
    requires
        0 <= pos <= s.len(),
    ensures
        !(spec_value(s, pos, mixed, fuel_at(s, pos)) is Hang),
        !(spec_members(s, pos, mixed, fuel_at(s, pos)) is Hang),
        !(spec_items(s, pos, mixed, fuel_at(s, pos)) is Hang),
        (spec_value(s, pos, mixed, fuel_at(s, pos)) matches ValueParse::Value { v, next } ==> pos
            < next <= s.len()),
        (spec_members(s, pos, mixed, fuel_at(s, pos)) matches MembersParse::Members {
            pairs,
            next,
        } ==> pos < next <= s.len()),
        (spec_items(s, pos, mixed, fuel_at(s, pos)) matches ItemsParse::Items { items, next } ==> pos
            < next <= s.len()),
    decreases s.len() - pos,
{
    reveal_with_fuel(spec_items, 2);
    reveal_with_fuel(spec_items_cons, 2);
    let f = fuel_at(s, pos);
    let g = (f - 1) as nat;
    crate::lexer::lemma_spec_consume_bounds(s, pos, mixed);
    match spec_consume(s, pos, mixed) {
        LexStep::Fail { .. } => {},
        LexStep::Tok { token, start, end, next } => {
            if token is EndOfInput {
            } else {
                lemma_parse_canonical(s, next, mixed);
                lemma_fuel_mono(s, next, mixed, fuel_at(s, next), g);
                match spec_consume(s, next, mixed) {
                    LexStep::Tok { token: t2, start: cstart, end: _, next: n2 } => {
                        crate::lexer::lemma_spec_consume_bounds(s, next, mixed);
                        if !(t2 is EndOfInput) {
                            lemma_parse_canonical(s, n2, mixed);
                            lemma_fuel_mono(s, n2, mixed, fuel_at(s, n2), g);
                            match spec_value(s, n2, mixed, g) {
                                ValueParse::Value { v, next: n3 } => {
                                    lemma_parse_canonical(s, n3, mixed);
                                    lemma_fuel_mono(s, n3, mixed, fuel_at(s, n3), g);
                                },
                                _ => {},
                            }
                        }
                    },
                    _ => {},
                }
                match spec_items(s, next, mixed, g) {
                    ItemsParse::Items { items, next: n2 } => {
                        lemma_parse_canonical(s, n2, mixed);
                        lemma_fuel_mono(s, n2, mixed, fuel_at(s, n2), g);
                    },
                    _ => {},
                }
                match spec_members(s, next, mixed, g) {
                    MembersParse::Members { pairs, next: n2 } => {
                        lemma_parse_canonical(s, n2, mixed);
                        lemma_fuel_mono(s, n2, mixed, fuel_at(s, n2), g);
                    },
                    _ => {},
                }
            }
        },
    }
}

/// Whether a builder result is the image of a value-parse outcome.
pub open spec fn value_result_matches(
    r: Result<JsonValue, ParserError>,
    s: Seq<char>,
    vp: ValueParse,
    src: ParserErrorSource,
) -> bool {
    match vp {
        ValueParse::Value { v, next } => (r matches Ok(jv) && value_model(jv) == v),
        ValueParse::Fail { f } => (r matches Err(e) && fail_matches(e, s, f, src)),
        ValueParse::Hang => true,
    }
}

/// Whether a builder result is the image of a members-parse outcome.
pub open spec fn object_result_matches(
    r: Result<JsonValue, ParserError>,
    s: Seq<char>,
    mp: MembersParse,
    src: ParserErrorSource,
) -> bool {
    match mp {
        MembersParse::Members { pairs, next } => (r matches Ok(jv) && value_model(jv)
            == ValModel::Object(pairs)),
        MembersParse::Fail { f } => (r matches Err(e) && fail_matches(e, s, f, src)),
        MembersParse::Hang => true,
    }
}

/// Whether a builder result is the image of an items-parse outcome.
pub open spec fn array_result_matches(
    r: Result<JsonValue, ParserError>,
    s: Seq<char>,
    ip: ItemsParse,
    src: ParserErrorSource,
) -> bool {
    match ip {
        ItemsParse::Items { items, next } => (r matches Ok(jv) && value_model(jv)
            == ValModel::Array(items)),
        ItemsParse::Fail { f } => (r matches Err(e) && fail_matches(e, s, f, src)),
        ItemsParse::Hang => true,
    }
}

/// Whether an emitter result is the image of a value-parse outcome:
/// success exactly when the model parses, the model's failure otherwise.
pub open spec fn value_done_matches(
    r: Result<(), ParserError>,
    s: Seq<char>,
    vp: ValueParse,
    src: ParserErrorSource,
) -> bool {
    match vp {
        ValueParse::Value { v, next } => r is Ok,
        ValueParse::Fail { f } => (r matches Err(e) && fail_matches(e, s, f, src)),
        ValueParse::Hang => true,
    }
}

/// Whether an emitter result is the image of a members-parse outcome.
pub open spec fn members_done_matches(
    r: Result<(), ParserError>,
    s: Seq<char>,
    mp: MembersParse,
    src: ParserErrorSource,
) -> bool {
    match mp {
        MembersParse::Members { pairs, next } => r is Ok,
        MembersParse::Fail { f } => (r matches Err(e) && fail_matches(e, s, f, src)),
        MembersParse::Hang => true,
    }
}

/// Whether an emitter result is the image of an items-parse outcome.
pub open spec fn items_done_matches(
    r: Result<(), ParserError>,
    s: Seq<char>,
    ip: ItemsParse,
    src: ParserErrorSource,
) -> bool {
    match ip {
        ItemsParse::Items { items, next } => r is Ok,
        ItemsParse::Fail { f } => (r matches Err(e) && fail_matches(e, s, f, src)),
        ItemsParse::Hang => true,
    }
}

/// Appending one pair extends a pair list's abstraction by that pair's
/// image.
pub proof fn lemma_pairs_model_push(
    a: Vec<(String, JsonValue)>,
    b: Vec<(String, JsonValue)>,
    p: (String, JsonValue),
    i: int,
)
    requires
        b@ == a@.push(p),
        0 <= i <= a@.len(),
    ensures
        pairs_model_from(b, i) == pairs_model_from(a, i) + seq![(p.0@, value_model(p.1))],
    decreases a@.len() - i,
{
    reveal_with_fuel(pairs_model_from, 2);
    if i == a@.len() {
        assert(pairs_model_from(b, i) =~= seq![(p.0@, value_model(p.1))]);
        assert(pairs_model_from(a, i) =~= Seq::<(Seq<char>, ValModel)>::empty());
        assert(pairs_model_from(a, i) + seq![(p.0@, value_model(p.1))] =~= seq![
            (p.0@, value_model(p.1)),
        ]);
    } else {
        lemma_pairs_model_push(a, b, p, i + 1);
        assert(b@[i] == a@[i]);
        assert(pairs_model_from(b, i) =~= pairs_model_from(a, i) + seq![
            (p.0@, value_model(p.1)),
        ]);
    }
}

/// Appending one element extends an element list's abstraction by that
/// element's image.
pub proof fn lemma_items_model_push(a: Vec<JsonValue>, b: Vec<JsonValue>, v: JsonValue, i: int)
    requires
        b@ == a@.push(v),
        0 <= i <= a@.len(),
    ensures
        items_model_from(b, i) == items_model_from(a, i) + seq![value_model(v)],
    decreases a@.len() - i,
{
    reveal_with_fuel(items_model_from, 2);
    if i == a@.len() {
        assert(items_model_from(b, i) =~= seq![value_model(v)]);
        assert(items_model_from(a, i) =~= Seq::<ValModel>::empty());
        assert(items_model_from(a, i) + seq![value_model(v)] =~= seq![value_model(v)]);
    } else {
        lemma_items_model_push(a, b, v, i + 1);
        assert(b@[i] == a@[i]);
        assert(items_model_from(b, i) =~= items_model_from(a, i) + seq![value_model(v)]);
    }
}

/// Parse a whole document: the root token must open an object or an array,
/// whose members or items make up the tree.
pub open spec fn spec_parse(s: Seq<char>, mixed: bool) -> ValueParse {
    match spec_consume(s, 0, mixed) {
        LexStep::Fail { err, at } => ValueParse::Fail { f: ParseFail::Lex(err, at) },
        LexStep::Tok { token, start, end, next } => match token {
            TokModel::StartObject => match spec_members(s, next, mixed, fuel_at(s, next)) {
                MembersParse::Members { pairs, next: n2 } => ValueParse::Value {
                    v: ValModel::Object(pairs),
                    next: n2,
                },
                MembersParse::Fail { f } => ValueParse::Fail { f },
                MembersParse::Hang => ValueParse::Hang,
            },
            TokModel::StartArray => match spec_items(s, next, mixed, fuel_at(s, next)) {
                ItemsParse::Items { items, next: n2 } => ValueParse::Value {
                    v: ValModel::Array(items),
                    next: n2,
                },
                ItemsParse::Fail { f } => ValueParse::Fail { f },
                ItemsParse::Hang => ValueParse::Hang,
            },
            _ => ValueParse::Fail { f: ParseFail::InvalidRoot(start) },
        },
    }
}

} // verus!
