//! Events produced by the SAX parser during a parse, together with the
//! ordering properties every emitted event stream satisfies.
use crate::coords::Span;
use vstd::prelude::*;

verus! {

/// Enumeration of the various different matches that can be produced
/// during a parse.
#[derive(Debug, Clone, PartialEq)]
pub enum Match {
    /// Emitted prior to anything else
    StartOfInput,
    /// Emitted after everything else
    EndOfInput,
    /// Emitted when the start of a new object is matched
    StartObject,
    /// Emitted when a new key within an object is matched
    ObjectKey(String),
    /// Emitted after an object has been fully parsed
    EndObject,
    /// Emitted when the start of an array is matched
    StartArray,
    /// Emitted when the end of an array is matched
    EndArray,
    /// Emitted when a string is matched
    String(String),
    /// Emitted when an integer is matched
    Integer(i64),
    /// Emitted when a float is matched, carrying its validated textual form
    Float(String),
    /// Emitted when a boolean is matched
    Boolean(bool),
    /// Emitted when a null is matched
    Null,
}

/// A general event produced by the parser during a parse.
#[derive(Debug, Clone, PartialEq)]
pub struct Event {
    /// The [`Match`] associated with the event
    pub matched: Match,
    /// The [`Span`] associated with the match
    pub span: Span,
    /// The serialized structural pointer at the event, where one applies
    pub pointer: Option<String>,
}

impl Event {
    /// Checks whether an event has a pointer attached.
    pub fn has_pointer(&self) -> (r: bool)
        ensures
            r == (self.pointer is Some),
    {
        match &self.pointer {
            Some(_) => true,
            None => false,
        }
    }
}

/// Every event's span lies within the given absolute bounds, with its start
/// no later than its end.
pub open spec fn events_within(evs: Seq<Event>, lo: int, hi: int) -> bool {
    forall|i: int|
        0 <= i < evs.len() ==> {
            let e = #[trigger] evs[i];
            &&& lo <= e.span.start.absolute
            &&& e.span.start.absolute <= e.span.end.absolute
            &&& e.span.end.absolute <= hi
        }
}

/// Events appear in document order: their span starts never move
/// backwards.
pub open spec fn events_monotone(evs: Seq<Event>) -> bool {
    forall|i: int, j: int|
        0 <= i <= j < evs.len() ==> (#[trigger] evs[i]).span.start.absolute
            <= (#[trigger] evs[j]).span.start.absolute
}

/// Bounds on an event stream may be widened freely.
pub proof fn lemma_events_within_widen(evs: Seq<Event>, lo: int, hi: int, lo2: int, hi2: int)
    requires
        events_within(evs, lo, hi),
        lo2 <= lo,
        hi <= hi2,
    ensures
        events_within(evs, lo2, hi2),
{
}

/// Two ordered event streams over adjacent spans of the input concatenate
/// into one ordered stream.
pub proof fn lemma_events_concat(a: Seq<Event>, b: Seq<Event>, lo: int, mid: int, hi: int)
    requires
        lo <= mid,
        mid <= hi,
        events_within(a, lo, mid),
        events_within(b, mid, hi),
        events_monotone(a),
        events_monotone(b),
    ensures
        events_within(a + b, lo, hi),
        events_monotone(a + b),
{
    assert forall|i: int| 0 <= i < (a + b).len() implies {
        let e = #[trigger] (a + b)[i];
        &&& lo <= e.span.start.absolute
        &&& e.span.start.absolute <= e.span.end.absolute
        &&& e.span.end.absolute <= hi
    } by {
        if i < a.len() {
            assert((a + b)[i] == a[i]);
        } else {
            assert((a + b)[i] == b[i - a.len()]);
        }
    }
    assert forall|i: int, j: int| 0 <= i <= j < (a + b).len() implies (#[trigger] (a + b)[i]).span.start.absolute
        <= (#[trigger] (a + b)[j]).span.start.absolute by {
        if j < a.len() {
            assert((a + b)[i] == a[i]);
            assert((a + b)[j] == a[j]);
        } else if i >= a.len() {
            assert((a + b)[i] == b[i - a.len()]);
            assert((a + b)[j] == b[j - a.len()]);
        } else {
            assert((a + b)[i] == a[i]);
            assert((a + b)[j] == b[j - a.len()]);
        }
    }
}

} // verus!
