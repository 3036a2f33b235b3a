//! Coordinate structures used to reference specific locations within parser
//! input.
//!
//! A [`Coords`] value locates a single scalar: `absolute` counts the scalars
//! consumed so far, `line` is 1-based, and `column` is the 1-based position
//! of the most recent scalar on its line (0 before the first scalar of a
//! line has been read).  A [`Span`] is the linear interval between two
//! coordinate values.
use vstd::prelude::*;

verus! {

/// A [`Coords`] represents a single location within the parser input.
#[derive(Debug, Copy, Clone, PartialEq, Eq, Structural)]
pub struct Coords {
    /// The absolute character position
    pub absolute: usize,
    /// The row position
    pub line: usize,
    /// The column position
    pub column: usize,
}

impl Coords {
    /// The coordinates of the very start of the input: nothing consumed yet,
    /// on the first line, before any column.
    pub open spec fn spec_start() -> Coords {
        Coords { absolute: 0, line: 1, column: 0 }
    }

    /// Construct the starting coordinates.
    pub fn start() -> (r: Coords)
        ensures
            r == Coords::spec_start(),
    {
        Coords { absolute: 0, line: 1, column: 0 }
    }

    /// The coordinates after one more scalar has been consumed: a line
    /// terminator opens a fresh line, any other scalar advances the column.
    pub open spec fn spec_advance(self, newline: bool) -> Coords {
        if newline {
            Coords {
                absolute: (self.absolute + 1) as usize,
                line: (self.line + 1) as usize,
                column: 0,
            }
        } else {
            Coords {
                absolute: (self.absolute + 1) as usize,
                line: self.line,
                column: (self.column + 1) as usize,
            }
        }
    }

    /// Advance over a single scalar, bumping the line count instead of the
    /// column count when the scalar is a line terminator.
    pub fn advance(&mut self, newline: bool)
        requires
            old(self).absolute < usize::MAX,
            old(self).line < usize::MAX,
            old(self).column < usize::MAX,
        ensures
            *final(self) == old(self).spec_advance(newline),
    {
        self.absolute = self.absolute + 1;
        if newline {
            self.line = self.line + 1;
            self.column = 0;
        } else {
            self.column = self.column + 1;
        }
    }

    /// Bulk advance over `n` scalars, none of which is a line terminator.
    pub fn advance_n(&mut self, n: usize)
        requires
            old(self).absolute + n <= usize::MAX,
            old(self).column + n <= usize::MAX,
        ensures
            final(self).absolute == old(self).absolute + n,
            final(self).line == old(self).line,
            final(self).column == old(self).column + n,
    {
        self.absolute = self.absolute + n;
        self.column = self.column + n;
    }
}

impl Default for Coords {
    /// The default set of coordinates are positioned at the start of the
    /// first row.
    fn default() -> (r: Coords)
        ensures
            r == Coords::spec_start(),
    {
        Coords::start()
    }
}

/// A [`Span`] represents a linear interval within the parser input, between
/// two different [`Coords`].
#[derive(Debug, Copy, Clone, PartialEq, Eq, Structural)]
pub struct Span {
    /// Start [`Coords`] for the span
    pub start: Coords,
    /// End [`Coords`] for the span
    pub end: Coords,
}

impl Span {
    /// The length of a span: the distance between its endpoints, with a
    /// floor of one for zero-width spans.
    pub open spec fn spec_len(self) -> int {
        if self.start.absolute < self.end.absolute {
            self.end.absolute - self.start.absolute
        } else if self.end.absolute < self.start.absolute {
            self.start.absolute - self.end.absolute
        } else {
            1
        }
    }

    /// Construct a span, clamping the end so that it never precedes the
    /// start.
    pub fn new(start: Coords, end: Coords) -> (r: Span)
        ensures
            r.start == start,
            start.absolute <= end.absolute ==> r.end == end,
            end.absolute < start.absolute ==> r.end == start,
            r.start.absolute <= r.end.absolute,
    {
        if end.absolute < start.absolute {
            Span { start, end: start }
        } else {
            Span { start, end }
        }
    }

    /// Get the length of the span; the minimum is 1.
    pub fn len(&self) -> (r: usize)
        ensures
            r == self.spec_len(),
    {
        if self.start.absolute < self.end.absolute {
            self.end.absolute - self.start.absolute
        } else if self.end.absolute < self.start.absolute {
            self.start.absolute - self.end.absolute
        } else {
            1
        }
    }
}

impl Default for Span {
    /// The default span sits at the very start of the input.
    fn default() -> (r: Span)
        ensures
            r.start == Coords::spec_start(),
            r.end == Coords::spec_start(),
    {
        Span { start: Coords::start(), end: Coords::start() }
    }
}

} // verus!
