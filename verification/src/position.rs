//! Source spans, kept on tokens and nodes for diagnostics.

use crate::text::{decimal, push_decimal, string_of};
use std::ops::Range;
use vstd::prelude::*;

verus! {

/// A span of source text: a range of offsets, of lines and of columns,
/// all counted from zero in scalar values of the text.
#[derive(Debug, PartialEq)]
pub struct Position {
    pub idx: Range<usize>,
    pub ln: Range<usize>,
    pub col: Range<usize>,
}

impl Position {
    /// Whether the span covers at least one unit of text.
    pub open spec fn covers(self) -> bool {
        self.idx.start < self.idx.end
    }

    /// Whether the span covers at least one unit of text and one line.
    pub open spec fn covers_line(self) -> bool {
        self.covers() && self.ln.start < self.ln.end
    }

    /// The span `self` after it was grown to reach the end of `pos`: the
    /// end bounds are those of `pos` where `pos` ends later, and stay
    /// where they are otherwise. The start never moves.
    pub open spec fn extended(self, pos: Position) -> Position {
        if pos.idx.end >= self.idx.end {
            Position {
                idx: Range { start: self.idx.start, end: pos.idx.end },
                ln: Range { start: self.ln.start, end: pos.ln.end },
                col: Range { start: self.col.start, end: pos.col.end },
            }
        } else {
            self
        }
    }

    /// The span of the given offsets, lines and columns.
    pub fn new(idx: Range<usize>, ln: Range<usize>, col: Range<usize>) -> (r: Self)
        ensures
            r.idx == idx,
            r.ln == ln,
            r.col == col,
    {
        Self { idx, ln, col }
    }

    /// The span of the first unit of a text.
    pub fn zero() -> (r: Self)
        ensures
            r == (Position {
                idx: Range { start: 0, end: 1 },
                ln: Range { start: 0, end: 1 },
                col: Range { start: 0, end: 1 },
            }),
            r.covers_line(),
    {
        Self { idx: 0..1, ln: 0..1, col: 0..1 }
    }

    /// Grows the span to reach the end of `pos`; the end never moves
    /// backward.
    pub fn extend(&mut self, pos: Position)
        ensures
            *final(self) == old(self).extended(pos),
            final(self).idx.end >= old(self).idx.end,
            old(self).covers() ==> final(self).covers(),
    {
        if pos.idx.end >= self.idx.end {
            self.idx.end = pos.idx.end;
            self.ln.end = pos.ln.end;
            self.col.end = pos.col.end;
        }
    }
}

/// The line and column at which `pos` starts, counted from one, as
/// `line:column`.
pub open spec fn locator(pos: Position) -> Seq<char> {
    decimal((pos.ln.start + 1) as nat) + seq![':'] + decimal((pos.col.start + 1) as nat)
}

/// Appends `line:column` for the start of `pos`.
pub fn push_locator(out: &mut Vec<char>, pos: &Position)
    ensures
        final(out)@ == old(out)@ + locator(*pos),
{
    let ln: u128 = pos.ln.start as u128;
    let col: u128 = pos.col.start as u128;
    push_decimal(out, ln + 1);
    out.push(':');
    push_decimal(out, col + 1);
    assert(out@ =~= old(out)@ + locator(*pos));
}

impl Position {
    /// The place where the span starts, as `line:column`, both counted
    /// from one.
    pub fn to_string(&self) -> (r: String)
        ensures
            r@ == locator(*self),
    {
        let mut out: Vec<char> = Vec::new();
        push_locator(&mut out, self);
        assert(out@ =~= locator(*self));
        string_of(&out)
    }
}

impl Clone for Position {
    fn clone(&self) -> (r: Self)
        ensures
            r == *self,
    {
        Position {
            idx: self.idx.start..self.idx.end,
            ln: self.ln.start..self.ln.end,
            col: self.col.start..self.col.end,
        }
    }
}

} // verus!
