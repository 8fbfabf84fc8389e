use vstd::prelude::*;

verus! {

use crate::error::position::Position;

/// A source range: the positions where a token or construct starts and
/// ends. Spans combine with [`Span::extend`] to cover a larger syntactic
/// unit built from sub-spans.
#[derive(Debug, Clone, Copy, PartialEq, Eq, Structural)]
pub struct Span {
    pub pos_1: Position,
    pub pos_2: Position,
}

impl Span {
    pub fn new(pos_1: Position, pos_2: Position) -> (r: Self)
        ensures
            r == (Span { pos_1, pos_2 }),
    {
        Self { pos_1, pos_2 }
    }

    /// The zero-width span sitting at a single position.
    pub fn new_single(pos: Position) -> (r: Self)
        ensures
            r == (Span { pos_1: pos, pos_2: pos }),
    {
        Self { pos_1: pos, pos_2: pos }
    }

    /// The half-open range of line numbers the span touches.
    pub fn lines(&self) -> (r: core::ops::Range<usize>)
        requires
            self.pos_2.line < usize::MAX,
        ensures
            r.start == self.pos_1.line,
            r.end == self.pos_2.line + 1,
    {
        self.pos_1.line..self.pos_2.line + 1
    }

    /// Widens the span by `amount` columns: to the right at its end when
    /// `amount` is positive, else to the left at its start.
    pub fn add_by(self, amount: isize) -> (r: Self)
        requires
            amount > 0 ==> self.pos_2.column + amount <= usize::MAX,
            amount <= 0 ==> amount > isize::MIN && self.pos_1.column + amount >= 0,
        ensures
            amount > 0 ==> r == (Span {
                pos_2: (Position { column: (self.pos_2.column + amount) as usize, ..self.pos_2 }),
                ..self
            }),
            amount <= 0 ==> r == (Span {
                pos_1: (Position { column: (self.pos_1.column + amount) as usize, ..self.pos_1 }),
                ..self
            }),
    {
        if amount > 0 {
            Self { pos_2: self.pos_2.forward_by(amount as usize), ..self }
        } else {
            Self { pos_1: self.pos_1.backward_by((-amount) as usize), ..self }
        }
    }

    /// Shifts both ends of the span by `amount` columns.
    pub fn move_by(self, amount: isize) -> (r: Self)
        requires
            amount > 0 ==> self.pos_1.column + amount <= usize::MAX && self.pos_2.column + amount
                <= usize::MAX,
            amount <= 0 ==> amount > isize::MIN && self.pos_1.column + amount >= 0
                && self.pos_2.column + amount >= 0,
        ensures
            r.pos_1 == (Position {
                column: (self.pos_1.column + amount) as usize,
                ..self.pos_1
            }),
            r.pos_2 == (Position {
                column: (self.pos_2.column + amount) as usize,
                ..self.pos_2
            }),
    {
        if amount > 0 {
            Self {
                pos_1: self.pos_1.forward_by(amount as usize),
                pos_2: self.pos_2.forward_by(amount as usize),
            }
        } else {
            Self {
                pos_1: self.pos_1.backward_by((-amount) as usize),
                pos_2: self.pos_2.backward_by((-amount) as usize),
            }
        }
    }

    /// The span from the start of `self` to the end of `rhs`.
    pub fn extend(self, rhs: Self) -> (r: Self)
        ensures
            r == (Span { pos_1: self.pos_1, pos_2: rhs.pos_2 }),
    {
        Self { pos_1: self.pos_1, pos_2: rhs.pos_2 }
    }
}

} // verus!
