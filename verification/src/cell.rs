//! The three states a grid position can be in.

use vstd::prelude::*;

verus! {

/// State of one grid position. A cell carries nothing but its state.
#[derive(Clone, Copy, Debug, PartialEq, Eq, Structural)]
pub enum Cell {
    /// Nothing is here.
    Empty,
    /// A particle that is still wandering.
    Flying,
    /// Part of the fixed structure.
    Frozen,
}

impl Cell {
    /// The character that stands for this state when a grid is drawn.
    pub open spec fn glyph_of(self) -> char {
        match self {
            Cell::Empty => ' ',
            Cell::Flying => '~',
            Cell::Frozen => '*',
        }
    }

    /// Whether this cell belongs to the fixed structure.
    pub fn is_frozen(&self) -> (b: bool)
        ensures
            b == (*self == Cell::Frozen),
    {
        *self == Cell::Frozen
    }

    /// Whether this cell holds a wandering particle.
    pub fn is_flying(&self) -> (b: bool)
        ensures
            b == (*self == Cell::Flying),
    {
        *self == Cell::Flying
    }

    /// Whether this cell holds nothing.
    pub fn is_empty(&self) -> (b: bool)
        ensures
            b == (*self == Cell::Empty),
    {
        *self == Cell::Empty
    }

    /// The character drawn for this cell: a space for `Empty`, `~` for
    /// `Flying`, `*` for `Frozen`.
    pub fn glyph(&self) -> (c: char)
        ensures
            c == self.glyph_of(),
    {
        match self {
            Cell::Empty => ' ',
            Cell::Flying => '~',
            Cell::Frozen => '*',
        }
    }
}

} // verus!
