use vstd::prelude::*;

use crate::square::Rank;

verus! {

/// The side a piece belongs to.
#[derive(Clone, Copy, Debug, PartialEq, Eq, Structural)]
pub enum Color {
    Black,
    White,
}

impl Color {
    /// The one-bit tag of the color: black is 0, white is 1.
    pub open spec fn index_spec(self) -> u8 {
        match self {
            Color::Black => 0,
            Color::White => 1,
        }
    }

    pub open spec fn swapped_spec(self) -> Color {
        match self {
            Color::Black => Color::White,
            Color::White => Color::Black,
        }
    }

    pub fn from_index(index: u8) -> (r: Color)
        requires
            index < 2,
        ensures
            r.index_spec() == index,
    {
        if index == 0 {
            Color::Black
        } else {
            Color::White
        }
    }

    /// Reads the active-color field of a position record: `b` or `w`.
    pub fn from_fen(fen: u8) -> (r: Color)
        requires
            fen == 98u8 || fen == 119u8,
        ensures
            r == (if fen == 119u8 { Color::White } else { Color::Black }),
    {
        if fen == 119u8 {
            Color::White
        } else {
            Color::Black
        }
    }

    pub fn index(self) -> (r: u8)
        ensures
            r == self.index_spec(),
    {
        match self {
            Color::Black => 0,
            Color::White => 1,
        }
    }

    /// The rank on which this side's king and rooks start.
    pub fn start_rank(self) -> (r: Rank)
        ensures
            r@ == (if self == Color::White { 0int } else { 56int }),
    {
        match self {
            Color::Black => Rank::from_index(56),
            Color::White => Rank::from_index(0),
        }
    }

    /// The letter of the color in a position record.
    pub fn fen(self) -> (r: u8)
        ensures
            r == (if self == Color::White { 119u8 } else { 98u8 }),
    {
        match self {
            Color::Black => 98u8,
            Color::White => 119u8,
        }
    }

    pub fn swapped(self) -> (r: Color)
        ensures
            r == self.swapped_spec(),
            r != self,
    {
        match self {
            Color::Black => Color::White,
            Color::White => Color::Black,
        }
    }

    pub fn swap(&mut self)
        ensures
            *final(self) == old(self).swapped_spec(),
    {
        *self = self.swapped();
    }
}

} // verus!
