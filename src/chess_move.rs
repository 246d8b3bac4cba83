use vstd::prelude::*;

use crate::piece::Dignity;
use crate::square::Square;

verus! {

/// A move: its source and destination, the kind it captures, the kind a
/// pawn promotes to, and whether it is an en-passant capture.
#[derive(Clone, Copy, Debug, PartialEq, Eq, Structural)]
pub struct Move {
    pub from: Square,
    pub to: Square,
    pub captured: Dignity,
    pub promoted: Dignity,
    pub en_passant: bool,
}

/// The rank (0..7) of a square.
pub open spec fn row(s: Square) -> int {
    s@ / 8
}

/// The file (0..7) of a square.
pub open spec fn col(s: Square) -> int {
    s@ % 8
}

impl Move {
    pub open spec fn wf(self) -> bool {
        self.from.wf() && self.to.wf()
    }

    /// The move as one 19-bit number: from-square in bits 0..5, to-square in
    /// bits 6..11, captured kind in bits 12..14, promoted kind in bits 15..17
    /// and the en-passant flag in bit 18.
    pub open spec fn index_spec(self) -> int {
        self.from@ + 64 * self.to@ + 4096 * self.captured.index_spec() + 32768
            * self.promoted.index_spec() + 262144 * (if self.en_passant { 1int } else { 0int })
    }

    pub fn new(from: Square, to: Square, captured: Dignity, promoted: Dignity, special_bits: u32) -> (r: Move)
        requires
            from.wf(),
            to.wf(),
            special_bits < 2,
        ensures
            r == (Move { from, to, captured, promoted, en_passant: special_bits == 1 }),
            r.wf(),
    {
        Move { from, to, captured, promoted, en_passant: special_bits == 1 }
    }

    pub fn capture(from: Square, to: Square, captured: Dignity) -> (r: Move)
        requires
            from.wf(),
            to.wf(),
            captured != Dignity::Empty,
        ensures
            r == (Move { from, to, captured, promoted: Dignity::Empty, en_passant: false }),
            r.wf(),
    {
        Move::new(from, to, captured, Dignity::Empty, 0)
    }

    pub fn quiet(from: Square, to: Square) -> (r: Move)
        requires
            from.wf(),
            to.wf(),
        ensures
            r == (Move { from, to, captured: Dignity::Empty, promoted: Dignity::Empty, en_passant: false }),
            r.wf(),
    {
        Move::new(from, to, Dignity::Empty, Dignity::Empty, 0)
    }

    /// A pawn's step of one square; it starts on ranks 2..7.
    pub fn pawn_single(from: Square, to: Square) -> (r: Move)
        requires
            from.wf(),
            to.wf(),
            1 <= row(from) <= 6,
        ensures
            r == (Move { from, to, captured: Dignity::Empty, promoted: Dignity::Empty, en_passant: false }),
            r.wf(),
    {
        Move::new(from, to, Dignity::Empty, Dignity::Empty, 0)
    }

    /// A pawn's step of two squares; it starts on rank 2 or 7.
    pub fn pawn_double(from: Square, to: Square) -> (r: Move)
        requires
            from.wf(),
            to.wf(),
            row(from) == 1 || row(from) == 6,
        ensures
            r == (Move { from, to, captured: Dignity::Empty, promoted: Dignity::Empty, en_passant: false }),
            r.wf(),
    {
        Move::new(from, to, Dignity::Empty, Dignity::Empty, 0)
    }

    /// An en-passant capture: from rank 4 to rank 3 or from rank 5 to rank 6.
    pub fn en_passant(from: Square, to: Square) -> (r: Move)
        requires
            from.wf(),
            to.wf(),
            (row(from) == 3 && row(to) == 2) || (row(from) == 4 && row(to) == 5),
        ensures
            r == (Move { from, to, captured: Dignity::Pawn, promoted: Dignity::Empty, en_passant: true }),
            r.wf(),
    {
        Move::new(from, to, Dignity::Pawn, Dignity::Empty, 1)
    }

    /// A pawn's step onto the last rank, becoming `promoted`.
    pub fn promotion(from: Square, to: Square, promoted: Dignity) -> (r: Move)
        requires
            from.wf(),
            to.wf(),
            (row(from) == 1 && row(to) == 0) || (row(from) == 6 && row(to) == 7),
            promoted != Dignity::Empty,
        ensures
            r == (Move { from, to, captured: Dignity::Empty, promoted, en_passant: false }),
            r.wf(),
    {
        Move::new(from, to, Dignity::Empty, promoted, 0)
    }

    /// A pawn's capture onto the last rank, becoming `promoted`.
    pub fn promotion_capture(from: Square, to: Square, captured: Dignity, promoted: Dignity) -> (r: Move)
        requires
            from.wf(),
            to.wf(),
            (row(from) == 1 && row(to) == 0) || (row(from) == 6 && row(to) == 7),
            promoted != Dignity::Empty,
            captured != Dignity::Empty,
        ensures
            r == (Move { from, to, captured, promoted, en_passant: false }),
            r.wf(),
    {
        Move::new(from, to, captured, promoted, 0)
    }

    /// The king's castling move toward the h-file: from file e to file g.
    pub fn king_side_castling(from: Square, to: Square) -> (r: Move)
        requires
            from.wf(),
            to.wf(),
            col(from) == 4,
            col(to) == 6,
        ensures
            r == (Move { from, to, captured: Dignity::Empty, promoted: Dignity::Empty, en_passant: false }),
            r.wf(),
    {
        Move::new(from, to, Dignity::Empty, Dignity::Empty, 0)
    }

    /// The king's castling move toward the a-file: from file e to file c.
    pub fn queen_side_castling(from: Square, to: Square) -> (r: Move)
        requires
            from.wf(),
            to.wf(),
            col(from) == 4,
            col(to) == 2,
        ensures
            r == (Move { from, to, captured: Dignity::Empty, promoted: Dignity::Empty, en_passant: false }),
            r.wf(),
    {
        Move::new(from, to, Dignity::Empty, Dignity::Empty, 0)
    }

    pub fn from(self) -> (r: Square)
        ensures
            r == self.from,
    {
        self.from
    }

    pub fn to(self) -> (r: Square)
        ensures
            r == self.to,
    {
        self.to
    }

    pub fn captured(self) -> (r: Dignity)
        ensures
            r == self.captured,
    {
        self.captured
    }

    pub fn promoted(self) -> (r: Dignity)
        ensures
            r == self.promoted,
    {
        self.promoted
    }

    /// The 19-bit number of the move.
    pub fn index(self) -> (r: u32)
        requires
            self.wf(),
        ensures
            r == self.index_spec(),
    {
        let special: u32 = if self.en_passant { 1 } else { 0 };
        self.from.index() as u32 + 64 * self.to.index() as u32 + 4096 * self.captured.index() as u32
            + 32768 * self.promoted.index() as u32 + 262144 * special
    }

    pub fn is_capture(self) -> (r: bool)
        ensures
            r == (self.captured != Dignity::Empty),
    {
        self.captured != Dignity::Empty
    }

    /// Whether a piece of kind `moved` making this move is a pawn advancing
    /// two squares: rank 2 to rank 4 or rank 7 to rank 5.
    pub open spec fn is_pawn_double_move_spec(self, moved: Dignity) -> bool {
        moved == Dignity::Pawn && ((row(self.from) == 1 && row(self.to) == 3) || (row(self.from) == 6
            && row(self.to) == 4))
    }

    pub open spec fn is_king_side_castling_spec(self, moved: Dignity) -> bool {
        col(self.from) == 4 && col(self.to) == 6 && moved == Dignity::King
    }

    pub open spec fn is_queen_side_castling_spec(self, moved: Dignity) -> bool {
        col(self.from) == 4 && col(self.to) == 2 && moved == Dignity::King
    }

    pub fn is_pawn_double_move(self, moved: Dignity) -> (r: bool)
        requires
            self.wf(),
        ensures
            r == self.is_pawn_double_move_spec(moved),
    {
        if moved != Dignity::Pawn {
            return false;
        }
        let fr = self.from.rank().index();
        let tr = self.to.rank().index();
        (fr == 8 && tr == 24) || (fr == 48 && tr == 32)
    }

    pub fn is_king_side_castling(self, moved: Dignity) -> (r: bool)
        requires
            self.wf(),
        ensures
            r == self.is_king_side_castling_spec(moved),
    {
        self.from.file().index() == 4 && self.to.file().index() == 6 && moved == Dignity::King
    }

    pub fn is_queen_side_castling(self, moved: Dignity) -> (r: bool)
        requires
            self.wf(),
        ensures
            r == self.is_queen_side_castling_spec(moved),
    {
        self.from.file().index() == 4 && self.to.file().index() == 2 && moved == Dignity::King
    }

    pub fn is_en_passant(self) -> (r: bool)
        ensures
            r == self.en_passant,
    {
        self.en_passant
    }

    /// The move in coordinate notation: source, destination and, for a
    /// promotion, the upper-case letter of the new kind (`a7a8Q`).
    pub open spec fn notation_spec(self) -> Seq<u8> {
        let base = seq![
            (97 + col(self.from)) as u8,
            (49 + row(self.from)) as u8,
            (97 + col(self.to)) as u8,
            (49 + row(self.to)) as u8,
        ];
        if self.promoted == Dignity::Empty {
            base
        } else {
            base.push(self.promoted.letter_spec())
        }
    }

    pub fn notation(self) -> (r: Vec<u8>)
        requires
            self.wf(),
        ensures
            r@ == self.notation_spec(),
    {
        let (ff, fr) = self.from.fen();
        let (tf, tr) = self.to.fen();
        let mut out: Vec<u8> = Vec::new();
        out.push(ff);
        out.push(fr);
        out.push(tf);
        out.push(tr);
        if self.promoted != Dignity::Empty {
            out.push(self.promoted.as_char());
        }
        proof {
            assert(out@ =~= self.notation_spec());
        }
        out
    }
}

} // verus!
