use vstd::prelude::*;

use crate::buffer::FenBuffer;
use crate::color::Color;
use crate::square::Square;

verus! {

/// The castling rights as a four-bit mask: black queen side 1, black king
/// side 2, white queen side 4, white king side 8.
#[derive(Clone, Copy, Debug, PartialEq, Eq, Structural)]
pub struct CastlingRights(pub u8);

pub const BLACK_QUEEN_SIDE: u8 = 1;
pub const BLACK_KING_SIDE: u8 = 2;
pub const WHITE_QUEEN_SIDE: u8 = 4;
pub const WHITE_KING_SIDE: u8 = 8;

/// The rights of a position record's castling field, each letter read as the
/// right it names: `K`, `Q`, `k` or `q`.
pub open spec fn right_of_letter(c: u8) -> u8 {
    if c == 75 {
        WHITE_KING_SIDE
    } else if c == 81 {
        WHITE_QUEEN_SIDE
    } else if c == 107 {
        BLACK_KING_SIDE
    } else {
        BLACK_QUEEN_SIDE
    }
}

pub open spec fn is_castling_letter(c: u8) -> bool {
    c == 75 || c == 81 || c == 107 || c == 113
}

proof fn lemma_mask(a: u8, b: u8)
    requires
        a < 16,
        b < 16,
    ensures
        a | b < 16,
        a & !b < 16,
        (a | b) & b == b,
        (a & !b) & b == 0,
        b == 1 || b == 2 || b == 4 || b == 8 ==> ((a & b == b) == (a & b != 0)),
{
    assert(a | b < 16 && a & !b < 16 && (a | b) & b == b && (a & !b) & b == 0 && (b == 1 || b == 2
        || b == 4 || b == 8 ==> ((a & b == b) == (a & b != 0)))) by (bit_vector)
        requires
            a < 16,
            b < 16,
    ;
}

/// The castling field of a position record: `-` when no right is left, else
/// the letters `K`, `Q`, `k`, `q` of the rights held, in that order.
pub open spec fn castling_text(c: u8) -> Seq<u8> {
    if c == 0 {
        seq![45u8]
    } else {
        (if c & 8 != 0 { seq![75u8] } else { Seq::empty() }) + (if c & 4 != 0 {
            seq![81u8]
        } else {
            Seq::empty()
        }) + (if c & 2 != 0 { seq![107u8] } else { Seq::empty() }) + (if c & 1 != 0 {
            seq![113u8]
        } else {
            Seq::empty()
        })
    }
}

impl CastlingRights {
    pub open spec fn view(self) -> u8 {
        self.0
    }

    pub open spec fn wf(self) -> bool {
        self.0 < 16
    }

    /// Whether the mask is one single right.
    pub open spec fn is_single(self) -> bool {
        self.0 == 1 || self.0 == 2 || self.0 == 4 || self.0 == 8
    }

    pub open spec fn allows(self, other: CastlingRights) -> bool {
        self.0 & other.0 == other.0
    }

    pub open spec fn king_side_spec(c: Color) -> u8 {
        if c == Color::White { WHITE_KING_SIDE } else { BLACK_KING_SIDE }
    }

    pub open spec fn queen_side_spec(c: Color) -> u8 {
        if c == Color::White { WHITE_QUEEN_SIDE } else { BLACK_QUEEN_SIDE }
    }

    /// No right at all.
    pub fn none() -> (r: CastlingRights)
        ensures
            r@ == 0,
    {
        CastlingRights(0)
    }

    /// All four rights.
    pub fn all() -> (r: CastlingRights)
        ensures
            r@ == 15,
    {
        CastlingRights(15)
    }

    pub fn from_index(index: u8) -> (r: CastlingRights)
        requires
            index < 16,
        ensures
            r@ == index,
    {
        CastlingRights(index)
    }

    pub fn king_side(side_to_move: Color) -> (r: CastlingRights)
        ensures
            r@ == CastlingRights::king_side_spec(side_to_move),
    {
        match side_to_move {
            Color::Black => CastlingRights(BLACK_KING_SIDE),
            Color::White => CastlingRights(WHITE_KING_SIDE),
        }
    }

    pub fn queen_side(side_to_move: Color) -> (r: CastlingRights)
        ensures
            r@ == CastlingRights::queen_side_spec(side_to_move),
    {
        match side_to_move {
            Color::Black => CastlingRights(BLACK_QUEEN_SIDE),
            Color::White => CastlingRights(WHITE_QUEEN_SIDE),
        }
    }

    /// Both rights of one side.
    pub fn both(side_to_move: Color) -> (r: CastlingRights)
        ensures
            r@ == (if side_to_move == Color::White { 12u8 } else { 3u8 }),
    {
        match side_to_move {
            Color::Black => CastlingRights(3),
            Color::White => CastlingRights(12),
        }
    }

    pub fn index(self) -> (r: u8)
        ensures
            r == self@,
    {
        self.0
    }

    pub fn unset(&mut self)
        ensures
            final(self)@ == 0,
    {
        self.0 = 0;
    }

    /// Grants the right that a letter of a position record's castling field names.
    pub fn set_from_fen(&mut self, fen: u8)
        requires
            old(self).wf(),
            is_castling_letter(fen),
        ensures
            final(self)@ == old(self)@ | right_of_letter(fen),
            final(self).wf(),
    {
        let right = if fen == 75u8 {
            WHITE_KING_SIDE
        } else if fen == 81u8 {
            WHITE_QUEEN_SIDE
        } else if fen == 107u8 {
            BLACK_KING_SIDE
        } else {
            BLACK_QUEEN_SIDE
        };
        self.allow(CastlingRights(right));
    }

    pub fn is_allowed(self, other: Self) -> (r: bool)
        ensures
            r == self.allows(other),
    {
        (self.0 & other.0) == other.0
    }

    pub fn allow(&mut self, other: Self)
        requires
            old(self).wf(),
            other.wf(),
        ensures
            final(self)@ == old(self)@ | other@,
            final(self).wf(),
            final(self).allows(other),
    {
        proof {
            lemma_mask(self.0, other.0);
        }
        self.0 = self.0 | other.0;
    }

    pub fn disallow(&mut self, other: Self)
        requires
            old(self).wf(),
            other.wf(),
        ensures
            final(self)@ == old(self)@ & !other@,
            final(self).wf(),
    {
        proof {
            lemma_mask(self.0, other.0);
        }
        self.0 = self.0 & !other.0;
    }

    /// Writes the castling field of a position record.
    pub fn fen(self, buffer: &mut FenBuffer)
        requires
            old(buffer).wf(),
            old(buffer)@.len() + 4 <= 90,
        ensures
            final(buffer).wf(),
            final(buffer)@ == old(buffer)@ + castling_text(self@),
    {
        if self.0 == 0 {
            buffer.add(45u8);
            assert(final(buffer)@ =~= old(buffer)@ + castling_text(self@));
            return;
        }
        let ghost start = buffer@;
        if self.0 & WHITE_KING_SIDE != 0 {
            buffer.add(75u8);
        }
        if self.0 & WHITE_QUEEN_SIDE != 0 {
            buffer.add(81u8);
        }
        if self.0 & BLACK_KING_SIDE != 0 {
            buffer.add(107u8);
        }
        if self.0 & BLACK_QUEEN_SIDE != 0 {
            buffer.add(113u8);
        }
        assert(buffer@ =~= start + castling_text(self@));
    }

    /// Where the king lands when castling with this single right.
    pub fn king_destination(self) -> (r: Square)
        requires
            self.is_single(),
        ensures
            r.wf(),
            r@ == (if self@ == 1 { 58int } else if self@ == 2 { 62int } else if self@ == 4 { 2int } else { 6int }),
    {
        if self.0 == BLACK_QUEEN_SIDE {
            Square::from_index(58)
        } else if self.0 == BLACK_KING_SIDE {
            Square::from_index(62)
        } else if self.0 == WHITE_QUEEN_SIDE {
            Square::from_index(2)
        } else {
            Square::from_index(6)
        }
    }

    /// The corner the rook of this single right starts on.
    pub fn rook_initial(self) -> (r: Square)
        requires
            self.is_single(),
        ensures
            r.wf(),
            r@ == (if self@ == 1 { 56int } else if self@ == 2 { 63int } else if self@ == 4 { 0int } else { 7int }),
    {
        if self.0 == BLACK_QUEEN_SIDE {
            Square::from_index(56)
        } else if self.0 == BLACK_KING_SIDE {
            Square::from_index(63)
        } else if self.0 == WHITE_QUEEN_SIDE {
            Square::from_index(0)
        } else {
            Square::from_index(7)
        }
    }

    /// Where the rook of this single right lands when castling.
    pub fn rook_destination(self) -> (r: Square)
        requires
            self.is_single(),
        ensures
            r.wf(),
            r@ == (if self@ == 1 { 59int } else if self@ == 2 { 61int } else if self@ == 4 { 3int } else { 5int }),
    {
        if self.0 == BLACK_QUEEN_SIDE {
            Square::from_index(59)
        } else if self.0 == BLACK_KING_SIDE {
            Square::from_index(61)
        } else if self.0 == WHITE_QUEEN_SIDE {
            Square::from_index(3)
        } else {
            Square::from_index(5)
        }
    }
}

/// The rights named by the letters of `t`.
pub open spec fn rights_of_text(t: Seq<u8>) -> u8
    decreases t.len(),
{
    if t.len() == 0 {
        0
    } else {
        rights_of_text(t.drop_last()) | right_of_letter(t.last())
    }
}

proof fn lemma_or_facts(a: u8, b: u8, c: u8)
    ensures
        0u8 | a == a,
        (a | b) | c == a | (b | c),
{
    assert(0u8 | a == a && (a | b) | c == a | (b | c)) by (bit_vector);
}

pub proof fn lemma_rights_of_text_push(t: Seq<u8>, l: u8)
    ensures
        rights_of_text(t.push(l)) == rights_of_text(t) | right_of_letter(l),
{
    assert(t.push(l).drop_last() =~= t);
}

/// Reading the castling field back gives the rights it was written from.
pub proof fn lemma_castling_text_rights(c: u8)
    requires
        0 < c < 16,
    ensures
        rights_of_text(castling_text(c)) == c,
        forall|j: int| 0 <= j < castling_text(c).len() ==> is_castling_letter(
            #[trigger] castling_text(c)[j],
        ),
{
    let k: u8 = if c & 8 != 0 { 8 } else { 0 };
    let q: u8 = if c & 4 != 0 { 4 } else { 0 };
    let bk: u8 = if c & 2 != 0 { 2 } else { 0 };
    let bq: u8 = if c & 1 != 0 { 1 } else { 0 };
    assert(k | q | bk | bq == c) by (bit_vector)
        requires
            c < 16,
            k == (if c & 8 != 0 { 8u8 } else { 0u8 }),
            q == (if c & 4 != 0 { 4u8 } else { 0u8 }),
            bk == (if c & 2 != 0 { 2u8 } else { 0u8 }),
            bq == (if c & 1 != 0 { 1u8 } else { 0u8 }),
    ;
    let t0 = Seq::<u8>::empty();
    let t1 = if c & 8 != 0 { t0.push(75u8) } else { t0 };
    let t2 = if c & 4 != 0 { t1.push(81u8) } else { t1 };
    let t3 = if c & 2 != 0 { t2.push(107u8) } else { t2 };
    let t4 = if c & 1 != 0 { t3.push(113u8) } else { t3 };
    assert(castling_text(c) =~= t4);
    lemma_rights_of_text_push(t0, 75u8);
    lemma_rights_of_text_push(t1, 81u8);
    lemma_rights_of_text_push(t2, 107u8);
    lemma_rights_of_text_push(t3, 113u8);
    assert(rights_of_text(t0) == 0);
    assert(rights_of_text(t1) == k) by {
        lemma_or_facts(8u8, 0, 0);
    }
    assert(rights_of_text(t2) == k | q) by {
        lemma_or_facts(4u8, 0, 0);
        assert(k | 0 == k) by (bit_vector);
    }
    assert(rights_of_text(t3) == k | q | bk) by {
        assert((k | q) | 0 == k | q) by (bit_vector);
    }
    assert(rights_of_text(t4) == k | q | bk | bq) by {
        assert((k | q | bk) | 0 == k | q | bk) by (bit_vector);
    }
}

} // verus!
