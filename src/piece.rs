use vstd::prelude::*;

use crate::color::Color;
use crate::rand::FastRng;

verus! {

/// The kind of a piece without its color. `Empty` marks a vacant square.
#[derive(Clone, Copy, Debug, PartialEq, Eq, Structural)]
pub enum Dignity {
    Empty,
    Pawn,
    Knight,
    Bishop,
    Rook,
    Queen,
    King,
}

/// A piece: its color and its kind. The vacant square is black with no kind,
/// whatever color it was asked for with.
#[derive(Clone, Copy, Debug, PartialEq, Eq, Structural)]
pub struct Piece {
    pub color: Color,
    pub dignity: Dignity,
}

impl Dignity {
    /// The three-bit tag of the kind, 0 for `Empty` up to 6 for `King`.
    pub open spec fn index_spec(self) -> u8 {
        match self {
            Dignity::Empty => 0,
            Dignity::Pawn => 1,
            Dignity::Knight => 2,
            Dignity::Bishop => 3,
            Dignity::Rook => 4,
            Dignity::Queen => 5,
            Dignity::King => 6,
        }
    }

    /// The upper-case letter of the kind (`P`, `N`, `B`, `R`, `Q`, `K`).
    pub open spec fn letter_spec(self) -> u8 {
        match self {
            Dignity::Empty => 0,
            Dignity::Pawn => 80,
            Dignity::Knight => 78,
            Dignity::Bishop => 66,
            Dignity::Rook => 82,
            Dignity::Queen => 81,
            Dignity::King => 75,
        }
    }

    pub fn from_index(index: u8) -> (r: Dignity)
        requires
            index < 7,
        ensures
            r.index_spec() == index,
    {
        match index {
            0 => Dignity::Empty,
            1 => Dignity::Pawn,
            2 => Dignity::Knight,
            3 => Dignity::Bishop,
            4 => Dignity::Rook,
            5 => Dignity::Queen,
            _ => Dignity::King,
        }
    }

    pub fn index(&self) -> (r: u8)
        ensures
            r == self.index_spec(),
    {
        match *self {
            Dignity::Empty => 0,
            Dignity::Pawn => 1,
            Dignity::Knight => 2,
            Dignity::Bishop => 3,
            Dignity::Rook => 4,
            Dignity::Queen => 5,
            Dignity::King => 6,
        }
    }

    /// The upper-case letter of the kind.
    pub fn as_char(&self) -> (r: u8)
        requires
            *self != Dignity::Empty,
        ensures
            r == self.letter_spec(),
    {
        match *self {
            Dignity::Pawn => 80u8,
            Dignity::Knight => 78u8,
            Dignity::Bishop => 66u8,
            Dignity::Rook => 82u8,
            Dignity::Queen => 81u8,
            _ => 75u8,
        }
    }
}

/// The letters that stand for a piece in a position record: `PNBRQK` for
/// white and `pnbrqk` for black.
pub open spec fn is_piece_letter(c: u8) -> bool {
    c == 80 || c == 78 || c == 66 || c == 82 || c == 81 || c == 75 || c == 112 || c == 110
        || c == 98 || c == 114 || c == 113 || c == 107
}

impl Piece {
    /// Pieces in canonical form: the vacant square is always black.
    pub open spec fn wf(self) -> bool {
        self.dignity == Dignity::Empty ==> self.color == Color::Black
    }

    pub open spec fn is_empty(self) -> bool {
        self.dignity == Dignity::Empty
    }

    /// The four-bit tag: the color above the three bits of the kind.
    pub open spec fn index_spec(self) -> u8 {
        (self.color.index_spec() * 8 + self.dignity.index_spec()) as u8
    }

    /// The letter of a piece in a position record: upper case for white.
    pub open spec fn letter_spec(self) -> u8 {
        if self.color == Color::White {
            self.dignity.letter_spec()
        } else {
            (self.dignity.letter_spec() + 32) as u8
        }
    }

    /// The piece built from a color and a kind, in canonical form.
    pub open spec fn new_spec(color: Color, dignity: Dignity) -> Piece {
        if dignity == Dignity::Empty {
            Piece { color: Color::Black, dignity: Dignity::Empty }
        } else {
            Piece { color, dignity }
        }
    }

    pub open spec fn empty_spec() -> Piece {
        Piece { color: Color::Black, dignity: Dignity::Empty }
    }

    /// The vacant square.
    pub fn empty() -> (r: Piece)
        ensures
            r.wf(),
            r.is_empty(),
            r.index_spec() == 0,
            r == Piece::empty_spec(),
    {
        Piece { color: Color::Black, dignity: Dignity::Empty }
    }

    pub fn new(color: Color, dignity: Dignity) -> (r: Piece)
        ensures
            r == Piece::new_spec(color, dignity),
            r.wf(),
    {
        if dignity == Dignity::Empty {
            Piece { color: Color::Black, dignity: Dignity::Empty }
        } else {
            Piece { color, dignity }
        }
    }

    /// The piece with the given four-bit tag; tags 7, 8 and 15 name none.
    pub fn from_index(index: u8) -> (r: Piece)
        requires
            index < 16,
            index % 8 != 7,
            index != 8,
        ensures
            r.index_spec() == index,
            r.wf(),
    {
        let color = Color::from_index(index / 8);
        let dignity = Dignity::from_index(index % 8);
        Piece { color, dignity }
    }

    pub fn index(self) -> (r: u8)
        ensures
            r == self.index_spec(),
            r < 16,
    {
        self.color.index() * 8 + self.dignity.index()
    }

    pub fn dignity(self) -> (r: Dignity)
        ensures
            r == self.dignity,
    {
        self.dignity
    }

    pub fn color(self) -> (r: Color)
        ensures
            r == self.color,
    {
        self.color
    }

    /// Reads the letter of a piece in a position record.
    pub fn from_fen(fen: u8) -> (r: Piece)
        requires
            is_piece_letter(fen),
        ensures
            r.wf(),
            !r.is_empty(),
            r.letter_spec() == fen,
    {
        let (color, upper) = if fen >= 97u8 {
            (Color::Black, fen - 32u8)
        } else {
            (Color::White, fen)
        };
        let dignity = match upper {
            80u8 => Dignity::Pawn,
            78u8 => Dignity::Knight,
            66u8 => Dignity::Bishop,
            82u8 => Dignity::Rook,
            81u8 => Dignity::Queen,
            _ => Dignity::King,
        };
        Piece { color, dignity }
    }

    /// The letter of the piece in a position record.
    pub fn fen(self) -> (r: u8)
        requires
            !self.is_empty(),
        ensures
            r == self.letter_spec(),
            is_piece_letter(r),
    {
        let upper = self.dignity.as_char();
        match self.color {
            Color::White => upper,
            Color::Black => upper + 32u8,
        }
    }

    /// A random piece that is not the vacant square.
    pub fn rand(rng: &mut FastRng) -> (r: Piece)
        ensures
            r.wf(),
            !r.is_empty(),
    {
        let dignity = Dignity::from_index(rng.rand_range_u8(1, 7));
        let color = Color::from_index(rng.rand_range_u8(0, 2));
        Piece::new(color, dignity)
    }
}

/// Each piece has a letter of its own, and it is no digit.
pub proof fn lemma_letter_injective(p: Piece, q: Piece)
    requires
        p.wf(),
        q.wf(),
        !p.is_empty(),
        !q.is_empty(),
    ensures
        p.letter_spec() == q.letter_spec() ==> p == q,
        is_piece_letter(p.letter_spec()),
        !(48 <= p.letter_spec() <= 57),
{
}

/// The word for a color.
pub open spec fn color_word(c: Color) -> Seq<u8> {
    if c == Color::White {
        seq![87u8, 104, 105, 116, 101]
    } else {
        seq![66u8, 108, 97, 99, 107]
    }
}

/// The word for a kind of piece.
pub open spec fn dignity_word(d: Dignity) -> Seq<u8> {
    match d {
        Dignity::Empty => seq![78u8, 111, 110, 101],
        Dignity::Pawn => seq![80u8, 97, 119, 110],
        Dignity::Knight => seq![75u8, 110, 105, 103, 104, 116],
        Dignity::Bishop => seq![66u8, 105, 115, 104, 111, 112],
        Dignity::Rook => seq![82u8, 111, 111, 107],
        Dignity::Queen => seq![81u8, 117, 101, 101, 110],
        Dignity::King => seq![75u8, 105, 110, 103],
    }
}

impl Piece {
    /// The name of the piece, as `White Knight`; the vacant square is
    /// `None (Piece)`.
    pub open spec fn name_spec(self) -> Seq<u8> {
        if self.is_empty() {
            dignity_word(Dignity::Empty) + seq![32u8, 40, 80, 105, 101, 99, 101, 41]
        } else {
            color_word(self.color) + seq![32u8] + dignity_word(self.dignity)
        }
    }

    pub fn name(self) -> (r: Vec<u8>)
        ensures
            r@ == self.name_spec(),
    {
        let mut out: Vec<u8> = Vec::new();
        if self.dignity == Dignity::Empty {
            let mut word = vec![78u8, 111, 110, 101, 32, 40, 80, 105, 101, 99, 101, 41];
            out.append(&mut word);
            assert(out@ =~= self.name_spec());
            return out;
        }
        let mut color = match self.color {
            Color::White => vec![87u8, 104, 105, 116, 101],
            Color::Black => vec![66u8, 108, 97, 99, 107],
        };
        out.append(&mut color);
        out.push(32u8);
        let mut word = match self.dignity {
            Dignity::Empty => vec![78u8, 111, 110, 101],
            Dignity::Pawn => vec![80u8, 97, 119, 110],
            Dignity::Knight => vec![75u8, 110, 105, 103, 104, 116],
            Dignity::Bishop => vec![66u8, 105, 115, 104, 111, 112],
            Dignity::Rook => vec![82u8, 111, 111, 107],
            Dignity::Queen => vec![81u8, 117, 101, 101, 110],
            Dignity::King => vec![75u8, 105, 110, 103],
        };
        out.append(&mut word);
        assert(out@ =~= self.name_spec());
        out
    }
}

} // verus!
