use vstd::prelude::*;

use crate::color::Color;
use crate::rand::FastRng;

verus! {

/// One of the 64 squares: a1 = 0, h1 = 7, a8 = 56, h8 = 63.
/// The file is held in the low three bits and the rank in the high three.
#[derive(Clone, Copy, Debug, PartialEq, Eq, Structural)]
pub struct Square(pub u8);

/// A file a..h as 0..7, or the marker that no en-passant capture is open.
#[derive(Clone, Copy, Debug, PartialEq, Eq, Structural)]
pub struct File(pub u8);

/// A rank 1..8 held as 0, 8, .., 56, so that a file plus a rank is a square.
#[derive(Clone, Copy, Debug, PartialEq, Eq, Structural)]
pub struct Rank(pub u8);

/// The value a `File` holds when no en-passant capture is open.
pub const EN_PASSANT_NONE: u8 = 64;

/// Walks the squares a1, b1, .., h8 in index order.
pub struct SquareIterator(pub Square);

/// Walks the files a..h.
pub struct FileIterator(pub File);

/// Walks the ranks from 8 down to 1.
pub struct RevRankIterator(pub Rank);

/// The index of an optional square.
pub open spec fn opt_index(s: Option<Square>) -> Option<int> {
    match s {
        Some(sq) => Some(sq@),
        None => None,
    }
}

/// The index of the square `dx` columns and `dy` rows away from square
/// `t`, if it is on the board.
pub open spec fn offset_index(t: int, dx: int, dy: int) -> Option<int> {
    let x = t % 8 + dx;
    let y = t / 8 + dy;
    if 0 <= x < 8 && 0 <= y < 8 {
        Some(x + 8 * y)
    } else {
        None
    }
}

/// One step forward for a pawn of `color`: up the board for white, down for black.
pub open spec fn forward_dy(color: Color) -> int {
    if color == Color::White { 1 } else { -1 }
}

impl Square {
    pub open spec fn view(self) -> int {
        self.0 as int
    }

    pub open spec fn wf(self) -> bool {
        self.0 < 64
    }

    pub open spec fn x_spec(self) -> int {
        self@ % 8
    }

    pub open spec fn y_spec(self) -> int {
        self@ / 8
    }

    /// The index of the square `dx` columns and `dy` rows away, if it is on the board.
    pub open spec fn offset(self, dx: int, dy: int) -> Option<int> {
        offset_index(self@, dx, dy)
    }

    pub fn from_index(index: u8) -> (r: Square)
        requires
            index < 64,
        ensures
            r@ == index,
            r.wf(),
    {
        Square(index)
    }

    pub fn from_file_rank(file: File, rank: Rank) -> (r: Square)
        requires
            file.wf(),
            rank.wf(),
        ensures
            r@ == file@ + rank@,
            r.wf(),
            r.x_spec() == file@,
            r.y_spec() * 8 == rank@,
    {
        Square(file.0 + rank.0)
    }

    pub fn from_x_y(x: u8, y: u8) -> (r: Square)
        requires
            x < 8,
            y < 8,
        ensures
            r@ == x + 8 * y,
            r.wf(),
    {
        Square(x + y * 8)
    }

    /// Reads a square written as a file letter and a rank digit (`e4`).
    pub fn from_fen(file: u8, rank: u8) -> (r: Square)
        requires
            97 <= file <= 104,
            49 <= rank <= 56,
        ensures
            r@ == (file - 97) + 8 * (rank - 49),
            r.wf(),
    {
        Square((file - 97u8) + (rank - 49u8) * 8)
    }

    pub fn index(self) -> (r: u8)
        ensures
            r == self@,
    {
        self.0
    }

    /// The squares in index order, a1 first.
    pub fn iter() -> (r: SquareIterator)
        ensures
            r.0@ == 0,
    {
        SquareIterator(Square(0))
    }

    pub fn x(self) -> (r: u8)
        ensures
            r == self.x_spec(),
    {
        self.0 % 8
    }

    pub fn y(self) -> (r: u8)
        ensures
            r == self.y_spec(),
    {
        self.0 / 8
    }

    pub fn file(self) -> (r: File)
        requires
            self.wf(),
        ensures
            r@ == self.x_spec(),
            r.wf(),
    {
        File(self.0 % 8)
    }

    pub fn rank(self) -> (r: Rank)
        requires
            self.wf(),
        ensures
            r@ == self.y_spec() * 8,
            r.wf(),
    {
        Rank(self.0 / 8 * 8)
    }

    /// The square as a file letter and a rank digit.
    pub fn fen(self) -> (r: (u8, u8))
        requires
            self.wf(),
        ensures
            r.0 == 97 + self.x_spec(),
            r.1 == 49 + self.y_spec(),
    {
        (97u8 + self.0 % 8, 49u8 + self.0 / 8)
    }

    pub fn rand(rng: &mut FastRng) -> (r: Square)
        ensures
            r.wf(),
    {
        Square::from_index(rng.rand_range_u8(0, 64))
    }

    pub fn up(self, by: u8) -> (r: Square)
        requires
            self@ + 8 * by < 64,
        ensures
            r@ == self@ + 8 * by,
            r.wf(),
    {
        Square(self.0 + by * 8)
    }

    pub fn down(self, by: u8) -> (r: Square)
        requires
            self.wf(),
            self@ >= 8 * by,
        ensures
            r@ == self@ - 8 * by,
            r.wf(),
    {
        Square(self.0 - by * 8)
    }

    /// The square `dx` columns and `dy` rows away, or `None` off the board.
    pub fn shift(self, dx: i8, dy: i8) -> (r: Option<Square>)
        requires
            self.wf(),
        ensures
            opt_index(r) == self.offset(dx as int, dy as int),
            r matches Some(s) ==> s.wf(),
    {
        let x = (self.0 % 8) as i16 + dx as i16;
        let y = (self.0 / 8) as i16 + dy as i16;
        if x < 0 || x >= 8 {
            return None;
        }
        if y < 0 || y >= 8 {
            return None;
        }
        Some(Square::from_x_y(x as u8, y as u8))
    }

    /// Moves black pieces toward rank 1 and white pieces toward rank 8.
    pub fn forward(self, color: Color, by: u8) -> (r: Square)
        requires
            self.wf(),
            0 <= self@ + 8 * by * forward_dy(color) < 64,
        ensures
            r@ == self@ + 8 * by * forward_dy(color),
            r.wf(),
    {
        match color {
            Color::Black => self.down(by),
            Color::White => self.up(by),
        }
    }

    pub fn move_right_unchecked(&mut self, by: u8)
        requires
            old(self).0 + by <= 100,
        ensures
            final(self)@ == old(self)@ + by,
    {
        self.0 = self.0 + by;
    }

    pub fn move_down_unchecked(&mut self, by: u8)
        requires
            by < 32,
        ensures
            final(self)@ == (old(self)@ - 8 * by) % 256,
    {
        self.0 = self.0.wrapping_sub(by * 8);
    }

    /// The square behind the pawn that just moved two squares, as the side to
    /// move sees it: on rank 6 when white moves, on rank 3 when black moves.
    pub fn en_passant(side_to_move: Color, en_passant_file: File) -> (r: Square)
        requires
            en_passant_file.wf(),
        ensures
            r@ == en_passant_file@ + (if side_to_move == Color::White { 40int } else { 16int }),
            r.wf(),
    {
        let rank = Rank::en_passant(side_to_move);
        Square::from_file_rank(en_passant_file, rank)
    }

    /// The square on which the king of `color` starts: e1 or e8.
    pub fn king_initial(color: Color) -> (r: Square)
        ensures
            r@ == (if color == Color::White { 4int } else { 60int }),
            r.wf(),
    {
        match color {
            Color::Black => Square(60),
            Color::White => Square(4),
        }
    }

    /// Where an enemy pawn would stand to capture onto this square from the
    /// left, for a piece of `target_side` on it.
    pub fn left_pawn_attack(self, target_side: Color) -> (r: Option<Square>)
        requires
            self.wf(),
        ensures
            opt_index(r) == self.offset(-1, forward_dy(target_side)),
            r matches Some(s) ==> s.wf(),
    {
        match target_side {
            Color::Black => self.shift(-1, -1),
            Color::White => self.shift(-1, 1),
        }
    }

    /// Where an enemy pawn would stand to capture onto this square from the
    /// right, for a piece of `target_side` on it.
    pub fn right_pawn_attack(self, target_side: Color) -> (r: Option<Square>)
        requires
            self.wf(),
        ensures
            opt_index(r) == self.offset(1, forward_dy(target_side)),
            r matches Some(s) ==> s.wf(),
    {
        match target_side {
            Color::Black => self.shift(1, -1),
            Color::White => self.shift(1, 1),
        }
    }
}

impl SquareIterator {
    /// The next square in index order, or `None` after h8.
    pub fn next(&mut self) -> (r: Option<Square>)
        requires
            old(self).0@ <= 64,
        ensures
            old(self).0@ < 64 ==> r == Some(old(self).0) && final(self).0@ == old(self).0@ + 1,
            old(self).0@ == 64 ==> r.is_none() && final(self).0@ == 64,
    {
        if (self.0).0 > 63 {
            return None;
        }
        let result = Some(self.0);
        self.0.move_right_unchecked(1);
        result
    }
}

impl File {
    pub open spec fn view(self) -> int {
        self.0 as int
    }

    pub open spec fn wf(self) -> bool {
        self.0 < 8
    }

    /// A file, or the marker that no en-passant capture is open.
    pub open spec fn wf_or_none(self) -> bool {
        self.0 < 8 || self.0 == EN_PASSANT_NONE
    }

    pub fn from_index(index: u8) -> (r: File)
        requires
            index < 8,
        ensures
            r@ == index,
            r.wf(),
    {
        File(index)
    }

    /// Reads a file letter `a`..`h`.
    pub fn from_fen(fen: u8) -> (r: File)
        requires
            97 <= fen <= 104,
        ensures
            r@ == fen - 97,
            r.wf(),
    {
        File(fen - 97u8)
    }

    /// The marker that no en-passant capture is open; it is no file.
    pub fn en_passant_none() -> (r: File)
        ensures
            r@ == EN_PASSANT_NONE,
            r.wf_or_none(),
            !r.wf(),
    {
        File(EN_PASSANT_NONE)
    }

    pub fn index(self) -> (r: u8)
        ensures
            r == self@,
    {
        self.0
    }

    pub fn a_to_h() -> (r: FileIterator)
        ensures
            r.0@ == 0,
    {
        FileIterator(File(0))
    }

    pub fn rand(rng: &mut FastRng) -> (r: File)
        ensures
            r.wf(),
    {
        File::from_index(rng.rand_range_u8(0, 8))
    }

    pub fn is_en_passant_none(self) -> (r: bool)
        requires
            self.wf_or_none(),
        ensures
            r == !self.wf(),
    {
        self.0 == EN_PASSANT_NONE
    }

    /// The letter of the file.
    pub fn fen(self) -> (r: u8)
        requires
            self.wf(),
        ensures
            r == 97 + self@,
    {
        97u8 + self.0
    }
}

impl FileIterator {
    /// The next file, or `None` after h.
    pub fn next(&mut self) -> (r: Option<File>)
        requires
            old(self).0@ <= 8,
        ensures
            old(self).0@ < 8 ==> r == Some(old(self).0) && final(self).0@ == old(self).0@ + 1,
            old(self).0@ == 8 ==> r.is_none() && final(self).0@ == 8,
    {
        if (self.0).0 > 7 {
            return None;
        }
        let result = Some(self.0);
        (self.0).0 = (self.0).0 + 1;
        result
    }
}

impl Rank {
    pub open spec fn view(self) -> int {
        self.0 as int
    }

    pub open spec fn wf(self) -> bool {
        self.0 % 8 == 0 && self.0 <= 56
    }

    pub fn from_index(index: u8) -> (r: Rank)
        requires
            index % 8 == 0,
            index <= 56,
        ensures
            r@ == index,
            r.wf(),
    {
        Rank(index)
    }

    pub fn index(self) -> (r: u8)
        ensures
            r == self@,
    {
        self.0
    }

    pub fn top_to_bottom() -> (r: RevRankIterator)
        ensures
            r.0@ == 56,
    {
        RevRankIterator(Rank(56))
    }

    /// The rank from which a pawn of the side to move may advance two squares.
    pub fn pawn_double_rank(side_to_move: Color) -> (r: Rank)
        ensures
            r@ == (if side_to_move == Color::White { 8int } else { 48int }),
            r.wf(),
    {
        match side_to_move {
            Color::Black => Rank(48),
            Color::White => Rank(8),
        }
    }

    /// The rank of the en-passant target square when `side_to_move` is to move.
    pub fn en_passant(side_to_move: Color) -> (r: Rank)
        ensures
            r@ == (if side_to_move == Color::White { 40int } else { 16int }),
            r.wf(),
    {
        match side_to_move {
            Color::Black => Rank(16),
            Color::White => Rank(40),
        }
    }

    /// The rank from which a pawn of the side to move promotes on its next step.
    pub fn pawn_pre_promotion_rank(side_to_move: Color) -> (r: Rank)
        ensures
            r@ == (if side_to_move == Color::White { 48int } else { 8int }),
            r.wf(),
    {
        match side_to_move {
            Color::Black => Rank(8),
            Color::White => Rank(48),
        }
    }

    /// The digit of the rank.
    pub fn fen(self) -> (r: u8)
        requires
            self.wf(),
        ensures
            r == 49 + self@ / 8,
    {
        49u8 + self.0 / 8
    }
}

impl RevRankIterator {
    /// The next rank going down, or `None` after rank 1.
    pub fn next(&mut self) -> (r: Option<Rank>)
        requires
            old(self).0.wf() || old(self).0@ == 248,
        ensures
            old(self).0.wf() ==> r == Some(old(self).0) && final(self).0@ == (old(self).0@ - 8) % 256,
            old(self).0@ == 248 ==> r.is_none() && final(self).0@ == 248,
    {
        if (self.0).0 > 56 {
            return None;
        }
        let result = Some(self.0);
        (self.0).0 = (self.0).0.wrapping_sub(8);
        result
    }
}

} // verus!
