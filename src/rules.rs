use vstd::prelude::*;

use crate::board::{BoardView, UNDO_STACK_LENGTH};
use crate::chess_move::{col, Move};
use crate::color::Color;
use crate::square::EN_PASSANT_NONE;
use crate::piece::{Dignity, Piece};
use crate::square::{forward_dy, offset_index};

verus! {

/// Whether the square at `q`, if there is one, holds `p`.
pub open spec fn holds(s: Seq<Piece>, q: Option<int>, p: Piece) -> bool {
    match q {
        Some(i) => s[i] == p,
        None => false,
    }
}

/// Walking from `t` in steps of (`dx`, `dy`), starting at step `d`: whether
/// the first occupied square holds `a` or `b`.
pub open spec fn ray_hits(s: Seq<Piece>, t: int, dx: int, dy: int, d: int, a: Piece, b: Piece) -> bool
    decreases 8 - d,
{
    if d < 1 || d >= 8 {
        false
    } else {
        match offset_index(t, dx * d, dy * d) {
            None => false,
            Some(q) => if s[q].is_empty() {
                ray_hits(s, t, dx, dy, d + 1, a, b)
            } else {
                s[q] == a || s[q] == b
            },
        }
    }
}

/// Whether a knight of `by` stands a knight's jump from `t`.
pub open spec fn knight_attack(s: Seq<Piece>, t: int, by: Color) -> bool {
    let n = Piece::new_spec(by, Dignity::Knight);
    holds(s, offset_index(t, -2, -1), n) || holds(s, offset_index(t, -1, -2), n) || holds(
        s,
        offset_index(t, -2, 1),
        n,
    ) || holds(s, offset_index(t, -1, 2), n) || holds(s, offset_index(t, 2, -1), n) || holds(
        s,
        offset_index(t, 1, -2),
        n,
    ) || holds(s, offset_index(t, 2, 1), n) || holds(s, offset_index(t, 1, 2), n)
}

/// Whether the king of `by` stands next to `t`.
pub open spec fn king_attack(s: Seq<Piece>, t: int, by: Color) -> bool {
    let k = Piece::new_spec(by, Dignity::King);
    holds(s, offset_index(t, -1, -1), k) || holds(s, offset_index(t, -1, 0), k) || holds(
        s,
        offset_index(t, -1, 1),
        k,
    ) || holds(s, offset_index(t, 0, -1), k) || holds(s, offset_index(t, 0, 1), k) || holds(
        s,
        offset_index(t, 1, -1),
        k,
    ) || holds(s, offset_index(t, 1, 0), k) || holds(s, offset_index(t, 1, 1), k)
}

/// Whether a pawn of `by` could capture onto `t`.
pub open spec fn pawn_attack(s: Seq<Piece>, t: int, by: Color) -> bool {
    let p = Piece::new_spec(by, Dignity::Pawn);
    let dy = forward_dy(by.swapped_spec());
    holds(s, offset_index(t, -1, dy), p) || holds(s, offset_index(t, 1, dy), p)
}

/// Whether a bishop or queen of `by` sees `t` along a diagonal.
pub open spec fn diagonal_attack(s: Seq<Piece>, t: int, by: Color) -> bool {
    let b = Piece::new_spec(by, Dignity::Bishop);
    let q = Piece::new_spec(by, Dignity::Queen);
    ray_hits(s, t, -1, -1, 1, b, q) || ray_hits(s, t, -1, 1, 1, b, q) || ray_hits(s, t, 1, -1, 1, b, q)
        || ray_hits(s, t, 1, 1, 1, b, q)
}

/// Whether a rook or queen of `by` sees `t` along a file or a rank.
pub open spec fn straight_attack(s: Seq<Piece>, t: int, by: Color) -> bool {
    let r = Piece::new_spec(by, Dignity::Rook);
    let q = Piece::new_spec(by, Dignity::Queen);
    ray_hits(s, t, 0, 1, 1, r, q) || ray_hits(s, t, 0, -1, 1, r, q) || ray_hits(s, t, 1, 0, 1, r, q)
        || ray_hits(s, t, -1, 0, 1, r, q)
}

/// Whether a piece of `by` attacks the square `t`.
pub open spec fn attacked(s: Seq<Piece>, t: int, by: Color) -> bool {
    pawn_attack(s, t, by) || knight_attack(s, t, by) || diagonal_attack(s, t, by) || straight_attack(
        s,
        t,
        by,
    ) || king_attack(s, t, by)
}

/// The first square from `i` on that holds `p`.
pub open spec fn first_from(s: Seq<Piece>, p: Piece, i: int) -> Option<int>
    decreases 64 - i,
{
    if i < 0 || i >= 64 {
        None
    } else if s[i] == p {
        Some(i)
    } else {
        first_from(s, p, i + 1)
    }
}

pub proof fn lemma_first_from(s: Seq<Piece>, p: Piece, i: int, k: Option<int>)
    requires
        0 <= i <= 64,
        k matches Some(j) ==> i <= j < 64 && s[j] == p && forall|l: int| i <= l < j ==> s[l] != p,
        k is None ==> forall|l: int| i <= l < 64 ==> s[l] != p,
    ensures
        first_from(s, p, i) == k,
    decreases 64 - i,
{
    if i < 64 {
        if s[i] != p {
            lemma_first_from(s, p, i + 1, k);
        }
    }
}

/// The first square of the home row of `c`: 0 for white, 56 for black.
pub open spec fn home_row(c: Color) -> int {
    if c == Color::White { 0 } else { 56 }
}

/// The piece that stands on the destination once `m` is made: the promoted
/// piece for a promotion, else the piece on the source.
pub open spec fn placed_piece(v: BoardView, m: Move) -> Piece {
    if m.promoted == Dignity::Empty {
        v.squares[m.from@]
    } else {
        Piece::new_spec(v.side, m.promoted)
    }
}

/// The en-passant target square of the side to move, if a file is open.
pub open spec fn en_passant_target(v: BoardView) -> Option<int> {
    if v.cur_en_passant() < 8 {
        Some(v.cur_en_passant() + (if v.side == Color::White { 40int } else { 16int }))
    } else {
        None
    }
}

/// The square of the pawn taken en passant on `to`: one step behind it.
pub open spec fn en_passant_victim(v: BoardView, to: int) -> int {
    to - 8 * forward_dy(v.side)
}

/// Whether `m` is a pawn taking a pawn on the open en-passant target square.
pub open spec fn takes_en_passant(v: BoardView, m: Move) -> bool {
    m.captured == Dignity::Pawn && placed_piece(v, m).dignity == Dignity::Pawn && en_passant_target(v)
        == Some(m.to@)
}

/// What `m` asks of the board so that making it is well defined and
/// unmaking it restores the board: a piece of the side to move on the
/// source; the claimed capture on the destination (or on the square behind
/// it, en passant); for castling, the king on its home square and the rook in
/// its corner with its destination vacant; room for one more ply.
pub open spec fn makeable(v: BoardView, m: Move) -> bool {
    let stm = v.side;
    let opp = stm.swapped_spec();
    let mover = v.squares[m.from@];
    let placed = placed_piece(v, m);
    let home = home_row(stm);
    let rook = Piece::new_spec(stm, Dignity::Rook);
    &&& v.wf()
    &&& m.wf()
    &&& v.ply + 1 < UNDO_STACK_LENGTH
    &&& !mover.is_empty()
    &&& mover.color == stm
    &&& m.promoted != Dignity::Empty ==> mover.dignity == Dignity::Pawn && m.promoted != Dignity::Pawn
        && m.promoted != Dignity::King
    &&& m.en_passant ==> takes_en_passant(v, m) && v.squares[m.to@].is_empty()
        && v.squares[en_passant_victim(v, m.to@)] == Piece::new_spec(opp, Dignity::Pawn)
    &&& !m.en_passant ==> (if m.captured == Dignity::Empty {
        v.squares[m.to@].is_empty()
    } else {
        v.squares[m.to@] == Piece::new_spec(opp, m.captured)
    })
    &&& m.is_king_side_castling_spec(placed.dignity) ==> m.from@ == home + 4 && m.to@ == home + 6
        && v.squares[home + 7] == rook && v.squares[home + 5].is_empty()
    &&& m.is_queen_side_castling_spec(placed.dignity) ==> m.from@ == home + 4 && m.to@ == home + 2
        && v.squares[home] == rook && v.squares[home + 3].is_empty()
}

/// The castling rights left once `m` is made: a king move drops both
/// rights of its side; a rook leaving its corner, or taken in its corner,
/// drops the right of that corner.
pub open spec fn rights_after(c: u8, v: BoardView, m: Move) -> u8 {
    let stm = v.side;
    let opp = stm.swapped_spec();
    let placed = placed_piece(v, m);
    let c1 = if placed.dignity == Dignity::King {
        c & !(if stm == Color::White { 12u8 } else { 3u8 })
    } else {
        c
    };
    let c2 = if placed.dignity == Dignity::Rook && col(m.from) == 0 && m.from@ / 8 * 8 == home_row(
        stm,
    ) {
        c1 & !crate::castling::CastlingRights::queen_side_spec(stm)
    } else {
        c1
    };
    let c3 = if placed.dignity == Dignity::Rook && col(m.from) == 7 && m.from@ / 8 * 8 == home_row(
        stm,
    ) {
        c2 & !crate::castling::CastlingRights::king_side_spec(stm)
    } else {
        c2
    };
    let c4 = if m.captured == Dignity::Rook && col(m.to) == 0 && m.to@ / 8 * 8 == home_row(opp) {
        c3 & !crate::castling::CastlingRights::queen_side_spec(opp)
    } else {
        c3
    };
    if m.captured == Dignity::Rook && col(m.to) == 7 && m.to@ / 8 * 8 == home_row(opp) {
        c4 & !crate::castling::CastlingRights::king_side_spec(opp)
    } else {
        c4
    }
}

/// The pieces once `m` is made, before the ply and the side change.
pub open spec fn moved_pieces(v: BoardView, m: Move) -> BoardView {
    let stm = v.side;
    let placed = placed_piece(v, m);
    let e = Piece::empty_spec();
    let home = home_row(stm);
    let rook = Piece::new_spec(stm, Dignity::Rook);
    let v1 = if m.en_passant {
        v.with_square(en_passant_victim(v, m.to@), e)
    } else {
        v
    };
    let v2 = v1.with_square(m.to@, placed).with_square(m.from@, e);
    if m.is_king_side_castling_spec(placed.dignity) {
        v2.with_square(home + 5, rook).with_square(home + 7, e)
    } else if m.is_queen_side_castling_spec(placed.dignity) {
        v2.with_square(home + 3, rook).with_square(home, e)
    } else {
        v2
    }
}

/// The board once `m` is made: pieces moved, a new ply with the castling
/// rights left, the en-passant file opened by a double pawn step (or none),
/// the halfmove clock reset by a capture or a pawn move (else advanced), and
/// the other side to move.
pub open spec fn make_spec(v: BoardView, m: Move) -> BoardView {
    let placed = placed_piece(v, m);
    let v4 = moved_pieces(v, m).pushed();
    let ep: u8 = if m.is_pawn_double_move_spec(placed.dignity) {
        col(m.from) as u8
    } else {
        EN_PASSANT_NONE
    };
    let hm: u16 = if m.captured != Dignity::Empty || placed.dignity == Dignity::Pawn {
        0
    } else {
        (v4.cur_halfmove() + 1) as u16
    };
    v4.with_current(rights_after(v4.cur_castling(), v, m), ep, hm).with_side(v.side.swapped_spec())
}

/// What unmaking `m` asks of the board.
pub open spec fn unmakeable(w: BoardView, m: Move) -> bool {
    let mover_side = w.side.swapped_spec();
    let moved_piece = w.squares[m.to@];
    let home = home_row(mover_side);
    &&& w.squares.len() == 64
    &&& m.wf()
    &&& w.ply > 0
    &&& m.from != m.to
    &&& w.squares[m.from@].is_empty()
    &&& !moved_piece.is_empty()
    &&& m.en_passant ==> m.captured == Dignity::Pawn && 0 <= m.to@ + 8 * forward_dy(w.side) < 64
        && w.squares[m.to@ + 8 * forward_dy(w.side)].is_empty() && m.to@ + 8 * forward_dy(w.side)
        != m.from@
    &&& m.is_queen_side_castling_spec(moved_piece.dignity) ==> m.from@ == home + 4 && m.to@ == home
        + 2 && !w.squares[home + 3].is_empty()
    &&& m.is_king_side_castling_spec(moved_piece.dignity) ==> m.from@ == home + 4 && m.to@ == home
        + 6 && !w.squares[home + 5].is_empty()
}

/// The board once `m` is unmade: the moved piece (a pawn, for a
/// promotion) back on the source, the captured piece back, the rook back in
/// its corner after castling, the ply dropped and the side to move back.
pub open spec fn unmake_spec(w: BoardView, m: Move) -> BoardView {
    let moved_side = w.side;
    let mover_side = moved_side.swapped_spec();
    let e = Piece::empty_spec();
    let w1 = if m.promoted != Dignity::Empty {
        w.with_square(m.from@, Piece::new_spec(mover_side, Dignity::Pawn))
    } else {
        w.with_square(m.from@, w.squares[m.to@])
    };
    let moved_piece = w.squares[m.to@];
    let w2 = w1.with_square(m.to@, e);
    let w3 = if m.en_passant {
        w2.with_square(m.to@ + 8 * forward_dy(moved_side), Piece::new_spec(moved_side, Dignity::Pawn))
    } else if m.captured != Dignity::Empty {
        w2.with_square(m.to@, Piece::new_spec(moved_side, m.captured))
    } else {
        w2
    };
    let home = home_row(mover_side);
    let rook = Piece::new_spec(mover_side, Dignity::Rook);
    let w4 = if m.is_queen_side_castling_spec(moved_piece.dignity) {
        w3.with_square(home, rook).with_square(home + 3, e)
    } else if m.is_king_side_castling_spec(moved_piece.dignity) {
        w3.with_square(home + 7, rook).with_square(home + 5, e)
    } else {
        w3
    };
    w4.popped().with_side(mover_side)
}

/// Whether the side that just moved left its king safe: no enemy piece
/// attacks it (a side without a king has none to leave attacked), and after
/// castling neither the square the king left nor the square it crossed is
/// attacked.
pub open spec fn legal_after(w: BoardView, m: Move) -> bool {
    let mover_side = w.side.swapped_spec();
    let moved = w.squares[m.to@];
    let king_safe = match first_from(w.squares, Piece::new_spec(mover_side, Dignity::King), 0) {
        None => true,
        Some(k) => !attacked(w.squares, k, w.side),
    };
    king_safe && (m.is_king_side_castling_spec(moved.dignity) ==> !attacked(
        w.squares,
        m.from@,
        w.side,
    ) && !attacked(w.squares, m.from@ + 1, w.side)) && (m.is_queen_side_castling_spec(moved.dignity)
        ==> !attacked(w.squares, m.from@, w.side) && !attacked(w.squares, m.from@ - 1, w.side))
}

} // verus!
