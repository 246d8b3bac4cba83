use vstd::prelude::*;

use crate::board::BoardView;
use crate::castling::CastlingRights;
use crate::chess_move::Move;
use crate::color::Color;
use crate::piece::{Dignity, Piece};
use crate::rules::{en_passant_target, en_passant_victim, home_row};
use crate::square::{forward_dy, offset_index, Square};

verus! {

/// The square with index `i`.
pub open spec fn sq(i: int) -> Square {
    Square(i as u8)
}

pub open spec fn quiet_spec(f: int, t: int) -> Move {
    Move { from: sq(f), to: sq(t), captured: Dignity::Empty, promoted: Dignity::Empty, en_passant: false }
}

pub open spec fn capture_spec(f: int, t: int, d: Dignity) -> Move {
    Move { from: sq(f), to: sq(t), captured: d, promoted: Dignity::Empty, en_passant: false }
}

pub open spec fn promotion_spec(f: int, t: int, captured: Dignity, promoted: Dignity) -> Move {
    Move { from: sq(f), to: sq(t), captured, promoted, en_passant: false }
}

pub open spec fn en_passant_spec(f: int, t: int) -> Move {
    Move { from: sq(f), to: sq(t), captured: Dignity::Pawn, promoted: Dignity::Empty, en_passant: true }
}

/// A step of a knight or king onto `q`: a quiet move onto a vacant square,
/// a capture onto an enemy piece, nothing onto a piece of its own side.
pub open spec fn step_moves(v: BoardView, f: int, q: Option<int>) -> Seq<Move> {
    match q {
        None => Seq::empty(),
        Some(t) => if v.squares[t].is_empty() {
            seq![quiet_spec(f, t)]
        } else if v.squares[t].color != v.side {
            seq![capture_spec(f, t, v.squares[t].dignity)]
        } else {
            Seq::empty()
        },
    }
}

/// The moves along the ray from `f` in steps of (`dx`, `dy`), from step `d`
/// on: a quiet move onto each vacant square, then a capture of the first
/// enemy piece met; the ray stops at the first piece.
pub open spec fn ray_moves(v: BoardView, f: int, dx: int, dy: int, d: int) -> Seq<Move>
    decreases 8 - d,
{
    if d < 1 || d >= 8 {
        Seq::empty()
    } else {
        match offset_index(f, dx * d, dy * d) {
            None => Seq::empty(),
            Some(t) => if v.squares[t].is_empty() {
                seq![quiet_spec(f, t)] + ray_moves(v, f, dx, dy, d + 1)
            } else if v.squares[t].color != v.side {
                seq![capture_spec(f, t, v.squares[t].dignity)]
            } else {
                Seq::empty()
            },
        }
    }
}

/// The (column, row) offsets of a knight's jumps, in generation order.
pub open spec fn knight_offset(k: int) -> (int, int) {
    if k == 0 {
        (-2, -1)
    } else if k == 1 {
        (-1, -2)
    } else if k == 2 {
        (-2, 1)
    } else if k == 3 {
        (-1, 2)
    } else if k == 4 {
        (2, -1)
    } else if k == 5 {
        (1, -2)
    } else if k == 6 {
        (2, 1)
    } else {
        (1, 2)
    }
}

/// The (column, row) offsets of a king's steps, in generation order.
pub open spec fn king_offset(k: int) -> (int, int) {
    if k == 0 {
        (-1, -1)
    } else if k == 1 {
        (-1, 0)
    } else if k == 2 {
        (-1, 1)
    } else if k == 3 {
        (0, -1)
    } else if k == 4 {
        (0, 1)
    } else if k == 5 {
        (1, -1)
    } else if k == 6 {
        (1, 0)
    } else {
        (1, 1)
    }
}

/// The steps from `f` along the first `k` offsets of a knight (or of a king).
pub open spec fn steps_upto(v: BoardView, f: int, knight: bool, k: int) -> Seq<Move>
    decreases k,
{
    if k <= 0 {
        Seq::empty()
    } else {
        let o = if knight { knight_offset(k - 1) } else { king_offset(k - 1) };
        steps_upto(v, f, knight, k - 1) + step_moves(v, f, offset_index(f, o.0, o.1))
    }
}

pub open spec fn knight_moves(v: BoardView, f: int) -> Seq<Move> {
    steps_upto(v, f, true, 8)
}

pub open spec fn bishop_moves(v: BoardView, f: int) -> Seq<Move> {
    ray_moves(v, f, -1, -1, 1) + ray_moves(v, f, -1, 1, 1) + ray_moves(v, f, 1, -1, 1) + ray_moves(
        v,
        f,
        1,
        1,
        1,
    )
}

pub open spec fn rook_moves(v: BoardView, f: int) -> Seq<Move> {
    ray_moves(v, f, 0, 1, 1) + ray_moves(v, f, 0, -1, 1) + ray_moves(v, f, 1, 0, 1) + ray_moves(
        v,
        f,
        -1,
        0,
        1,
    )
}

pub open spec fn queen_moves(v: BoardView, f: int) -> Seq<Move> {
    bishop_moves(v, f) + rook_moves(v, f)
}

/// Castling toward the h-file: the right held, the king's and the rook's
/// destinations vacant and the rook in its corner.
pub open spec fn king_side_castling_moves(v: BoardView) -> Seq<Move> {
    let home = home_row(v.side);
    if v.cur_castling() & CastlingRights::king_side_spec(v.side) == CastlingRights::king_side_spec(
        v.side,
    ) && v.squares[home + 6].is_empty() && v.squares[home + 7] == Piece::new_spec(
        v.side,
        Dignity::Rook,
    ) && v.squares[home + 5].is_empty() {
        seq![quiet_spec(home + 4, home + 6)]
    } else {
        Seq::empty()
    }
}

/// Castling toward the a-file: the right held, the king's and the rook's
/// destinations and the b-file square vacant and the rook in its corner.
pub open spec fn queen_side_castling_moves(v: BoardView) -> Seq<Move> {
    let home = home_row(v.side);
    if v.cur_castling() & CastlingRights::queen_side_spec(v.side) == CastlingRights::queen_side_spec(
        v.side,
    ) && v.squares[home + 2].is_empty() && v.squares[home] == Piece::new_spec(v.side, Dignity::Rook)
        && v.squares[home + 1].is_empty() && v.squares[home + 3].is_empty() {
        seq![quiet_spec(home + 4, home + 2)]
    } else {
        Seq::empty()
    }
}

pub open spec fn king_moves(v: BoardView, f: int) -> Seq<Move> {
    steps_upto(v, f, false, 8) + (if f == home_row(v.side) + 4 {
        king_side_castling_moves(v) + queen_side_castling_moves(v)
    } else {
        Seq::empty()
    })
}

/// The row (0..7) from which a pawn of `c` promotes on its next step.
pub open spec fn pre_promotion_row(c: Color) -> int {
    if c == Color::White { 6 } else { 1 }
}

/// The row (0..7) from which a pawn of `c` may advance two squares.
pub open spec fn double_step_row(c: Color) -> int {
    if c == Color::White { 1 } else { 6 }
}

/// A pawn's steps forward that do not promote: one square onto a vacant
/// square, and from its starting row two squares when both are vacant.
pub open spec fn pawn_pushes(v: BoardView, f: int) -> Seq<Move> {
    let dy = forward_dy(v.side);
    if f / 8 == pre_promotion_row(v.side) {
        Seq::empty()
    } else {
        match offset_index(f, 0, dy) {
            None => Seq::empty(),
            Some(t1) => if !v.squares[t1].is_empty() {
                Seq::empty()
            } else {
                match offset_index(f, 0, 2 * dy) {
                    None => seq![quiet_spec(f, t1)],
                    Some(t2) => if v.squares[t2].is_empty() && f / 8 == double_step_row(v.side) {
                        seq![quiet_spec(f, t1), quiet_spec(f, t2)]
                    } else {
                        seq![quiet_spec(f, t1)]
                    },
                }
            },
        }
    }
}

/// Whether en passant can be taken on `t`: it is the open target square, it
/// is vacant and the enemy pawn stands behind it.
pub open spec fn en_passant_open(v: BoardView, t: int) -> bool {
    en_passant_target(v) == Some(t) && v.squares[t].is_empty() && v.squares[en_passant_victim(v, t)]
        == Piece::new_spec(v.side.swapped_spec(), Dignity::Pawn)
}

/// A pawn's diagonal capture toward file offset `dx` that does not promote,
/// and its capture en passant there.
pub open spec fn pawn_captures(v: BoardView, f: int, dx: int) -> Seq<Move> {
    if f / 8 == pre_promotion_row(v.side) {
        Seq::empty()
    } else {
        match offset_index(f, dx, forward_dy(v.side)) {
            None => Seq::empty(),
            Some(t) => (if !v.squares[t].is_empty() && v.squares[t].color != v.side {
                seq![capture_spec(f, t, v.squares[t].dignity)]
            } else {
                Seq::empty()
            }) + (if en_passant_open(v, t) {
                seq![en_passant_spec(f, t)]
            } else {
                Seq::empty()
            }),
        }
    }
}

/// The four promotions of a pawn move onto `t`, capturing `captured`.
pub open spec fn promotions(f: int, t: int, captured: Dignity) -> Seq<Move> {
    seq![
        promotion_spec(f, t, captured, Dignity::Knight),
        promotion_spec(f, t, captured, Dignity::Bishop),
        promotion_spec(f, t, captured, Dignity::Rook),
        promotion_spec(f, t, captured, Dignity::Queen),
    ]
}

/// A pawn's step onto the last row, as its four promotions.
pub open spec fn pawn_promotions(v: BoardView, f: int) -> Seq<Move> {
    if f / 8 != pre_promotion_row(v.side) {
        Seq::empty()
    } else {
        match offset_index(f, 0, forward_dy(v.side)) {
            None => Seq::empty(),
            Some(t) => if v.squares[t].is_empty() {
                promotions(f, t, Dignity::Empty)
            } else {
                Seq::empty()
            },
        }
    }
}

/// A pawn's capture onto the last row toward file offset `dx`, as its four
/// promotions.
pub open spec fn pawn_promotion_captures(v: BoardView, f: int, dx: int) -> Seq<Move> {
    if f / 8 != pre_promotion_row(v.side) {
        Seq::empty()
    } else {
        match offset_index(f, dx, forward_dy(v.side)) {
            None => Seq::empty(),
            Some(t) => if !v.squares[t].is_empty() && v.squares[t].color != v.side {
                promotions(f, t, v.squares[t].dignity)
            } else {
                Seq::empty()
            },
        }
    }
}

pub open spec fn pawn_moves(v: BoardView, f: int) -> Seq<Move> {
    pawn_pushes(v, f) + pawn_captures(v, f, 1) + pawn_captures(v, f, -1) + pawn_promotions(v, f)
        + pawn_promotion_captures(v, f, 1) + pawn_promotion_captures(v, f, -1)
}

/// The pseudo-legal moves of the piece on square `i`, if it belongs to the
/// side to move.
pub open spec fn square_moves(v: BoardView, i: int) -> Seq<Move> {
    let p = v.squares[i];
    if p.color != v.side {
        Seq::empty()
    } else {
        match p.dignity {
            Dignity::Empty => Seq::empty(),
            Dignity::Pawn => pawn_moves(v, i),
            Dignity::Knight => knight_moves(v, i),
            Dignity::Bishop => bishop_moves(v, i),
            Dignity::Rook => rook_moves(v, i),
            Dignity::Queen => queen_moves(v, i),
            Dignity::King => king_moves(v, i),
        }
    }
}

/// The pseudo-legal moves of the pieces on the first `n` squares, square by square.
pub open spec fn moves_upto(v: BoardView, n: int) -> Seq<Move>
    decreases n,
{
    if n <= 0 {
        Seq::empty()
    } else {
        moves_upto(v, n - 1) + square_moves(v, n - 1)
    }
}

/// All pseudo-legal moves of the side to move, in generation order.
#[verifier::opaque]
pub open spec fn pseudo_legal_moves(v: BoardView) -> Seq<Move> {
    moves_upto(v, 64)
}

} // verus!
