use vstd::prelude::*;

use crate::board::BoardView;
use crate::castling::CastlingRights;
use crate::chess_move::{row, Move};
use crate::generation::{
    double_step_row, en_passant_open, king_side_castling_moves, moves_upto, pawn_captures,
    pawn_moves, pawn_promotion_captures, pawn_promotions, pawn_pushes, pre_promotion_row,
    pseudo_legal_moves, quiet_spec, queen_side_castling_moves, ray_moves, square_moves, steps_upto,
};
use crate::piece::{Dignity, Piece};
use crate::rules::{en_passant_target, home_row};
use crate::square::{forward_dy, offset_index};

verus! {

/// Every move in `s` starts on square `f`.
pub open spec fn all_from(s: Seq<Move>, f: int) -> bool {
    forall|k: int| 0 <= k < s.len() ==> (#[trigger] s[k]).from@ == f
}

proof fn lemma_all_from_add(a: Seq<Move>, b: Seq<Move>, f: int)
    requires
        all_from(a, f),
        all_from(b, f),
    ensures
        all_from(a + b, f),
{
    assert forall|k: int| 0 <= k < (a + b).len() implies (#[trigger] (a + b)[k]).from@ == f by {
        if k < a.len() {
            assert((a + b)[k] == a[k]);
        } else {
            assert((a + b)[k] == b[k - a.len()]);
        }
    }
}

proof fn lemma_ray_from(v: BoardView, f: int, dx: int, dy: int, d: int)
    requires
        0 <= f < 64,
    ensures
        all_from(ray_moves(v, f, dx, dy, d), f),
    decreases 8 - d,
{
    if 1 <= d < 8 {
        lemma_ray_from(v, f, dx, dy, d + 1);
        match offset_index(f, dx * d, dy * d) {
            None => {},
            Some(t) => {
                if v.squares[t].is_empty() {
                    lemma_all_from_add(seq![quiet_spec(f, t)], ray_moves(v, f, dx, dy, d + 1), f);
                }
            },
        }
    }
}

proof fn lemma_steps_from(v: BoardView, f: int, knight: bool, k: int)
    requires
        0 <= f < 64,
    ensures
        all_from(steps_upto(v, f, knight, k), f),
    decreases k,
{
    if k > 0 {
        lemma_steps_from(v, f, knight, k - 1);
        let o = if knight {
            crate::generation::knight_offset(k - 1)
        } else {
            crate::generation::king_offset(k - 1)
        };
        lemma_all_from_add(
            steps_upto(v, f, knight, k - 1),
            crate::generation::step_moves(v, f, offset_index(f, o.0, o.1)),
            f,
        );
    }
}

proof fn lemma_square_from(v: BoardView, i: int)
    requires
        0 <= i < 64,
    ensures
        all_from(square_moves(v, i), i),
{
    lemma_steps_from(v, i, true, 8);
    lemma_steps_from(v, i, false, 8);
    lemma_ray_from(v, i, -1, -1, 1);
    lemma_ray_from(v, i, -1, 1, 1);
    lemma_ray_from(v, i, 1, -1, 1);
    lemma_ray_from(v, i, 1, 1, 1);
    lemma_ray_from(v, i, 0, 1, 1);
    lemma_ray_from(v, i, 0, -1, 1);
    lemma_ray_from(v, i, 1, 0, 1);
    lemma_ray_from(v, i, -1, 0, 1);
    let d = crate::generation::bishop_moves(v, i);
    lemma_all_from_add(ray_moves(v, i, -1, -1, 1), ray_moves(v, i, -1, 1, 1), i);
    lemma_all_from_add(
        ray_moves(v, i, -1, -1, 1) + ray_moves(v, i, -1, 1, 1),
        ray_moves(v, i, 1, -1, 1),
        i,
    );
    lemma_all_from_add(
        ray_moves(v, i, -1, -1, 1) + ray_moves(v, i, -1, 1, 1) + ray_moves(v, i, 1, -1, 1),
        ray_moves(v, i, 1, 1, 1),
        i,
    );
    lemma_all_from_add(ray_moves(v, i, 0, 1, 1), ray_moves(v, i, 0, -1, 1), i);
    lemma_all_from_add(
        ray_moves(v, i, 0, 1, 1) + ray_moves(v, i, 0, -1, 1),
        ray_moves(v, i, 1, 0, 1),
        i,
    );
    lemma_all_from_add(
        ray_moves(v, i, 0, 1, 1) + ray_moves(v, i, 0, -1, 1) + ray_moves(v, i, 1, 0, 1),
        ray_moves(v, i, -1, 0, 1),
        i,
    );
    lemma_all_from_add(d, crate::generation::rook_moves(v, i), i);
    let ks = king_side_castling_moves(v);
    let qs = queen_side_castling_moves(v);
    if i == home_row(v.side) + 4 {
        lemma_all_from_add(ks, qs, i);
        lemma_all_from_add(steps_upto(v, i, false, 8), ks + qs, i);
    } else {
        lemma_all_from_add(steps_upto(v, i, false, 8), Seq::empty(), i);
    }
    lemma_all_from_add(pawn_pushes(v, i), pawn_captures(v, i, 1), i);
    lemma_all_from_add(pawn_pushes(v, i) + pawn_captures(v, i, 1), pawn_captures(v, i, -1), i);
    lemma_all_from_add(
        pawn_pushes(v, i) + pawn_captures(v, i, 1) + pawn_captures(v, i, -1),
        pawn_promotions(v, i),
        i,
    );
    lemma_all_from_add(
        pawn_pushes(v, i) + pawn_captures(v, i, 1) + pawn_captures(v, i, -1) + pawn_promotions(v, i),
        pawn_promotion_captures(v, i, 1),
        i,
    );
    lemma_all_from_add(
        pawn_pushes(v, i) + pawn_captures(v, i, 1) + pawn_captures(v, i, -1) + pawn_promotions(v, i)
            + pawn_promotion_captures(v, i, 1),
        pawn_promotion_captures(v, i, -1),
        i,
    );
}

/// A move is among the first `n` squares' moves exactly when it is among
/// the moves of its own source square, and that square is below `n`.
proof fn lemma_upto_contains(v: BoardView, n: int, m: Move)
    requires
        0 <= n <= 64,
    ensures
        moves_upto(v, n).contains(m) <==> (0 <= m.from@ < n && square_moves(v, m.from@).contains(m)),
    decreases n,
{
    if n > 0 {
        lemma_upto_contains(v, n - 1, m);
        lemma_square_from(v, n - 1);
        let a = moves_upto(v, n - 1);
        let b = square_moves(v, n - 1);
        if (a + b).contains(m) {
            let k = choose|k: int| 0 <= k < (a + b).len() && (a + b)[k] == m;
            if k < a.len() {
                assert(a[k] == m);
            } else {
                assert(b[k - a.len()] == m);
            }
        }
        if a.contains(m) {
            let k = choose|k: int| 0 <= k < a.len() && a[k] == m;
            assert((a + b)[k] == m);
        }
        if m.from@ == n - 1 && b.contains(m) {
            let k = choose|k: int| 0 <= k < b.len() && b[k] == m;
            assert((a + b)[a.len() + k] == m);
        }
    }
}

/// The pseudo-legal moves from a square are the moves the piece there makes.
pub proof fn lemma_pseudo_legal_contains(v: BoardView, m: Move)
    ensures
        pseudo_legal_moves(v).contains(m) <==> (0 <= m.from@ < 64 && square_moves(v, m.from@).contains(
            m,
        )),
{
    reveal(pseudo_legal_moves);
    lemma_upto_contains(v, 64, m);
}

proof fn lemma_contains_add(a: Seq<Move>, b: Seq<Move>, m: Move)
    ensures
        (a + b).contains(m) <==> a.contains(m) || b.contains(m),
{
    if (a + b).contains(m) {
        let k = choose|k: int| 0 <= k < (a + b).len() && (a + b)[k] == m;
        if k < a.len() {
            assert(a[k] == m);
        } else {
            assert(b[k - a.len()] == m);
        }
    }
    if a.contains(m) {
        let k = choose|k: int| 0 <= k < a.len() && a[k] == m;
        assert((a + b)[k] == m);
    }
    if b.contains(m) {
        let k = choose|k: int| 0 <= k < b.len() && b[k] == m;
        assert((a + b)[a.len() + k] == m);
    }
}

/// Splits membership in the moves of a pawn into its six parts.
proof fn lemma_pawn_contains(v: BoardView, f: int, m: Move)
    ensures
        pawn_moves(v, f).contains(m) <==> pawn_pushes(v, f).contains(m) || pawn_captures(
            v,
            f,
            1,
        ).contains(m) || pawn_captures(v, f, -1).contains(m) || pawn_promotions(v, f).contains(m)
            || pawn_promotion_captures(v, f, 1).contains(m) || pawn_promotion_captures(
            v,
            f,
            -1,
        ).contains(m),
{
    let a = pawn_pushes(v, f);
    let b = pawn_captures(v, f, 1);
    let c = pawn_captures(v, f, -1);
    let d = pawn_promotions(v, f);
    let e = pawn_promotion_captures(v, f, 1);
    let g = pawn_promotion_captures(v, f, -1);
    lemma_contains_add(a, b, m);
    lemma_contains_add(a + b, c, m);
    lemma_contains_add(a + b + c, d, m);
    lemma_contains_add(a + b + c + d, e, m);
    lemma_contains_add(a + b + c + d + e, g, m);
}

/// A pawn of the side to move that is not about to promote steps forward
/// one square, or two from its starting rank, and nothing else without a
/// capture: it steps one square whenever that square is vacant, and two
/// from its starting rank whenever both squares are vacant.
pub proof fn lemma_pawn_pushes(v: BoardView, f: int)
    requires
        v.wf(),
        0 <= f < 64,
        v.squares[f] == Piece::new_spec(v.side, Dignity::Pawn),
        f / 8 != pre_promotion_row(v.side),
    ensures
        forall|m: Move|
            #![trigger pseudo_legal_moves(v).contains(m)]
            pseudo_legal_moves(v).contains(m) && m.from@ == f && m.captured == Dignity::Empty
                && m.promoted == Dignity::Empty ==> m.to@ == f + 8 * forward_dy(v.side) || (f / 8
                == double_step_row(v.side) && m.to@ == f + 16 * forward_dy(v.side)),
        forall|t: int|
            offset_index(f, 0, forward_dy(v.side)) == Some(t) && #[trigger] v.squares[t].is_empty()
                ==> pseudo_legal_moves(v).contains(quiet_spec(f, t)),
        f / 8 == double_step_row(v.side) && v.squares[f + 8 * forward_dy(v.side)].is_empty()
            && v.squares[f + 16 * forward_dy(v.side)].is_empty() ==> pseudo_legal_moves(v).contains(
            quiet_spec(f, f + 16 * forward_dy(v.side)),
        ),
{
    let dy = forward_dy(v.side);
    assert forall|m: Move|
        #![trigger pseudo_legal_moves(v).contains(m)]
        pseudo_legal_moves(v).contains(m) && m.from@ == f && m.captured == Dignity::Empty
            && m.promoted == Dignity::Empty implies m.to@ == f + 8 * dy || (f / 8 == double_step_row(
        v.side,
    ) && m.to@ == f + 16 * dy) by {
        lemma_pseudo_legal_contains(v, m);
        lemma_pawn_contains(v, f, m);
        assert(!pawn_promotions(v, f).contains(m));
        assert(!pawn_promotion_captures(v, f, 1).contains(m));
        assert(!pawn_promotion_captures(v, f, -1).contains(m));
        if pawn_captures(v, f, 1).contains(m) {
            let c = pawn_captures(v, f, 1);
            let k = choose|k: int| 0 <= k < c.len() && #[trigger] c[k] == m;
            match offset_index(f, 1, dy) {
                None => {},
                Some(t) => {
                    assert(v.squares[t].wf());
                },
            }
        }
        if pawn_captures(v, f, -1).contains(m) {
            let c = pawn_captures(v, f, -1);
            let k = choose|k: int| 0 <= k < c.len() && #[trigger] c[k] == m;
            match offset_index(f, -1, dy) {
                None => {},
                Some(t) => {
                    assert(v.squares[t].wf());
                },
            }
        }
        if pawn_pushes(v, f).contains(m) {
            let c = pawn_pushes(v, f);
            let k = choose|k: int| 0 <= k < c.len() && #[trigger] c[k] == m;
        }
    }
    assert forall|t: int|
        offset_index(f, 0, dy) == Some(t) && #[trigger] v.squares[t].is_empty() implies pseudo_legal_moves(
        v,
    ).contains(quiet_spec(f, t)) by {
        let m = quiet_spec(f, t);
        assert(pawn_pushes(v, f)[0] == m);
        lemma_pawn_contains(v, f, m);
        lemma_pseudo_legal_contains(v, m);
    }
    if f / 8 == double_step_row(v.side) && v.squares[f + 8 * dy].is_empty() && v.squares[f + 16
        * dy].is_empty() {
        let m = quiet_spec(f, f + 16 * dy);
        assert(pawn_pushes(v, f)[1] == m);
        lemma_pawn_contains(v, f, m);
        lemma_pseudo_legal_contains(v, m);
    }
}

/// A pawn never lands on the first or last rank without promoting: every
/// generated pawn move that does not promote ends on ranks 2..7.
pub proof fn lemma_pawn_promotes_on_last_rank(v: BoardView)
    ensures
        forall|m: Move|
            #![trigger pseudo_legal_moves(v).contains(m)]
            pseudo_legal_moves(v).contains(m) && v.squares[m.from@].dignity == Dignity::Pawn
                && m.promoted == Dignity::Empty ==> 1 <= row(m.to) <= 6,
{
    assert forall|m: Move|
        #![trigger pseudo_legal_moves(v).contains(m)]
        pseudo_legal_moves(v).contains(m) && v.squares[m.from@].dignity == Dignity::Pawn
            && m.promoted == Dignity::Empty implies 1 <= row(m.to) <= 6 by {
        lemma_pseudo_legal_contains(v, m);
        let f = m.from@;
        if v.squares[f].color == v.side {
            lemma_pawn_contains(v, f, m);
            assert(!pawn_promotions(v, f).contains(m));
            assert(!pawn_promotion_captures(v, f, 1).contains(m));
            assert(!pawn_promotion_captures(v, f, -1).contains(m));
            if pawn_pushes(v, f).contains(m) {
                let c = pawn_pushes(v, f);
                let k = choose|k: int| 0 <= k < c.len() && #[trigger] c[k] == m;
            }
            if pawn_captures(v, f, 1).contains(m) {
                let c = pawn_captures(v, f, 1);
                let k = choose|k: int| 0 <= k < c.len() && #[trigger] c[k] == m;
            }
            if pawn_captures(v, f, -1).contains(m) {
                let c = pawn_captures(v, f, -1);
                let k = choose|k: int| 0 <= k < c.len() && #[trigger] c[k] == m;
            }
        }
    }
}

/// An en-passant capture is generated only onto the target square of the
/// en-passant file that the previous double pawn step opened, and only
/// while that square is vacant with the enemy pawn behind it.
pub proof fn lemma_en_passant_generation(v: BoardView)
    ensures
        forall|m: Move|
            #![trigger pseudo_legal_moves(v).contains(m)]
            pseudo_legal_moves(v).contains(m) && m.en_passant ==> v.cur_en_passant() < 8
                && en_passant_target(v) == Some(m.to@) && en_passant_open(v, m.to@),
{
    assert forall|m: Move|
        #![trigger pseudo_legal_moves(v).contains(m)]
        pseudo_legal_moves(v).contains(m) && m.en_passant implies v.cur_en_passant() < 8
            && en_passant_target(v) == Some(m.to@) && en_passant_open(v, m.to@) by {
        lemma_pseudo_legal_contains(v, m);
        let f = m.from@;
        let sm = square_moves(v, f);
        let k = choose|k: int| 0 <= k < sm.len() && #[trigger] sm[k] == m;
        if v.squares[f].color == v.side && v.squares[f].dignity == Dignity::Pawn {
            lemma_pawn_contains(v, f, m);
            if pawn_captures(v, f, 1).contains(m) {
                let c = pawn_captures(v, f, 1);
                let j = choose|j: int| 0 <= j < c.len() && #[trigger] c[j] == m;
            }
            if pawn_captures(v, f, -1).contains(m) {
                let c = pawn_captures(v, f, -1);
                let j = choose|j: int| 0 <= j < c.len() && #[trigger] c[j] == m;
            }
            if pawn_pushes(v, f).contains(m) {
                let c = pawn_pushes(v, f);
                let j = choose|j: int| 0 <= j < c.len() && #[trigger] c[j] == m;
            }
            if pawn_promotions(v, f).contains(m) {
                let c = pawn_promotions(v, f);
                let j = choose|j: int| 0 <= j < c.len() && #[trigger] c[j] == m;
            }
            if pawn_promotion_captures(v, f, 1).contains(m) {
                let c = pawn_promotion_captures(v, f, 1);
                let j = choose|j: int| 0 <= j < c.len() && #[trigger] c[j] == m;
            }
            if pawn_promotion_captures(v, f, -1).contains(m) {
                let c = pawn_promotion_captures(v, f, -1);
                let j = choose|j: int| 0 <= j < c.len() && #[trigger] c[j] == m;
            }
        } else {
            lemma_no_en_passant_elsewhere(v, f, k);
        }
    }
}

/// No move in `s` is an en-passant capture.
pub open spec fn none_en_passant(s: Seq<Move>) -> bool {
    forall|k: int| 0 <= k < s.len() ==> !(#[trigger] s[k]).en_passant
}

proof fn lemma_none_en_passant_add(a: Seq<Move>, b: Seq<Move>)
    requires
        none_en_passant(a),
        none_en_passant(b),
    ensures
        none_en_passant(a + b),
{
    assert forall|k: int| 0 <= k < (a + b).len() implies !(#[trigger] (a + b)[k]).en_passant by {
        if k < a.len() {
            assert((a + b)[k] == a[k]);
        } else {
            assert((a + b)[k] == b[k - a.len()]);
        }
    }
}

proof fn lemma_ray_plain(v: BoardView, f: int, dx: int, dy: int, d: int)
    ensures
        none_en_passant(ray_moves(v, f, dx, dy, d)),
    decreases 8 - d,
{
    if 1 <= d < 8 {
        lemma_ray_plain(v, f, dx, dy, d + 1);
        match offset_index(f, dx * d, dy * d) {
            None => {},
            Some(t) => {
                if v.squares[t].is_empty() {
                    lemma_none_en_passant_add(seq![quiet_spec(f, t)], ray_moves(v, f, dx, dy, d + 1));
                }
            },
        }
    }
}

proof fn lemma_steps_plain(v: BoardView, f: int, knight: bool, k: int)
    ensures
        none_en_passant(steps_upto(v, f, knight, k)),
    decreases k,
{
    if k > 0 {
        lemma_steps_plain(v, f, knight, k - 1);
        let o = if knight {
            crate::generation::knight_offset(k - 1)
        } else {
            crate::generation::king_offset(k - 1)
        };
        lemma_none_en_passant_add(
            steps_upto(v, f, knight, k - 1),
            crate::generation::step_moves(v, f, offset_index(f, o.0, o.1)),
        );
    }
}

/// Only pawns take en passant.
proof fn lemma_no_en_passant_elsewhere(v: BoardView, f: int, k: int)
    requires
        !(v.squares[f].color == v.side && v.squares[f].dignity == Dignity::Pawn),
        0 <= k < square_moves(v, f).len(),
    ensures
        !square_moves(v, f)[k].en_passant,
{
    lemma_steps_plain(v, f, true, 8);
    lemma_steps_plain(v, f, false, 8);
    lemma_ray_plain(v, f, -1, -1, 1);
    lemma_ray_plain(v, f, -1, 1, 1);
    lemma_ray_plain(v, f, 1, -1, 1);
    lemma_ray_plain(v, f, 1, 1, 1);
    lemma_ray_plain(v, f, 0, 1, 1);
    lemma_ray_plain(v, f, 0, -1, 1);
    lemma_ray_plain(v, f, 1, 0, 1);
    lemma_ray_plain(v, f, -1, 0, 1);
    let b1 = ray_moves(v, f, -1, -1, 1);
    let b2 = ray_moves(v, f, -1, 1, 1);
    let b3 = ray_moves(v, f, 1, -1, 1);
    let b4 = ray_moves(v, f, 1, 1, 1);
    lemma_none_en_passant_add(b1, b2);
    lemma_none_en_passant_add(b1 + b2, b3);
    lemma_none_en_passant_add(b1 + b2 + b3, b4);
    let r1 = ray_moves(v, f, 0, 1, 1);
    let r2 = ray_moves(v, f, 0, -1, 1);
    let r3 = ray_moves(v, f, 1, 0, 1);
    let r4 = ray_moves(v, f, -1, 0, 1);
    lemma_none_en_passant_add(r1, r2);
    lemma_none_en_passant_add(r1 + r2, r3);
    lemma_none_en_passant_add(r1 + r2 + r3, r4);
    lemma_none_en_passant_add(b1 + b2 + b3 + b4, r1 + r2 + r3 + r4);
    let ks = king_side_castling_moves(v);
    let qs = queen_side_castling_moves(v);
    lemma_none_en_passant_add(ks, qs);
    lemma_none_en_passant_add(steps_upto(v, f, false, 8), ks + qs);
    lemma_none_en_passant_add(steps_upto(v, f, false, 8), Seq::empty());
}

/// Every move in `s` ends within one file of file `x`.
pub open spec fn all_near(s: Seq<Move>, x: int) -> bool {
    forall|k: int| 0 <= k < s.len() ==> -1 <= (#[trigger] s[k]).to@ % 8 - x <= 1
}

proof fn lemma_king_steps_near(v: BoardView, f: int, k: int)
    requires
        0 <= f < 64,
        0 <= k <= 8,
    ensures
        all_near(steps_upto(v, f, false, k), f % 8),
    decreases k,
{
    if k > 0 {
        lemma_king_steps_near(v, f, k - 1);
        let o = crate::generation::king_offset(k - 1);
        let a = steps_upto(v, f, false, k - 1);
        let b = crate::generation::step_moves(v, f, offset_index(f, o.0, o.1));
        assert forall|j: int| 0 <= j < (a + b).len() implies -1 <= (#[trigger] (a + b)[j]).to@ % 8
            - f % 8 <= 1 by {
            if j < a.len() {
                assert((a + b)[j] == a[j]);
            } else {
                assert((a + b)[j] == b[j - a.len()]);
            }
        }
    }
}

/// Castling is generated only with the right held, the king on its home
/// square, the squares between king and rook vacant (the king's and the
/// rook's destinations, and the b-file square on the queen side) and the
/// rook in its corner; and it is generated whenever all of that holds.
pub proof fn lemma_castling_generation(v: BoardView)
    requires
        v.wf(),
    ensures
        forall|m: Move|
            #![trigger pseudo_legal_moves(v).contains(m)]
            pseudo_legal_moves(v).contains(m) && v.squares[m.from@].dignity == Dignity::King
                && m.is_king_side_castling_spec(Dignity::King) ==> {
                let home = home_row(v.side);
                &&& v.cur_castling() & CastlingRights::king_side_spec(v.side)
                    == CastlingRights::king_side_spec(v.side)
                &&& m.from@ == home + 4 && m.to@ == home + 6
                &&& v.squares[home + 5].is_empty() && v.squares[home + 6].is_empty()
                &&& v.squares[home + 7] == Piece::new_spec(v.side, Dignity::Rook)
            },
        forall|m: Move|
            #![trigger pseudo_legal_moves(v).contains(m)]
            pseudo_legal_moves(v).contains(m) && v.squares[m.from@].dignity == Dignity::King
                && m.is_queen_side_castling_spec(Dignity::King) ==> {
                let home = home_row(v.side);
                &&& v.cur_castling() & CastlingRights::queen_side_spec(v.side)
                    == CastlingRights::queen_side_spec(v.side)
                &&& m.from@ == home + 4 && m.to@ == home + 2
                &&& v.squares[home + 1].is_empty() && v.squares[home + 2].is_empty()
                    && v.squares[home + 3].is_empty()
                &&& v.squares[home] == Piece::new_spec(v.side, Dignity::Rook)
            },
        v.squares[home_row(v.side) + 4] == Piece::new_spec(v.side, Dignity::King)
            && king_side_castling_moves(v).len() > 0 ==> pseudo_legal_moves(v).contains(
            quiet_spec(home_row(v.side) + 4, home_row(v.side) + 6),
        ),
        v.squares[home_row(v.side) + 4] == Piece::new_spec(v.side, Dignity::King)
            && queen_side_castling_moves(v).len() > 0 ==> pseudo_legal_moves(v).contains(
            quiet_spec(home_row(v.side) + 4, home_row(v.side) + 2),
        ),
{
    let home = home_row(v.side);
    assert forall|m: Move|
        #![trigger pseudo_legal_moves(v).contains(m)]
        pseudo_legal_moves(v).contains(m) && v.squares[m.from@].dignity == Dignity::King && (
        m.is_king_side_castling_spec(Dignity::King) || m.is_queen_side_castling_spec(Dignity::King))
        implies (m.is_king_side_castling_spec(Dignity::King) ==> {
        &&& v.cur_castling() & CastlingRights::king_side_spec(v.side)
            == CastlingRights::king_side_spec(v.side)
        &&& m.from@ == home + 4 && m.to@ == home + 6
        &&& v.squares[home + 5].is_empty() && v.squares[home + 6].is_empty()
        &&& v.squares[home + 7] == Piece::new_spec(v.side, Dignity::Rook)
    }) && (m.is_queen_side_castling_spec(Dignity::King) ==> {
        &&& v.cur_castling() & CastlingRights::queen_side_spec(v.side)
            == CastlingRights::queen_side_spec(v.side)
        &&& m.from@ == home + 4 && m.to@ == home + 2
        &&& v.squares[home + 1].is_empty() && v.squares[home + 2].is_empty() && v.squares[home
            + 3].is_empty()
        &&& v.squares[home] == Piece::new_spec(v.side, Dignity::Rook)
    }) by {
        lemma_pseudo_legal_contains(v, m);
        let f = m.from@;
        assert(v.squares[f].wf());
        lemma_king_steps_near(v, f, 8);
        let st = steps_upto(v, f, false, 8);
        let ks = king_side_castling_moves(v);
        let qs = queen_side_castling_moves(v);
        assert(v.squares[f].color == v.side);
        if f == home + 4 {
            lemma_contains_add(st, ks + qs, m);
            lemma_contains_add(ks, qs, m);
        } else {
            lemma_contains_add(st, Seq::empty(), m);
        }
        if st.contains(m) {
            let j = choose|j: int| 0 <= j < st.len() && #[trigger] st[j] == m;
        }
        if ks.contains(m) {
            let j = choose|j: int| 0 <= j < ks.len() && #[trigger] ks[j] == m;
        }
        if qs.contains(m) {
            let j = choose|j: int| 0 <= j < qs.len() && #[trigger] qs[j] == m;
        }
    }
    let f = home + 4;
    if v.squares[f] == Piece::new_spec(v.side, Dignity::King) {
        let st = steps_upto(v, f, false, 8);
        let ks = king_side_castling_moves(v);
        let qs = queen_side_castling_moves(v);
        if ks.len() > 0 {
            let m = quiet_spec(f, home + 6);
            assert(ks[0] == m);
            lemma_contains_add(ks, qs, m);
            lemma_contains_add(st, ks + qs, m);
            lemma_pseudo_legal_contains(v, m);
        }
        if qs.len() > 0 {
            let m = quiet_spec(f, home + 2);
            assert(qs[0] == m);
            lemma_contains_add(ks, qs, m);
            lemma_contains_add(st, ks + qs, m);
            lemma_pseudo_legal_contains(v, m);
        }
    }
}

} // verus!
