use vstd::prelude::*;

use crate::board::{BoardView, UNDO_STACK_LENGTH};
use crate::chess_move::Move;
use crate::generation::{
    bishop_moves, king_moves, king_side_castling_moves, moves_upto, pawn_captures, pawn_moves,
    pawn_promotion_captures, pawn_promotions, pawn_pushes, pseudo_legal_moves,
    queen_side_castling_moves, ray_moves, rook_moves, square_moves, step_moves, steps_upto,
};
use crate::piece::{Dignity, Piece};
use crate::rules::{
    attacked, en_passant_victim, first_from, home_row, legal_after, make_spec, makeable,
    moved_pieces, placed_piece, unmake_spec, unmakeable,
};
use crate::square::{forward_dy, offset_index};

verus! {

/// Making a move and then unmaking it gives back the board exactly: the
/// mailbox, the side to move, the ply and the castling rights, en-passant
/// files and halfmove clocks of every ply up to the current one. The
/// position key, a function of these, comes back with them.
pub proof fn lemma_make_unmake(v: BoardView, m: Move)
    requires
        makeable(v, m),
    ensures
        unmakeable(make_spec(v, m), m),
        unmake_spec(make_spec(v, m), m) == v,
        unmake_spec(make_spec(v, m), m).hash_spec() == v.hash_spec(),
{
    let w = make_spec(v, m);
    let u = unmake_spec(w, m);
    let placed = placed_piece(v, m);
    let mp = moved_pieces(v, m);
    let e = Piece::empty_spec();
    let home = home_row(v.side);
    assert(w.squares == mp.squares);
    assert(m.from != m.to);
    assert(w.side.swapped_spec() == v.side);
    assert(w.side == v.side.swapped_spec());
    let mover = v.squares[m.from@];
    assert(mover.wf());
    assert(v.squares[m.to@].wf());
    assert(m.promoted != Dignity::Empty ==> mover == Piece::new_spec(v.side, Dignity::Pawn));
    assert(v.squares[m.to@].is_empty() ==> v.squares[m.to@] == e);
    if m.en_passant {
        let victim = en_passant_victim(v, m.to@);
        assert(victim == m.to@ + 8 * forward_dy(w.side));
        assert(victim != m.from@);
        assert(victim != m.to@);
        assert(w.squares =~= v.squares.update(victim, e).update(m.to@, placed).update(m.from@, e));
        assert(u.squares =~= v.squares);
    } else if m.is_king_side_castling_spec(placed.dignity) {
        let rook = Piece::new_spec(v.side, Dignity::Rook);
        assert(placed == mover);
        assert(w.squares =~= v.squares.update(m.to@, placed).update(m.from@, e).update(
            home + 5,
            rook,
        ).update(home + 7, e));
        assert(w.squares[m.to@] == placed);
        let w2 = w.squares.update(m.from@, placed).update(m.to@, e);
        let w3 = if m.captured != Dignity::Empty {
            w2.update(m.to@, Piece::new_spec(w.side, m.captured))
        } else {
            w2
        };
        assert(v.squares[home + 5].wf());
        assert(v.squares[home + 5] == e);
        assert(w3 =~= v.squares.update(home + 5, rook).update(home + 7, e));
        assert(u.squares =~= w3.update(home + 7, rook).update(home + 5, e));
        assert(u.squares =~= v.squares);
    } else if m.is_queen_side_castling_spec(placed.dignity) {
        let rook = Piece::new_spec(v.side, Dignity::Rook);
        assert(placed == mover);
        assert(w.squares =~= v.squares.update(m.to@, placed).update(m.from@, e).update(
            home + 3,
            rook,
        ).update(home + 0, e));
        assert(w.squares[m.to@] == placed);
        let w2 = w.squares.update(m.from@, placed).update(m.to@, e);
        let w3 = if m.captured != Dignity::Empty {
            w2.update(m.to@, Piece::new_spec(w.side, m.captured))
        } else {
            w2
        };
        assert(v.squares[home + 3].wf());
        assert(v.squares[home + 3] == e);
        assert(w3 =~= v.squares.update(home + 3, rook).update(home + 0, e));
        assert(u.squares =~= w3.update(home + 0, rook).update(home + 3, e));
        assert(u.squares =~= v.squares);
    } else {
        assert(w.squares =~= v.squares.update(m.to@, placed).update(m.from@, e));
        assert(w.squares[m.to@] == placed);
        assert(!m.en_passant);
        let w1 = if m.promoted != Dignity::Empty {
            w.squares.update(m.from@, Piece::new_spec(v.side, Dignity::Pawn))
        } else {
            w.squares.update(m.from@, placed)
        };
        assert(w1 =~= v.squares.update(m.to@, placed));
        let w2 = w1.update(m.to@, e);
        assert(w2 =~= v.squares.update(m.to@, e));
        let w3 = if m.captured != Dignity::Empty {
            w2.update(m.to@, Piece::new_spec(w.side, m.captured))
        } else {
            w2
        };
        assert(w3 =~= v.squares);
        assert(u.squares =~= v.squares);
    }
    assert(u.castling =~= v.castling);
    assert(u.en_passant =~= v.en_passant);
    assert(u.halfmove =~= v.halfmove);
}

/// Every move in `s` can be made on `v`.
pub open spec fn all_makeable(v: BoardView, s: Seq<Move>) -> bool {
    forall|k: int| 0 <= k < s.len() ==> makeable(v, #[trigger] s[k])
}

proof fn lemma_all_makeable_add(v: BoardView, a: Seq<Move>, b: Seq<Move>)
    requires
        all_makeable(v, a),
        all_makeable(v, b),
    ensures
        all_makeable(v, a + b),
{
    assert forall|k: int| 0 <= k < (a + b).len() implies makeable(v, #[trigger] (a + b)[k]) by {
        if k < a.len() {
            assert((a + b)[k] == a[k]);
        } else {
            assert((a + b)[k] == b[k - a.len()]);
        }
    }
}

/// The state every generation lemma starts from: a well-formed board with
/// room for one more ply and a piece of the side to move on `f`.
pub open spec fn mover_on(v: BoardView, f: int) -> bool {
    &&& v.wf()
    &&& v.ply + 1 < UNDO_STACK_LENGTH
    &&& 0 <= f < 64
    &&& !v.squares[f].is_empty()
    &&& v.squares[f].color == v.side
}

proof fn lemma_step_makeable(v: BoardView, f: int, q: Option<int>)
    requires
        mover_on(v, f),
        v.squares[f].dignity == Dignity::Knight || v.squares[f].dignity == Dignity::King,
        q matches Some(t) ==> 0 <= t < 64 && (t % 8 - f % 8 <= 2) && (f % 8 - t % 8 <= 2) && (v.squares[f].dignity
            == Dignity::King ==> (t % 8 - f % 8 <= 1) && (f % 8 - t % 8 <= 1)),
    ensures
        all_makeable(v, step_moves(v, f, q)),
{
    match q {
        None => {},
        Some(t) => {
            assert(v.squares[t].wf());
            let s = step_moves(v, f, q);
            if s.len() > 0 {
                assert(makeable(v, s[0]));
            }
        },
    }
}

proof fn lemma_steps_makeable(v: BoardView, f: int, knight: bool, k: int)
    requires
        mover_on(v, f),
        knight ==> v.squares[f].dignity == Dignity::Knight,
        !knight ==> v.squares[f].dignity == Dignity::King,
        0 <= k <= 8,
    ensures
        all_makeable(v, steps_upto(v, f, knight, k)),
    decreases k,
{
    if k > 0 {
        lemma_steps_makeable(v, f, knight, k - 1);
        let o = if knight {
            crate::generation::knight_offset(k - 1)
        } else {
            crate::generation::king_offset(k - 1)
        };
        let q = offset_index(f, o.0, o.1);
        match q {
            None => {},
            Some(t) => {
                assert(t % 8 == f % 8 + o.0);
            },
        }
        lemma_step_makeable(v, f, q);
        lemma_all_makeable_add(v, steps_upto(v, f, knight, k - 1), step_moves(v, f, q));
    }
}

proof fn lemma_ray_makeable(v: BoardView, f: int, dx: int, dy: int, d: int)
    requires
        mover_on(v, f),
        v.squares[f].dignity == Dignity::Bishop || v.squares[f].dignity == Dignity::Rook
            || v.squares[f].dignity == Dignity::Queen,
    ensures
        all_makeable(v, ray_moves(v, f, dx, dy, d)),
    decreases 8 - d,
{
    if 1 <= d < 8 {
        match offset_index(f, dx * d, dy * d) {
            None => {},
            Some(t) => {
                assert(v.squares[t].wf());
                lemma_ray_makeable(v, f, dx, dy, d + 1);
                let s = ray_moves(v, f, dx, dy, d);
                if v.squares[t].is_empty() {
                    let head = seq![crate::generation::quiet_spec(f, t)];
                    assert(makeable(v, head[0]));
                    lemma_all_makeable_add(v, head, ray_moves(v, f, dx, dy, d + 1));
                } else if s.len() > 0 {
                    assert(makeable(v, s[0]));
                }
            },
        }
    }
}

proof fn lemma_king_makeable(v: BoardView, f: int)
    requires
        mover_on(v, f),
        v.squares[f].dignity == Dignity::King,
    ensures
        all_makeable(v, king_moves(v, f)),
{
    lemma_steps_makeable(v, f, false, 8);
    let home = home_row(v.side);
    if f == home + 4 {
        let ks = king_side_castling_moves(v);
        let qs = queen_side_castling_moves(v);
        if ks.len() > 0 {
            assert(v.squares[home + 6].wf());
            assert(makeable(v, ks[0]));
        }
        if qs.len() > 0 {
            assert(v.squares[home + 2].wf());
            assert(makeable(v, qs[0]));
        }
        lemma_all_makeable_add(v, ks, qs);
        lemma_all_makeable_add(v, steps_upto(v, f, false, 8), ks + qs);
    } else {
        lemma_all_makeable_add(v, steps_upto(v, f, false, 8), Seq::empty());
    }
}

proof fn lemma_pawn_makeable(v: BoardView, f: int)
    requires
        mover_on(v, f),
        v.squares[f].dignity == Dignity::Pawn,
    ensures
        all_makeable(v, pawn_moves(v, f)),
{
    let pushes = pawn_pushes(v, f);
    assert forall|k: int| 0 <= k < pushes.len() implies makeable(v, #[trigger] pushes[k]) by {
        let t = pushes[k].to@;
        assert(v.squares[t].wf());
    }
    assert forall|dx: int| dx == 1 || dx == -1 implies all_makeable(v, pawn_captures(v, f, dx)) by {
        let c = pawn_captures(v, f, dx);
        assert forall|k: int| 0 <= k < c.len() implies makeable(v, #[trigger] c[k]) by {
            let t = c[k].to@;
            assert(v.squares[t].wf());
        }
    }
    let promos = pawn_promotions(v, f);
    assert forall|k: int| 0 <= k < promos.len() implies makeable(v, #[trigger] promos[k]) by {
        let t = promos[k].to@;
        assert(v.squares[t].wf());
    }
    assert forall|dx: int| dx == 1 || dx == -1 implies all_makeable(
        v,
        pawn_promotion_captures(v, f, dx),
    ) by {
        let c = pawn_promotion_captures(v, f, dx);
        assert forall|k: int| 0 <= k < c.len() implies makeable(v, #[trigger] c[k]) by {
            let t = c[k].to@;
            assert(v.squares[t].wf());
        }
    }
    let a = pushes + pawn_captures(v, f, 1);
    lemma_all_makeable_add(v, pushes, pawn_captures(v, f, 1));
    let b = a + pawn_captures(v, f, -1);
    lemma_all_makeable_add(v, a, pawn_captures(v, f, -1));
    let c = b + promos;
    lemma_all_makeable_add(v, b, promos);
    let d = c + pawn_promotion_captures(v, f, 1);
    lemma_all_makeable_add(v, c, pawn_promotion_captures(v, f, 1));
    lemma_all_makeable_add(v, d, pawn_promotion_captures(v, f, -1));
}

proof fn lemma_square_makeable(v: BoardView, i: int)
    requires
        v.wf(),
        v.ply + 1 < UNDO_STACK_LENGTH,
        0 <= i < 64,
    ensures
        all_makeable(v, square_moves(v, i)),
{
    let p = v.squares[i];
    assert(p.wf());
    if p.color == v.side && !p.is_empty() {
        match p.dignity {
            Dignity::Empty => {},
            Dignity::Pawn => lemma_pawn_makeable(v, i),
            Dignity::Knight => lemma_steps_makeable(v, i, true, 8),
            Dignity::Bishop => {
                lemma_ray_makeable(v, i, -1, -1, 1);
                lemma_ray_makeable(v, i, -1, 1, 1);
                lemma_ray_makeable(v, i, 1, -1, 1);
                lemma_ray_makeable(v, i, 1, 1, 1);
                lemma_all_makeable_add(v, ray_moves(v, i, -1, -1, 1), ray_moves(v, i, -1, 1, 1));
                lemma_all_makeable_add(
                    v,
                    ray_moves(v, i, -1, -1, 1) + ray_moves(v, i, -1, 1, 1),
                    ray_moves(v, i, 1, -1, 1),
                );
                lemma_all_makeable_add(
                    v,
                    ray_moves(v, i, -1, -1, 1) + ray_moves(v, i, -1, 1, 1) + ray_moves(v, i, 1, -1, 1),
                    ray_moves(v, i, 1, 1, 1),
                );
            },
            Dignity::Rook => lemma_rook_rays(v, i),
            Dignity::Queen => {
                lemma_ray_makeable(v, i, -1, -1, 1);
                lemma_ray_makeable(v, i, -1, 1, 1);
                lemma_ray_makeable(v, i, 1, -1, 1);
                lemma_ray_makeable(v, i, 1, 1, 1);
                lemma_all_makeable_add(v, ray_moves(v, i, -1, -1, 1), ray_moves(v, i, -1, 1, 1));
                lemma_all_makeable_add(
                    v,
                    ray_moves(v, i, -1, -1, 1) + ray_moves(v, i, -1, 1, 1),
                    ray_moves(v, i, 1, -1, 1),
                );
                lemma_all_makeable_add(
                    v,
                    ray_moves(v, i, -1, -1, 1) + ray_moves(v, i, -1, 1, 1) + ray_moves(v, i, 1, -1, 1),
                    ray_moves(v, i, 1, 1, 1),
                );
                lemma_rook_rays(v, i);
                lemma_all_makeable_add(v, bishop_moves(v, i), rook_moves(v, i));
            },
            Dignity::King => lemma_king_makeable(v, i),
        }
    }
}

proof fn lemma_rook_rays(v: BoardView, i: int)
    requires
        mover_on(v, i),
        v.squares[i].dignity == Dignity::Rook || v.squares[i].dignity == Dignity::Queen,
    ensures
        all_makeable(v, rook_moves(v, i)),
{
    lemma_ray_makeable(v, i, 0, 1, 1);
    lemma_ray_makeable(v, i, 0, -1, 1);
    lemma_ray_makeable(v, i, 1, 0, 1);
    lemma_ray_makeable(v, i, -1, 0, 1);
    lemma_all_makeable_add(v, ray_moves(v, i, 0, 1, 1), ray_moves(v, i, 0, -1, 1));
    lemma_all_makeable_add(
        v,
        ray_moves(v, i, 0, 1, 1) + ray_moves(v, i, 0, -1, 1),
        ray_moves(v, i, 1, 0, 1),
    );
    lemma_all_makeable_add(
        v,
        ray_moves(v, i, 0, 1, 1) + ray_moves(v, i, 0, -1, 1) + ray_moves(v, i, 1, 0, 1),
        ray_moves(v, i, -1, 0, 1),
    );
}

proof fn lemma_upto_makeable(v: BoardView, n: int)
    requires
        v.wf(),
        v.ply + 1 < UNDO_STACK_LENGTH,
        0 <= n <= 64,
    ensures
        all_makeable(v, moves_upto(v, n)),
    decreases n,
{
    if n > 0 {
        lemma_upto_makeable(v, n - 1);
        lemma_square_makeable(v, n - 1);
        lemma_all_makeable_add(v, moves_upto(v, n - 1), square_moves(v, n - 1));
    }
}

/// Every pseudo-legal move the generator produces can be made: making it
/// is well defined and reports whether the position it leaves is legal, and
/// unmaking it restores the board.
pub proof fn lemma_pseudo_legal_makeable(v: BoardView)
    requires
        v.wf(),
        v.ply + 1 < UNDO_STACK_LENGTH,
    ensures
        all_makeable(v, pseudo_legal_moves(v)),
{
    reveal(pseudo_legal_moves);
    lemma_upto_makeable(v, 64);
}

/// Any make leaves an en-passant file open only after a pawn's double
/// step, and then the file of that pawn; every other make closes it.
pub proof fn lemma_make_en_passant_file(v: BoardView, m: Move)
    requires
        v.wf(),
    ensures
        make_spec(v, m).cur_en_passant() == (if m.is_pawn_double_move_spec(
            placed_piece(v, m).dignity,
        ) {
            crate::chess_move::col(m.from) as u8
        } else {
            crate::square::EN_PASSANT_NONE
        }),
{
}

/// A castling move counts as legal only if the square the king left, the
/// square it crossed and the square it stands on are all unattacked.
pub proof fn lemma_castling_legality(w: BoardView, m: Move)
    requires
        legal_after(w, m),
        first_from(w.squares, Piece::new_spec(w.side.swapped_spec(), Dignity::King), 0) == Some(
            m.to@,
        ),
    ensures
        m.is_king_side_castling_spec(w.squares[m.to@].dignity) ==> !attacked(
            w.squares,
            m.from@,
            w.side,
        ) && !attacked(w.squares, m.from@ + 1, w.side) && !attacked(w.squares, m.to@, w.side),
        m.is_queen_side_castling_spec(w.squares[m.to@].dignity) ==> !attacked(
            w.squares,
            m.from@,
            w.side,
        ) && !attacked(w.squares, m.from@ - 1, w.side) && !attacked(w.squares, m.to@, w.side),
{
}

} // verus!
