use vstd::prelude::*;

use crate::board::{Board, BoardView, MAX_FEN_SIZE, MIN_FEN_SIZE, UNDO_STACK_LENGTH};
use crate::chess_move::Move;
use crate::generation::{
    moves_upto, pseudo_legal_moves, ray_moves, square_moves, steps_upto, king_moves, pawn_moves,
};
use crate::laws::{all_makeable, lemma_make_unmake, lemma_pseudo_legal_makeable};
use crate::move_generator::{
    MoveBuffer, MoveGenerator, MAX_GENERATED_MOVES, MAX_MOVE_BUFFER_SIZE,
};
use crate::rules::{legal_after, make_spec, makeable};
use crate::transposition_table::{same_position, TranspositionTable};

verus! {

/// The deepest perft the move buffer has room for.
pub const MAX_PERFT_DEPTH: usize = 18;

/// The number of slots of the table a perft run uses.
pub const PERFT_TABLE_SIZE: usize = 65536;

/// A count clamped to what a `usize` holds.
pub open spec fn saturate(n: nat) -> usize {
    if n > usize::MAX {
        usize::MAX
    } else {
        n as usize
    }
}

/// The number of leaves of the tree of legal move sequences of length `d`
/// from `v`.
pub open spec fn perft_spec(v: BoardView, d: nat) -> nat
    decreases d + 1, 0nat,
{
    if d == 0 {
        1
    } else {
        perft_sum(v, pseudo_legal_moves(v), d, pseudo_legal_moves(v).len())
    }
}

/// The leaves below the first `k` moves of `ms`, counting only the moves
/// that leave a legal position.
pub open spec fn perft_sum(v: BoardView, ms: Seq<Move>, d: nat, k: nat) -> nat
    decreases d, k,
{
    if d == 0 || k == 0 {
        0
    } else {
        let m = ms[k - 1];
        perft_sum(v, ms, d, (k - 1) as nat) + (if legal_after(make_spec(v, m), m) {
            perft_spec(make_spec(v, m), (d - 1) as nat)
        } else {
            0
        })
    }
}

/// The undo stacks hold one entry per ply up to the current one.
pub open spec fn shaped(v: BoardView) -> bool {
    v.castling.len() == v.ply + 1 && v.en_passant.len() == v.ply + 1
        && v.halfmove.len() == v.ply + 1
}

proof fn lemma_make_shaped(v: BoardView, m: Move)
    requires
        shaped(v),
    ensures
        shaped(make_spec(v, m)),
{
    let w = make_spec(v, m);
    assert(w.castling.len() == w.ply + 1);
    assert(w.en_passant.len() == w.ply + 1);
    assert(w.halfmove.len() == w.ply + 1);
}

proof fn lemma_saturate_add(a: nat, b: nat)
    ensures
        saturate(a + b) == saturate(a).saturating_add(saturate(b)),
{
}

proof fn lemma_ray_congruent(w: BoardView, v: BoardView, f: int, dx: int, dy: int, d: int)
    requires
        same_position(w, v),
    ensures
        ray_moves(w, f, dx, dy, d) == ray_moves(v, f, dx, dy, d),
    decreases 8 - d,
{
    if 1 <= d < 8 {
        lemma_ray_congruent(w, v, f, dx, dy, d + 1);
    }
}

proof fn lemma_steps_congruent(w: BoardView, v: BoardView, f: int, knight: bool, k: int)
    requires
        same_position(w, v),
    ensures
        steps_upto(w, f, knight, k) == steps_upto(v, f, knight, k),
    decreases k,
{
    if k > 0 {
        lemma_steps_congruent(w, v, f, knight, k - 1);
    }
}

proof fn lemma_square_congruent(w: BoardView, v: BoardView, i: int)
    requires
        same_position(w, v),
    ensures
        square_moves(w, i) == square_moves(v, i),
{
    lemma_steps_congruent(w, v, i, true, 8);
    lemma_steps_congruent(w, v, i, false, 8);
    lemma_ray_congruent(w, v, i, -1, -1, 1);
    lemma_ray_congruent(w, v, i, -1, 1, 1);
    lemma_ray_congruent(w, v, i, 1, -1, 1);
    lemma_ray_congruent(w, v, i, 1, 1, 1);
    lemma_ray_congruent(w, v, i, 0, 1, 1);
    lemma_ray_congruent(w, v, i, 0, -1, 1);
    lemma_ray_congruent(w, v, i, 1, 0, 1);
    lemma_ray_congruent(w, v, i, -1, 0, 1);
    assert(pawn_moves(w, i) == pawn_moves(v, i));
    assert(king_moves(w, i) == king_moves(v, i));
}

proof fn lemma_moves_congruent(w: BoardView, v: BoardView, n: int)
    requires
        same_position(w, v),
    ensures
        moves_upto(w, n) == moves_upto(v, n),
    decreases n,
{
    if n > 0 {
        lemma_moves_congruent(w, v, n - 1);
        lemma_square_congruent(w, v, n - 1);
    }
}

/// The count depends on the position alone: two boards that agree on the
/// placement, the side to move, the castling rights and the en-passant file
/// have the same perft at every depth.
pub proof fn lemma_perft_congruent(w: BoardView, v: BoardView, d: nat)
    requires
        same_position(w, v),
        shaped(w),
        shaped(v),
    ensures
        perft_spec(w, d) == perft_spec(v, d),
    decreases d + 1, 0nat,
{
    if d > 0 {
        reveal(pseudo_legal_moves);
        lemma_moves_congruent(w, v, 64);
        let ms = pseudo_legal_moves(v);
        lemma_sum_congruent(w, v, ms, d, ms.len());
    }
}

proof fn lemma_sum_congruent(w: BoardView, v: BoardView, ms: Seq<Move>, d: nat, k: nat)
    requires
        same_position(w, v),
        shaped(w),
        shaped(v),
    ensures
        perft_sum(w, ms, d, k) == perft_sum(v, ms, d, k),
    decreases d, k,
{
    if d > 0 && k > 0 {
        lemma_sum_congruent(w, v, ms, d, (k - 1) as nat);
        let m = ms[k - 1];
        let mw = make_spec(w, m);
        let mv = make_spec(v, m);
        assert(same_position(mw, mv));
        lemma_make_shaped(w, m);
        lemma_make_shaped(v, m);
        assert(legal_after(mw, m) == legal_after(mv, m));
        lemma_perft_congruent(mw, mv, (d - 1) as nat);
    }
}

/// Every slot in use holds the exact count, clamped, of its position.
pub open spec fn table_sound(entries: Seq<crate::transposition_table::Entry>) -> bool {
    forall|i: int|
        0 <= i < entries.len() && (#[trigger] entries[i]).used ==> shaped(entries[i].view)
            && entries[i].nodes == saturate(perft_spec(entries[i].view, entries[i].depth as nat))
}

proof fn lemma_table_sound_update(
    t: Seq<crate::transposition_table::Entry>,
    i: int,
    e: crate::transposition_table::Entry,
)
    requires
        table_sound(t),
        0 <= i < t.len(),
        e.used ==> shaped(e.view) && e.nodes == saturate(perft_spec(e.view, e.depth as nat)),
    ensures
        table_sound(t.update(i, e)),
{
    let u = t.update(i, e);
    assert forall|j: int| 0 <= j < u.len() && (#[trigger] u[j]).used implies shaped(u[j].view)
        && u[j].nodes == saturate(perft_spec(u[j].view, u[j].depth as nat)) by {
        if j != i {
            assert(u[j] == t[j]);
        }
    }
}

/// A cache that only ever stored exact counts answers exactly: a slot in
/// use that holds the position of `v` at depth `d` holds the count that a
/// search without the cache finds.
pub proof fn lemma_cache_hit_sound(
    t: Seq<crate::transposition_table::Entry>,
    i: int,
    v: BoardView,
    d: nat,
)
    requires
        table_sound(t),
        0 <= i < t.len(),
        t[i].used,
        t[i].depth == d,
        same_position(t[i].view, v),
        shaped(v),
    ensures
        t[i].nodes == saturate(perft_spec(v, d)),
{
    lemma_perft_congruent(t[i].view, v, d);
}

/// Makes `chess_move`, counts the leaves below it if it is legal, and
/// unmakes it.
fn perft_child<const TT_SIZE: usize>(
    board: &mut Board,
    movegen: &MoveGenerator,
    move_buffer: &mut MoveBuffer,
    transposition_table: &mut TranspositionTable<TT_SIZE>,
    depth: usize,
    chess_move: Move,
) -> (r: usize)
    requires
        old(board).inv(),
        makeable(old(board)@, chess_move),
        depth > 0,
        old(board)@.ply + depth < UNDO_STACK_LENGTH,
        old(move_buffer).wf(),
        old(move_buffer)@.len() + (depth - 1) * MAX_GENERATED_MOVES <= MAX_MOVE_BUFFER_SIZE,
        old(transposition_table).inv(),
        table_sound(old(transposition_table)@),
    ensures
        final(board).inv(),
        final(board)@ == old(board)@,
        final(move_buffer).wf(),
        final(move_buffer)@ == old(move_buffer)@,
        final(transposition_table).inv(),
        table_sound(final(transposition_table)@),
        final(transposition_table)@.len() == old(transposition_table)@.len(),
        r == (if legal_after(make_spec(old(board)@, chess_move), chess_move) {
            saturate(perft_spec(make_spec(old(board)@, chess_move), (depth - 1) as nat))
        } else {
            0
        }),
    decreases depth, 0nat,
{
    let ghost v = board@;
    proof {
        lemma_make_unmake(v, chess_move);
    }
    let legal = movegen.make_move(board, chess_move);
    let mut nodes: usize = 0;
    if legal {
        nodes = perft_recursive(board, movegen, move_buffer, transposition_table, depth - 1);
    }
    movegen.unmake_move(board, chess_move);
    nodes
}

/// Counts the leaves below the moves generated into `move_buffer` from
/// position `start_move_index` on: the pseudo-legal moves of the board.
fn perft_moves<const TT_SIZE: usize>(
    board: &mut Board,
    movegen: &MoveGenerator,
    move_buffer: &mut MoveBuffer,
    transposition_table: &mut TranspositionTable<TT_SIZE>,
    depth: usize,
    start_move_index: usize,
) -> (r: usize)
    requires
        old(board).inv(),
        depth > 0,
        old(board)@.ply + depth < UNDO_STACK_LENGTH,
        old(move_buffer).wf(),
        start_move_index <= old(move_buffer)@.len(),
        old(move_buffer)@.subrange(start_move_index as int, old(move_buffer)@.len() as int)
            == pseudo_legal_moves(old(board)@),
        old(move_buffer)@.len() <= start_move_index + MAX_GENERATED_MOVES,
        start_move_index + depth * MAX_GENERATED_MOVES <= MAX_MOVE_BUFFER_SIZE,
        all_makeable(old(board)@, pseudo_legal_moves(old(board)@)),
        old(transposition_table).inv(),
        table_sound(old(transposition_table)@),
    ensures
        final(board).inv(),
        final(board)@ == old(board)@,
        final(move_buffer).wf(),
        final(move_buffer)@ == old(move_buffer)@,
        final(transposition_table).inv(),
        table_sound(final(transposition_table)@),
        final(transposition_table)@.len() == old(transposition_table)@.len(),
        r == saturate(perft_spec(old(board)@, depth as nat)),
    decreases depth, 1nat,
{
    let ghost v = board@;
    let ghost ms = pseudo_legal_moves(v);
    let ghost all = move_buffer@;
    let end_move_index = move_buffer.len();
    let mut result: usize = 0;
    let mut move_index = start_move_index;
    while move_index < end_move_index
        invariant
            board.inv(),
            board@ == v,
            v.ply + depth < UNDO_STACK_LENGTH,
            depth > 0,
            start_move_index <= move_index <= end_move_index,
            move_buffer.wf(),
            move_buffer@ == all,
            all == old(move_buffer)@,
            end_move_index == all.len(),
            all.subrange(start_move_index as int, end_move_index as int) == ms,
            end_move_index <= start_move_index + MAX_GENERATED_MOVES,
            start_move_index + depth * MAX_GENERATED_MOVES <= MAX_MOVE_BUFFER_SIZE,
            all_makeable(v, ms),
            transposition_table.inv(),
            table_sound(transposition_table@),
            transposition_table@.len() == old(transposition_table)@.len(),
            result == saturate(perft_sum(v, ms, depth as nat, (move_index - start_move_index) as nat)),
        decreases end_move_index - move_index,
    {
        let chess_move = move_buffer.get(move_index);
        let ghost k = (move_index - start_move_index) as int;
        assert(chess_move == ms[k]);
        let nodes = perft_child(board, movegen, move_buffer, transposition_table, depth, chess_move);
        proof {
            lemma_saturate_add(
                perft_sum(v, ms, depth as nat, k as nat),
                if legal_after(make_spec(v, ms[k]), ms[k]) {
                    perft_spec(make_spec(v, ms[k]), (depth - 1) as nat)
                } else {
                    0
                },
            );
        }
        result = result.saturating_add(nodes);
        move_index = move_index + 1;
    }
    result
}

/// Counts the leaves at `depth` below the position of `board`, clamped to
/// `usize::MAX`, answering from `table` what it already holds and storing
/// each count it finds. The board, and the move buffer beyond its own
/// window, come back as they were.
pub fn perft_recursive<const TT_SIZE: usize>(
    board: &mut Board,
    movegen: &MoveGenerator,
    move_buffer: &mut MoveBuffer,
    transposition_table: &mut TranspositionTable<TT_SIZE>,
    depth: usize,
) -> (r: usize)
    requires
        old(board).inv(),
        old(board)@.ply + depth < UNDO_STACK_LENGTH,
        old(move_buffer).wf(),
        old(move_buffer)@.len() + depth * MAX_GENERATED_MOVES <= MAX_MOVE_BUFFER_SIZE,
        old(transposition_table).inv(),
        table_sound(old(transposition_table)@),
    ensures
        final(board).inv(),
        final(board)@ == old(board)@,
        final(move_buffer).wf(),
        final(move_buffer)@ == old(move_buffer)@,
        final(transposition_table).inv(),
        table_sound(final(transposition_table)@),
        final(transposition_table)@.len() == old(transposition_table)@.len(),
        r == saturate(perft_spec(old(board)@, depth as nat)),
    decreases depth, 2nat,
{
    let ghost v = board@;
    proof {
        transposition_table.lemma_inv();
    }
    if depth == 0 {
        return 1;
    }
    match transposition_table.get(board, depth) {
        Some(nodes) => {
            proof {
                let e = transposition_table@[crate::transposition_table::slot(
                    v.hash_spec(),
                    TT_SIZE,
                )];
                assert(e.used);
                lemma_perft_congruent(e.view, v, depth as nat);
            }
            return nodes;
        },
        None => {},
    }
    let start_move_index = move_buffer.len();
    let ghost before = move_buffer@;
    movegen.generate(board, move_buffer);
    proof {
        lemma_pseudo_legal_makeable(v);
        assert(move_buffer@.subrange(start_move_index as int, move_buffer@.len() as int)
            =~= pseudo_legal_moves(v));
    }
    let result = perft_moves(board, movegen, move_buffer, transposition_table, depth, start_move_index);
    move_buffer.restore_cursor(start_move_index);
    assert(move_buffer@ =~= before);
    let ghost t0 = transposition_table@;
    transposition_table.add(board, depth, result);
    proof {
        lemma_table_sound_update(
            t0,
            crate::transposition_table::slot(v.hash_spec(), TT_SIZE),
            crate::transposition_table::Entry {
                used: v.hash_spec() != 0,
                view: v,
                depth,
                nodes: result,
            },
        );
    }
    result
}

/// Counts the leaves at `depth` below `board` with a fresh move buffer and
/// a fresh table, clamped to `usize::MAX`.
pub fn perft_from(board: &mut Board, depth: usize) -> (r: usize)
    requires
        old(board).inv(),
        old(board)@.ply + depth < UNDO_STACK_LENGTH,
        depth <= MAX_PERFT_DEPTH,
    ensures
        final(board).inv(),
        final(board)@ == old(board)@,
        r == saturate(perft_spec(old(board)@, depth as nat)),
{
    let movegen = MoveGenerator::new();
    let mut move_buffer = MoveBuffer::new();
    assert(PERFT_TABLE_SIZE & (PERFT_TABLE_SIZE - 1) as usize == 0) by (bit_vector);
    let mut transposition_table = TranspositionTable::<PERFT_TABLE_SIZE>::new_box();
    perft_recursive(board, &movegen, &mut move_buffer, &mut *transposition_table, depth)
}

/// Reads a position record and counts the leaves at `depth` below it.
pub fn perft(fen: &[u8], depth: usize) -> (r: usize)
    requires
        MIN_FEN_SIZE <= fen@.len() <= MAX_FEN_SIZE,
        depth <= MAX_PERFT_DEPTH,
    ensures
        forall|b: BoardView|
            crate::board::describes(fen@, b) ==> r == saturate(perft_spec(b, depth as nat)),
{
    let mut board = Board::from_fen(fen);
    perft_from(&mut board, depth)
}

/// The positions reached by the first `k` moves of `ms` that are legal, in order.
pub open spec fn legal_children(v: BoardView, ms: Seq<Move>, k: nat) -> Seq<BoardView>
    decreases k,
{
    if k == 0 {
        Seq::empty()
    } else {
        let m = ms[k - 1];
        legal_children(v, ms, (k - 1) as nat) + (if legal_after(make_spec(v, m), m) {
            seq![make_spec(v, m)]
        } else {
            Seq::empty()
        })
    }
}

/// The sum of the perft counts at depth `d` of the boards `cs`.
pub open spec fn sum_perft(cs: Seq<BoardView>, d: nat) -> nat
    decreases cs.len(),
{
    if cs.len() == 0 {
        0
    } else {
        sum_perft(cs.drop_last(), d) + perft_spec(cs.last(), d)
    }
}

proof fn lemma_fan_out_upto(v: BoardView, ms: Seq<Move>, d: nat, k: nat)
    ensures
        perft_sum(v, ms, d + 1, k) == sum_perft(legal_children(v, ms, k), d),
    decreases k,
{
    if k > 0 {
        lemma_fan_out_upto(v, ms, d, (k - 1) as nat);
        let m = ms[k - 1];
        let a = legal_children(v, ms, (k - 1) as nat);
        if legal_after(make_spec(v, m), m) {
            let c = a + seq![make_spec(v, m)];
            assert(c.drop_last() =~= a);
        } else {
            assert(a + Seq::<BoardView>::empty() =~= a);
        }
    }
}

/// Counting from the root splits over its legal moves: the perft of a
/// board at depth `d + 1` is the sum of the perfts at depth `d` of the
/// boards its legal moves lead to.
pub proof fn lemma_fan_out(v: BoardView, d: nat)
    ensures
        perft_spec(v, d + 1) == sum_perft(
            legal_children(v, pseudo_legal_moves(v), pseudo_legal_moves(v).len()),
            d,
        ),
{
    lemma_fan_out_upto(v, pseudo_legal_moves(v), d, pseudo_legal_moves(v).len());
}

/// The boards that the legal moves of the side to move lead to, in
/// generation order, each a copy that can be searched on its own.
pub fn root_children(board: &mut Board) -> (r: Vec<Board>)
    requires
        old(board).inv(),
        old(board)@.ply + 1 < UNDO_STACK_LENGTH,
    ensures
        final(board).inv(),
        final(board)@ == old(board)@,
        r@.len() == legal_children(
            old(board)@,
            pseudo_legal_moves(old(board)@),
            pseudo_legal_moves(old(board)@).len(),
        ).len(),
        forall|i: int|
            0 <= i < r@.len() ==> (#[trigger] r@[i]).inv() && r@[i]@ == legal_children(
                old(board)@,
                pseudo_legal_moves(old(board)@),
                pseudo_legal_moves(old(board)@).len(),
            )[i],
{
    let ghost v = board@;
    let ghost ms = pseudo_legal_moves(v);
    let movegen = MoveGenerator::new();
    let mut move_buffer = MoveBuffer::new();
    movegen.generate(board, &mut move_buffer);
    proof {
        lemma_pseudo_legal_makeable(v);
        assert(move_buffer@ =~= ms);
    }
    let mut children: Vec<Board> = Vec::new();
    let mut i: usize = 0;
    while i < move_buffer.len()
        invariant
            board.inv(),
            board@ == v,
            move_buffer@ == ms,
            i <= ms.len(),
            all_makeable(v, ms),
            children@.len() == legal_children(v, ms, i as nat).len(),
            forall|j: int|
                0 <= j < children@.len() ==> (#[trigger] children@[j]).inv() && children@[j]@
                    == legal_children(v, ms, i as nat)[j],
        decreases ms.len() - i,
    {
        let chess_move = move_buffer.get(i);
        proof {
            lemma_make_unmake(v, chess_move);
        }
        let ghost before = children@;
        let legal = movegen.make_move(board, chess_move);
        if legal {
            let child = *board;
            children.push(child);
        }
        movegen.unmake_move(board, chess_move);
        proof {
            let next = legal_children(v, ms, (i + 1) as nat);
            assert forall|j: int| 0 <= j < children@.len() implies (#[trigger] children@[j]).inv()
                && children@[j]@ == next[j] by {
                if j < before.len() {
                    assert(children@[j] == before[j]);
                }
            }
        }
        i = i + 1;
    }
    children
}

} // verus!
