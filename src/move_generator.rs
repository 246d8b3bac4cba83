use vstd::prelude::*;

use crate::board::Board;
use crate::buffer::StaticBuffer;
use crate::castling::CastlingRights;
use crate::chess_move::Move;
use crate::color::Color;
use crate::generation::{
    bishop_moves, en_passant_open, king_moves, king_offset, king_side_castling_moves,
    knight_moves, knight_offset, moves_upto, pawn_captures, pawn_moves, pawn_promotion_captures,
    pawn_promotions, pawn_pushes, pseudo_legal_moves, queen_moves, queen_side_castling_moves,
    ray_moves, rook_moves, step_moves, steps_upto,
};
use crate::piece::{Dignity, Piece};
use crate::rules::{
    attacked, diagonal_attack, holds, knight_attack, lemma_first_from, legal_after, make_spec,
    makeable,
    moved_pieces, pawn_attack, placed_piece, ray_hits, straight_attack, unmake_spec, unmakeable,
};
use crate::square::{forward_dy, offset_index, opt_index, Rank, Square};

verus! {

/// How many moves a move buffer holds; enough for the moves of every ply of
/// a deep search.
pub const MAX_MOVE_BUFFER_SIZE: usize = 65536;

/// The most moves one piece can have: a queen's eight rays of seven squares.
pub const MAX_PIECE_MOVES: usize = 56;

/// The most moves one generation can add: one piece's worth per square.
pub const MAX_GENERATED_MOVES: usize = 3584;

/// The buffer the generator appends moves to, one window per ply.
pub type MoveBuffer = StaticBuffer<Move, MAX_MOVE_BUFFER_SIZE>;

/// Generates pseudo-legal moves and makes and unmakes them on a board.
/// It holds no state.
pub struct MoveGenerator;

impl MoveGenerator {
    pub fn new() -> (r: MoveGenerator) {
        MoveGenerator
    }

    /// Whether the square (`dx`, `dy`) away from `target` holds `p`.
    fn piece_at_offset(board: &Board, target: Square, dx: i8, dy: i8, p: Piece) -> (r: bool)
        requires
            board.inv(),
            target.wf(),
        ensures
            r == holds(board@.squares, offset_index(target@, dx as int, dy as int), p),
    {
        match target.shift(dx, dy) {
            Some(s) => board.piece(s) == p,
            None => false,
        }
    }

    /// Whether the first occupied square from `target` along (`dx`, `dy`)
    /// holds `a` or `b`.
    fn ray_attack(board: &Board, target: Square, dx: i8, dy: i8, a: Piece, b: Piece) -> (r: bool)
        requires
            board.inv(),
            target.wf(),
            -1 <= dx <= 1,
            -1 <= dy <= 1,
        ensures
            r == ray_hits(board@.squares, target@, dx as int, dy as int, 1, a, b),
    {
        let ghost s = board@.squares;
        let mut d: i8 = 1;
        while d < 8
            invariant
                board.inv(),
                s == board@.squares,
                target.wf(),
                -1 <= dx <= 1,
                -1 <= dy <= 1,
                1 <= d <= 8,
                ray_hits(s, target@, dx as int, dy as int, 1, a, b) == ray_hits(
                    s,
                    target@,
                    dx as int,
                    dy as int,
                    d as int,
                    a,
                    b,
                ),
            decreases 8 - d,
        {
            assert(-8 < dx * d < 8 && -8 < dy * d < 8) by (nonlinear_arith)
                requires
                    -1 <= dx <= 1,
                    -1 <= dy <= 1,
                    1 <= d < 8,
            ;
            let next = target.shift(dx * d, dy * d);
            match next {
                None => {
                    return false;
                },
                Some(sq) => {
                    let p = board.piece(sq);
                    if p.dignity != Dignity::Empty {
                        return p == a || p == b;
                    }
                },
            }
            d = d + 1;
        }
        false
    }

    /// Whether a piece of `side_to_move` attacks `target`.
    pub fn can_be_attacked(&self, target: Square, board: &Board, side_to_move: Color) -> (r: bool)
        requires
            board.inv(),
            target.wf(),
        ensures
            r == attacked(board@.squares, target@, side_to_move),
    {
        let ghost s = board@.squares;
        let ghost t = target@;
        let target_side = side_to_move.swapped();
        let pawn = Piece::new(side_to_move, Dignity::Pawn);
        let dy: i8 = match target_side {
            Color::White => 1,
            Color::Black => -1,
        };
        if Self::piece_at_offset(board, target, -1, dy, pawn) || Self::piece_at_offset(
            board,
            target,
            1,
            dy,
            pawn,
        ) {
            return true;
        }
        assert(!pawn_attack(s, t, side_to_move));
        let knight = Piece::new(side_to_move, Dignity::Knight);
        if Self::piece_at_offset(board, target, -2, -1, knight) || Self::piece_at_offset(
            board,
            target,
            -1,
            -2,
            knight,
        ) || Self::piece_at_offset(board, target, -2, 1, knight) || Self::piece_at_offset(
            board,
            target,
            -1,
            2,
            knight,
        ) || Self::piece_at_offset(board, target, 2, -1, knight) || Self::piece_at_offset(
            board,
            target,
            1,
            -2,
            knight,
        ) || Self::piece_at_offset(board, target, 2, 1, knight) || Self::piece_at_offset(
            board,
            target,
            1,
            2,
            knight,
        ) {
            return true;
        }
        assert(!knight_attack(s, t, side_to_move));
        let bishop = Piece::new(side_to_move, Dignity::Bishop);
        let queen = Piece::new(side_to_move, Dignity::Queen);
        if Self::ray_attack(board, target, -1, -1, bishop, queen) || Self::ray_attack(
            board,
            target,
            -1,
            1,
            bishop,
            queen,
        ) || Self::ray_attack(board, target, 1, -1, bishop, queen) || Self::ray_attack(
            board,
            target,
            1,
            1,
            bishop,
            queen,
        ) {
            return true;
        }
        assert(!diagonal_attack(s, t, side_to_move));
        let rook = Piece::new(side_to_move, Dignity::Rook);
        if Self::ray_attack(board, target, 0, 1, rook, queen) || Self::ray_attack(
            board,
            target,
            0,
            -1,
            rook,
            queen,
        ) || Self::ray_attack(board, target, 1, 0, rook, queen) || Self::ray_attack(
            board,
            target,
            -1,
            0,
            rook,
            queen,
        ) {
            return true;
        }
        assert(!straight_attack(s, t, side_to_move));
        let king = Piece::new(side_to_move, Dignity::King);
        if Self::piece_at_offset(board, target, -1, -1, king) || Self::piece_at_offset(
            board,
            target,
            -1,
            0,
            king,
        ) || Self::piece_at_offset(board, target, -1, 1, king) || Self::piece_at_offset(
            board,
            target,
            0,
            -1,
            king,
        ) || Self::piece_at_offset(board, target, 0, 1, king) || Self::piece_at_offset(
            board,
            target,
            1,
            -1,
            king,
        ) || Self::piece_at_offset(board, target, 1, 0, king) || Self::piece_at_offset(
            board,
            target,
            1,
            1,
            king,
        ) {
            return true;
        }
        false
    }

    /// Moves the pieces of `chess_move`: the en-passant victim off the board,
    /// the placed piece onto the destination, the source vacated, and the
    /// rook across after castling. Returns the placed piece.
    fn move_pieces(board: &mut Board, chess_move: Move) -> (placed: Piece)
        requires
            old(board).inv(),
            makeable(old(board)@, chess_move),
        ensures
            final(board).inv(),
            final(board)@ == moved_pieces(old(board)@, chess_move),
            placed == placed_piece(old(board)@, chess_move),
    {
        let stm = board.side_to_move();
        let opp = stm.swapped();
        let from = chess_move.from;
        let to = chess_move.to;
        let piece = if chess_move.promoted == Dignity::Empty {
            board.piece(from)
        } else {
            Piece::new(stm, chess_move.promoted)
        };
        let takes_ep = chess_move.en_passant;
        assert(from != to);
        if takes_ep {
            let victim = to.forward(opp, 1);
            board.remove_piece(victim);
        }
        board.set_piece_unchecked(to, piece);
        board.remove_piece(from);
        if chess_move.is_king_side_castling(piece.dignity) {
            let cr = CastlingRights::king_side(stm);
            board.set_piece_unchecked(cr.rook_destination(), Piece::new(stm, Dignity::Rook));
            board.remove_piece(cr.rook_initial());
        } else if chess_move.is_queen_side_castling(piece.dignity) {
            let cr = CastlingRights::queen_side(stm);
            board.set_piece_unchecked(cr.rook_destination(), Piece::new(stm, Dignity::Rook));
            board.remove_piece(cr.rook_initial());
        }
        piece
    }

    /// Makes `chess_move` and says whether the position it leaves is legal.
    /// An illegal make still leaves a well-formed board, to be unmade.
    pub fn make_move(&self, board: &mut Board, chess_move: Move) -> (legal: bool)
        requires
            old(board).inv(),
            makeable(old(board)@, chess_move),
        ensures
            final(board).inv(),
            final(board)@ == make_spec(old(board)@, chess_move),
            legal == legal_after(final(board)@, chess_move),
    {
        let ghost v = board@;
        let stm = board.side_to_move();
        let opp = stm.swapped();
        let from = chess_move.from;
        let to = chess_move.to;
        let piece = Self::move_pieces(board, chess_move);
        board.push_undo();
        if piece.dignity == Dignity::King {
            board.disallow_castling(CastlingRights::both(stm));
        }
        if piece.dignity == Dignity::Rook && from.file().index() == 0 && from.rank()
            == stm.start_rank() {
            board.disallow_castling(CastlingRights::queen_side(stm));
        }
        if piece.dignity == Dignity::Rook && from.file().index() == 7 && from.rank()
            == stm.start_rank() {
            board.disallow_castling(CastlingRights::king_side(stm));
        }
        if chess_move.captured == Dignity::Rook && to.file().index() == 0 && to.rank()
            == opp.start_rank() {
            board.disallow_castling(CastlingRights::queen_side(opp));
        }
        if chess_move.captured == Dignity::Rook && to.file().index() == 7 && to.rank()
            == opp.start_rank() {
            board.disallow_castling(CastlingRights::king_side(opp));
        }
        if chess_move.is_pawn_double_move(piece.dignity) {
            board.set_en_passant_file(from.file());
        } else {
            board.unset_en_passant_file();
        }
        if chess_move.is_capture() || piece.dignity == Dignity::Pawn {
            board.reset_halfmove_clock();
        } else {
            board.increase_halfmove_clock();
        }
        board.swap_side_to_move();
        proof {
            let w = make_spec(v, chess_move);
            assert(board@.castling =~= w.castling);
            assert(board@.en_passant =~= w.en_passant);
            assert(board@.halfmove =~= w.halfmove);
        }
        self.was_legal(board, chess_move)
    }

    /// Unmakes `chess_move`, made last on this board.
    pub fn unmake_move(&self, board: &mut Board, chess_move: Move)
        requires
            old(board).inv(),
            unmakeable(old(board)@, chess_move),
        ensures
            final(board).inv(),
            final(board)@ == unmake_spec(old(board)@, chess_move),
    {
        let moved_side = board.side_to_move();
        let opp_color = moved_side.swapped();
        let from = chess_move.from;
        let to = chess_move.to;
        if chess_move.promoted != Dignity::Empty {
            board.set_piece(from, Piece::new(opp_color, Dignity::Pawn));
        } else {
            let moved_piece = board.piece(to);
            board.set_piece(from, moved_piece);
        }
        let moved_piece = board.piece(to);
        board.remove_piece(to);
        if chess_move.en_passant {
            let en_passant_square = to.forward(moved_side, 1);
            board.set_piece(en_passant_square, Piece::new(moved_side, chess_move.captured));
        } else if chess_move.captured != Dignity::Empty {
            board.set_piece(to, Piece::new(moved_side, chess_move.captured));
        }
        if chess_move.is_queen_side_castling(moved_piece.dignity) {
            let cr = CastlingRights::queen_side(opp_color);
            board.set_piece_unchecked(cr.rook_initial(), Piece::new(opp_color, Dignity::Rook));
            board.remove_piece(cr.rook_destination());
        } else if chess_move.is_king_side_castling(moved_piece.dignity) {
            let cr = CastlingRights::king_side(opp_color);
            board.set_piece_unchecked(cr.rook_initial(), Piece::new(opp_color, Dignity::Rook));
            board.remove_piece(cr.rook_destination());
        }
        board.pop_undo();
        board.swap_side_to_move();
    }

    /// Whether the side that just moved left its king unattacked (if it has
    /// one), and after castling also the squares the king left and crossed.
    fn was_legal(&self, board: &Board, chess_move: Move) -> (r: bool)
        requires
            board.inv(),
            chess_move.wf(),
        ensures
            r == legal_after(board@, chess_move),
    {
        let stm = board.side_to_move();
        let moved_side = stm.swapped();
        let king_pos = board.find_king(moved_side);
        proof {
            lemma_first_from(
                board@.squares,
                Piece::new_spec(moved_side, Dignity::King),
                0,
                opt_index(king_pos),
            );
        }
        match king_pos {
            None => {},
            Some(k) => {
                if self.can_be_attacked(k, board, stm) {
                    return false;
                }
            },
        }
        let moved_piece = board.piece(chess_move.to);
        if chess_move.is_king_side_castling(moved_piece.dignity) {
            if self.can_be_attacked(chess_move.from, board, stm) {
                return false;
            }
            let cross = Square::from_index(chess_move.from.index() + 1);
            if self.can_be_attacked(cross, board, stm) {
                return false;
            }
        }
        if chess_move.is_queen_side_castling(moved_piece.dignity) {
            if self.can_be_attacked(chess_move.from, board, stm) {
                return false;
            }
            let cross = Square::from_index(chess_move.from.index() - 1);
            if self.can_be_attacked(cross, board, stm) {
                return false;
            }
        }
        true
    }

    /// Appends the step of a knight or king to the square (`dx`, `dy`) away.
    fn add_step(board: &Board, from: Square, dx: i8, dy: i8, buffer: &mut MoveBuffer)
        requires
            board.inv(),
            from.wf(),
            old(buffer).wf(),
            old(buffer)@.len() + 1 <= MAX_MOVE_BUFFER_SIZE,
        ensures
            final(buffer).wf(),
            final(buffer)@ == old(buffer)@ + step_moves(
                board@,
                from@,
                offset_index(from@, dx as int, dy as int),
            ),
            final(buffer)@.len() <= old(buffer)@.len() + 1,
    {
        match from.shift(dx, dy) {
            None => {},
            Some(to) => {
                let dest = board.piece(to);
                if dest.dignity == Dignity::Empty {
                    buffer.add(Move::quiet(from, to));
                } else if dest.color != board.side_to_move() {
                    buffer.add(Move::capture(from, to, dest.dignity));
                }
            },
        }
        assert(buffer@ =~= old(buffer)@ + step_moves(
            board@,
            from@,
            offset_index(from@, dx as int, dy as int),
        ));
    }

    /// Appends the moves along the ray from `from` in steps of (`dx`, `dy`).
    fn add_ray(board: &Board, from: Square, dx: i8, dy: i8, buffer: &mut MoveBuffer)
        requires
            board.inv(),
            from.wf(),
            -1 <= dx <= 1,
            -1 <= dy <= 1,
            old(buffer).wf(),
            old(buffer)@.len() + 7 <= MAX_MOVE_BUFFER_SIZE,
        ensures
            final(buffer).wf(),
            final(buffer)@ == old(buffer)@ + ray_moves(board@, from@, dx as int, dy as int, 1),
            final(buffer)@.len() <= old(buffer)@.len() + 7,
    {
        let ghost v = board@;
        let ghost start = buffer@;
        let mut d: i8 = 1;
        while d < 8
            invariant
                board.inv(),
                v == board@,
                from.wf(),
                -1 <= dx <= 1,
                -1 <= dy <= 1,
                1 <= d <= 8,
                buffer.wf(),
                start == old(buffer)@,
                start.len() + 7 <= MAX_MOVE_BUFFER_SIZE,
                buffer@.len() <= start.len() + d - 1,
                buffer@ + ray_moves(v, from@, dx as int, dy as int, d as int) == start + ray_moves(
                    v,
                    from@,
                    dx as int,
                    dy as int,
                    1,
                ),
            decreases 8 - d,
        {
            assert(-8 < dx * d < 8 && -8 < dy * d < 8) by (nonlinear_arith)
                requires
                    -1 <= dx <= 1,
                    -1 <= dy <= 1,
                    1 <= d < 8,
            ;
            let ghost cur = buffer@;
            match from.shift(dx * d, dy * d) {
                None => {
                    assert(buffer@ =~= start + ray_moves(v, from@, dx as int, dy as int, 1));
                    return;
                },
                Some(to) => {
                    let dest = board.piece(to);
                    if dest.dignity == Dignity::Empty {
                        buffer.add(Move::quiet(from, to));
                        assert(buffer@ + ray_moves(v, from@, dx as int, dy as int, d + 1) =~= cur
                            + ray_moves(v, from@, dx as int, dy as int, d as int));
                    } else {
                        if dest.color != board.side_to_move() {
                            buffer.add(Move::capture(from, to, dest.dignity));
                        }
                        assert(buffer@ =~= start + ray_moves(v, from@, dx as int, dy as int, 1));
                        return;
                    }
                },
            }
            d = d + 1;
        }
        assert(buffer@ =~= start + ray_moves(v, from@, dx as int, dy as int, 1));
    }

    /// The offsets of the `k`-th knight jump or king step.
    fn step_offset(knight: bool, k: u8) -> (r: (i8, i8))
        requires
            k < 8,
        ensures
            r.0 as int == (if knight { knight_offset(k as int) } else { king_offset(k as int) }).0,
            r.1 as int == (if knight { knight_offset(k as int) } else { king_offset(k as int) }).1,
    {
        if knight {
            if k == 0 {
                (-2, -1)
            } else if k == 1 {
                (-1, -2)
            } else if k == 2 {
                (-2, 1)
            } else if k == 3 {
                (-1, 2)
            } else if k == 4 {
                (2, -1)
            } else if k == 5 {
                (1, -2)
            } else if k == 6 {
                (2, 1)
            } else {
                (1, 2)
            }
        } else {
            if k == 0 {
                (-1, -1)
            } else if k == 1 {
                (-1, 0)
            } else if k == 2 {
                (-1, 1)
            } else if k == 3 {
                (0, -1)
            } else if k == 4 {
                (0, 1)
            } else if k == 5 {
                (1, -1)
            } else if k == 6 {
                (1, 0)
            } else {
                (1, 1)
            }
        }
    }

    /// Appends the eight jumps of a knight, or the eight steps of a king.
    fn add_steps(board: &Board, from: Square, knight: bool, buffer: &mut MoveBuffer)
        requires
            board.inv(),
            from.wf(),
            old(buffer).wf(),
            old(buffer)@.len() + 8 <= MAX_MOVE_BUFFER_SIZE,
        ensures
            final(buffer).wf(),
            final(buffer)@ == old(buffer)@ + steps_upto(board@, from@, knight, 8),
            final(buffer)@.len() <= old(buffer)@.len() + 8,
    {
        let mut k: u8 = 0;
        while k < 8
            invariant
                board.inv(),
                from.wf(),
                k <= 8,
                buffer.wf(),
                old(buffer)@.len() + 8 <= MAX_MOVE_BUFFER_SIZE,
                buffer@ == old(buffer)@ + steps_upto(board@, from@, knight, k as int),
                buffer@.len() <= old(buffer)@.len() + k,
            decreases 8 - k,
        {
            let (dx, dy) = Self::step_offset(knight, k);
            Self::add_step(board, from, dx, dy, buffer);
            assert(buffer@ =~= old(buffer)@ + steps_upto(board@, from@, knight, k + 1));
            k = k + 1;
        }
    }

    fn generate_for_knight(&self, from: Square, board: &Board, buffer: &mut MoveBuffer)
        requires
            board.inv(),
            from.wf(),
            old(buffer).wf(),
            old(buffer)@.len() + MAX_PIECE_MOVES <= MAX_MOVE_BUFFER_SIZE,
        ensures
            final(buffer).wf(),
            final(buffer)@ == old(buffer)@ + knight_moves(board@, from@),
            final(buffer)@.len() <= old(buffer)@.len() + MAX_PIECE_MOVES,
    {
        Self::add_steps(board, from, true, buffer);
    }

    fn generate_for_bishop(&self, from: Square, board: &Board, buffer: &mut MoveBuffer)
        requires
            board.inv(),
            from.wf(),
            old(buffer).wf(),
            old(buffer)@.len() + MAX_PIECE_MOVES <= MAX_MOVE_BUFFER_SIZE,
        ensures
            final(buffer).wf(),
            final(buffer)@ == old(buffer)@ + bishop_moves(board@, from@),
            final(buffer)@.len() <= old(buffer)@.len() + 28,
    {
        Self::add_ray(board, from, -1, -1, buffer);
        Self::add_ray(board, from, -1, 1, buffer);
        Self::add_ray(board, from, 1, -1, buffer);
        Self::add_ray(board, from, 1, 1, buffer);
        assert(buffer@ =~= old(buffer)@ + bishop_moves(board@, from@));
    }

    fn generate_for_rook(&self, from: Square, board: &Board, buffer: &mut MoveBuffer)
        requires
            board.inv(),
            from.wf(),
            old(buffer).wf(),
            old(buffer)@.len() + MAX_PIECE_MOVES <= MAX_MOVE_BUFFER_SIZE,
        ensures
            final(buffer).wf(),
            final(buffer)@ == old(buffer)@ + rook_moves(board@, from@),
            final(buffer)@.len() <= old(buffer)@.len() + 28,
    {
        Self::add_ray(board, from, 0, 1, buffer);
        Self::add_ray(board, from, 0, -1, buffer);
        Self::add_ray(board, from, 1, 0, buffer);
        Self::add_ray(board, from, -1, 0, buffer);
        assert(buffer@ =~= old(buffer)@ + rook_moves(board@, from@));
    }

    fn generate_for_queen(&self, from: Square, board: &Board, buffer: &mut MoveBuffer)
        requires
            board.inv(),
            from.wf(),
            old(buffer).wf(),
            old(buffer)@.len() + MAX_PIECE_MOVES <= MAX_MOVE_BUFFER_SIZE,
        ensures
            final(buffer).wf(),
            final(buffer)@ == old(buffer)@ + queen_moves(board@, from@),
            final(buffer)@.len() <= old(buffer)@.len() + MAX_PIECE_MOVES,
    {
        self.generate_for_bishop(from, board, buffer);
        let ghost mid = buffer@;
        Self::add_ray(board, from, 0, 1, buffer);
        Self::add_ray(board, from, 0, -1, buffer);
        Self::add_ray(board, from, 1, 0, buffer);
        Self::add_ray(board, from, -1, 0, buffer);
        assert(buffer@ =~= mid + rook_moves(board@, from@));
        assert(buffer@ =~= old(buffer)@ + queen_moves(board@, from@));
    }

    fn generate_king_castling(&self, board: &Board, buffer: &mut MoveBuffer)
        requires
            board.inv(),
            old(buffer).wf(),
            old(buffer)@.len() + 1 <= MAX_MOVE_BUFFER_SIZE,
        ensures
            final(buffer).wf(),
            final(buffer)@ == old(buffer)@ + king_side_castling_moves(board@),
            final(buffer)@.len() <= old(buffer)@.len() + 1,
    {
        let stm = board.side_to_move();
        let cr = CastlingRights::king_side(stm);
        let ok = board.castling_rights().is_allowed(cr) && board.piece(cr.king_destination())
            == Piece::empty() && board.piece(cr.rook_initial()) == Piece::new(stm, Dignity::Rook)
            && board.piece(cr.rook_destination()) == Piece::empty();
        if ok {
            buffer.add(Move::king_side_castling(Square::king_initial(stm), cr.king_destination()));
        }
        assert(buffer@ =~= old(buffer)@ + king_side_castling_moves(board@));
    }

    fn generate_queen_castling(&self, board: &Board, buffer: &mut MoveBuffer)
        requires
            board.inv(),
            old(buffer).wf(),
            old(buffer)@.len() + 1 <= MAX_MOVE_BUFFER_SIZE,
        ensures
            final(buffer).wf(),
            final(buffer)@ == old(buffer)@ + queen_side_castling_moves(board@),
            final(buffer)@.len() <= old(buffer)@.len() + 1,
    {
        let stm = board.side_to_move();
        let cr = CastlingRights::queen_side(stm);
        let rook_from = cr.rook_initial();
        let ok = board.castling_rights().is_allowed(cr) && board.piece(cr.king_destination())
            == Piece::empty() && board.piece(rook_from) == Piece::new(stm, Dignity::Rook)
            && board.piece(Square::from_index(rook_from.index() + 1)) == Piece::empty()
            && board.piece(cr.rook_destination()) == Piece::empty();
        if ok {
            buffer.add(Move::queen_side_castling(Square::king_initial(stm), cr.king_destination()));
        }
        assert(buffer@ =~= old(buffer)@ + queen_side_castling_moves(board@));
    }

    fn generate_for_king(&self, from: Square, board: &Board, buffer: &mut MoveBuffer)
        requires
            board.inv(),
            from.wf(),
            old(buffer).wf(),
            old(buffer)@.len() + MAX_PIECE_MOVES <= MAX_MOVE_BUFFER_SIZE,
        ensures
            final(buffer).wf(),
            final(buffer)@ == old(buffer)@ + king_moves(board@, from@),
            final(buffer)@.len() <= old(buffer)@.len() + 10,
    {
        Self::add_steps(board, from, false, buffer);
        let stm = board.side_to_move();
        if from == Square::king_initial(stm) {
            self.generate_king_castling(board, buffer);
            self.generate_queen_castling(board, buffer);
        }
        assert(buffer@ =~= old(buffer)@ + king_moves(board@, from@));
    }

    /// The row step of a pawn of `stm`: up for white, down for black.
    fn pawn_dy(stm: Color) -> (r: i8)
        ensures
            r == forward_dy(stm),
    {
        match stm {
            Color::White => 1,
            Color::Black => -1,
        }
    }

    fn generate_quiets_for_pawn(&self, from: Square, board: &Board, buffer: &mut MoveBuffer)
        requires
            board.inv(),
            from.wf(),
            old(buffer).wf(),
            old(buffer)@.len() + 2 <= MAX_MOVE_BUFFER_SIZE,
        ensures
            final(buffer).wf(),
            final(buffer)@ == old(buffer)@ + pawn_pushes(board@, from@),
            final(buffer)@.len() <= old(buffer)@.len() + 2,
    {
        let stm = board.side_to_move();
        if from.rank() == Rank::pawn_pre_promotion_rank(stm) {
            assert(buffer@ =~= old(buffer)@ + pawn_pushes(board@, from@));
            return;
        }
        let dy = Self::pawn_dy(stm);
        match from.shift(0, dy) {
            None => {},
            Some(to) => {
                if board.piece(to) == Piece::empty() {
                    buffer.add(Move::quiet(from, to));
                    match from.shift(0, 2 * dy) {
                        None => {},
                        Some(to2) => {
                            if board.piece(to2) == Piece::empty() && from.rank()
                                == Rank::pawn_double_rank(stm) {
                                buffer.add(Move::pawn_double(from, to2));
                            }
                        },
                    }
                }
            },
        }
        assert(buffer@ =~= old(buffer)@ + pawn_pushes(board@, from@));
    }

    fn generate_capture_for_pawn(
        &self,
        from: Square,
        direction: i8,
        board: &Board,
        buffer: &mut MoveBuffer,
    )
        requires
            board.inv(),
            from.wf(),
            direction == 1 || direction == -1,
            old(buffer).wf(),
            old(buffer)@.len() + 2 <= MAX_MOVE_BUFFER_SIZE,
        ensures
            final(buffer).wf(),
            final(buffer)@ == old(buffer)@ + pawn_captures(board@, from@, direction as int),
            final(buffer)@.len() <= old(buffer)@.len() + 2,
    {
        let stm = board.side_to_move();
        if from.rank() == Rank::pawn_pre_promotion_rank(stm) {
            assert(buffer@ =~= old(buffer)@ + pawn_captures(board@, from@, direction as int));
            return;
        }
        let dy = Self::pawn_dy(stm);
        match from.shift(direction, dy) {
            None => {},
            Some(to) => {
                let dest = board.piece(to);
                if dest.dignity != Dignity::Empty && dest.color != stm {
                    buffer.add(Move::capture(from, to, dest.dignity));
                }
                let ghost after_capture = buffer@;
                let ep = board.en_passant_file();
                if !ep.is_en_passant_none() {
                    let ep_to = Square::en_passant(stm, ep);
                    let opp = stm.swapped();
                    if ep_to == to && board.piece(ep_to) == Piece::empty() && board.piece(
                        ep_to.forward(opp, 1),
                    ) == Piece::new(opp, Dignity::Pawn) {
                        buffer.add(Move::en_passant(from, to));
                    }
                }
                assert(buffer@ =~= after_capture + (if en_passant_open(board@, to@) {
                    seq![crate::generation::en_passant_spec(from@, to@)]
                } else {
                    Seq::empty()
                }));
            },
        }
        assert(buffer@ =~= old(buffer)@ + pawn_captures(board@, from@, direction as int));
    }

    fn generate_promotions_for_pawn(&self, from: Square, board: &Board, buffer: &mut MoveBuffer)
        requires
            board.inv(),
            from.wf(),
            old(buffer).wf(),
            old(buffer)@.len() + 4 <= MAX_MOVE_BUFFER_SIZE,
        ensures
            final(buffer).wf(),
            final(buffer)@ == old(buffer)@ + pawn_promotions(board@, from@),
            final(buffer)@.len() <= old(buffer)@.len() + 4,
    {
        let stm = board.side_to_move();
        if from.rank() != Rank::pawn_pre_promotion_rank(stm) {
            assert(buffer@ =~= old(buffer)@ + pawn_promotions(board@, from@));
            return;
        }
        let dy = Self::pawn_dy(stm);
        match from.shift(0, dy) {
            None => {},
            Some(to) => {
                if board.piece(to) == Piece::empty() {
                    buffer.add(Move::promotion(from, to, Dignity::Knight));
                    buffer.add(Move::promotion(from, to, Dignity::Bishop));
                    buffer.add(Move::promotion(from, to, Dignity::Rook));
                    buffer.add(Move::promotion(from, to, Dignity::Queen));
                }
            },
        }
        assert(buffer@ =~= old(buffer)@ + pawn_promotions(board@, from@));
    }

    fn generate_promotion_captures_for_pawn(
        &self,
        from: Square,
        direction: i8,
        board: &Board,
        buffer: &mut MoveBuffer,
    )
        requires
            board.inv(),
            from.wf(),
            direction == 1 || direction == -1,
            old(buffer).wf(),
            old(buffer)@.len() + 4 <= MAX_MOVE_BUFFER_SIZE,
        ensures
            final(buffer).wf(),
            final(buffer)@ == old(buffer)@ + pawn_promotion_captures(
                board@,
                from@,
                direction as int,
            ),
            final(buffer)@.len() <= old(buffer)@.len() + 4,
    {
        let stm = board.side_to_move();
        if from.rank() != Rank::pawn_pre_promotion_rank(stm) {
            assert(buffer@ =~= old(buffer)@ + pawn_promotion_captures(
                board@,
                from@,
                direction as int,
            ));
            return;
        }
        let dy = Self::pawn_dy(stm);
        match from.shift(direction, dy) {
            None => {},
            Some(to) => {
                let dest = board.piece(to);
                if dest.dignity != Dignity::Empty && dest.color != stm {
                    let d = dest.dignity;
                    buffer.add(Move::promotion_capture(from, to, d, Dignity::Knight));
                    buffer.add(Move::promotion_capture(from, to, d, Dignity::Bishop));
                    buffer.add(Move::promotion_capture(from, to, d, Dignity::Rook));
                    buffer.add(Move::promotion_capture(from, to, d, Dignity::Queen));
                }
            },
        }
        assert(buffer@ =~= old(buffer)@ + pawn_promotion_captures(
            board@,
            from@,
            direction as int,
        ));
    }

    fn generate_for_pawn(&self, from: Square, board: &Board, buffer: &mut MoveBuffer)
        requires
            board.inv(),
            from.wf(),
            old(buffer).wf(),
            old(buffer)@.len() + MAX_PIECE_MOVES <= MAX_MOVE_BUFFER_SIZE,
        ensures
            final(buffer).wf(),
            final(buffer)@ == old(buffer)@ + pawn_moves(board@, from@),
            final(buffer)@.len() <= old(buffer)@.len() + 18,
    {
        self.generate_quiets_for_pawn(from, board, buffer);
        self.generate_capture_for_pawn(from, 1, board, buffer);
        self.generate_capture_for_pawn(from, -1, board, buffer);
        self.generate_promotions_for_pawn(from, board, buffer);
        self.generate_promotion_captures_for_pawn(from, 1, board, buffer);
        self.generate_promotion_captures_for_pawn(from, -1, board, buffer);
        assert(buffer@ =~= old(buffer)@ + pawn_moves(board@, from@));
    }

    /// Appends every pseudo-legal move of the side to move, square by square
    /// from a1 to h8.
    pub fn generate(&self, board: &Board, buffer: &mut MoveBuffer)
        requires
            board.inv(),
            old(buffer).wf(),
            old(buffer)@.len() + MAX_GENERATED_MOVES <= MAX_MOVE_BUFFER_SIZE,
        ensures
            final(buffer).wf(),
            final(buffer)@ == old(buffer)@ + pseudo_legal_moves(board@),
            final(buffer)@.len() <= old(buffer)@.len() + MAX_GENERATED_MOVES,
    {
        let mut i: u8 = 0;
        while i < 64
            invariant
                board.inv(),
                i <= 64,
                buffer.wf(),
                old(buffer)@.len() + MAX_GENERATED_MOVES <= MAX_MOVE_BUFFER_SIZE,
                buffer@ == old(buffer)@ + moves_upto(board@, i as int),
                buffer@.len() <= old(buffer)@.len() + MAX_PIECE_MOVES * i,
            decreases 64 - i,
        {
            let square = Square::from_index(i);
            let piece = board.piece(square);
            if piece.color == board.side_to_move() {
                match piece.dignity {
                    Dignity::Empty => {},
                    Dignity::Pawn => self.generate_for_pawn(square, board, buffer),
                    Dignity::Knight => self.generate_for_knight(square, board, buffer),
                    Dignity::Bishop => self.generate_for_bishop(square, board, buffer),
                    Dignity::Rook => self.generate_for_rook(square, board, buffer),
                    Dignity::Queen => self.generate_for_queen(square, board, buffer),
                    Dignity::King => self.generate_for_king(square, board, buffer),
                }
            }
            assert(buffer@ =~= old(buffer)@ + moves_upto(board@, i + 1));
            i = i + 1;
        }
        reveal(pseudo_legal_moves);
    }
}

} // verus!
