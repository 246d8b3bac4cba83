use vstd::prelude::*;

use crate::buffer::FenBuffer;
use crate::castling::{
    castling_text, lemma_castling_text_rights, lemma_rights_of_text_push, rights_of_text,
    CastlingRights,
};
use crate::text::{
    cells_text, diagram_text, footer_text, rank_line, rank_lines, lemma_record_injective, decimal, lemma_halfmove_text, digit, empty_run, en_passant_text, fen_text, fields_text, halfmove_text, lemma_empty_run,
    lemma_fen_text_head, lemma_rank_text_head, lemma_rank_text_len, lemma_ranks_text_len,
    lemma_ranks_text_tail, lemma_suffix_step, rank_text, ranks_tail, ranks_text, record_head,
};
use crate::color::Color;
use crate::castling::is_castling_letter;
use crate::piece::{is_piece_letter, Dignity, Piece};
use crate::rand::FastRng;
use crate::square::{File, Square, EN_PASSANT_NONE};
use crate::zobrist::{
    castling_key, en_passant_key, lemma_placement_empty, lemma_placement_update,
    piece_square_key, placement_key, side_key, zobrist, ZorbistKey,
};

verus! {

/// How many plies the undo stacks hold; the deepest search this board serves.
pub const UNDO_STACK_LENGTH: usize = 256;

/// A board that a position record can describe exactly: well formed, at
/// the root ply, with a halfmove clock of at most 999.
pub open spec fn is_root_board(b: BoardView) -> bool {
    b.wf() && b.ply == 0 && b.cur_halfmove() <= MAX_HALFMOVE_CLOCK
}

/// Whether `fen` starts with the canonical record of `b` up to its
/// fullmove counter.
pub open spec fn describes(fen: Seq<u8>, b: BoardView) -> bool {
    is_root_board(b) && record_head(b).len() <= fen.len() && fen.subrange(0, record_head(b).len() as int)
        == record_head(b)
}

/// The shortest and longest position records read.
pub const MIN_FEN_SIZE: usize = 24;
pub const MAX_FEN_SIZE: usize = 90;

/// The largest halfmove clock a position record may carry.
pub const MAX_HALFMOVE_CLOCK: u16 = 999;

/// The state of a board as a mathematical value: the mailbox, the side to
/// move, and the reversible state of every ply from the root to the current one.
pub struct BoardView {
    pub squares: Seq<Piece>,
    pub side: Color,
    pub ply: nat,
    pub castling: Seq<u8>,
    pub en_passant: Seq<u8>,
    pub halfmove: Seq<u16>,
}

impl BoardView {
    pub open spec fn wf(self) -> bool {
        &&& self.squares.len() == 64
        &&& forall|i: int| 0 <= i < 64 ==> #[trigger] self.squares[i].wf()
        &&& self.ply < UNDO_STACK_LENGTH
        &&& self.castling.len() == self.ply + 1
        &&& self.en_passant.len() == self.ply + 1
        &&& self.halfmove.len() == self.ply + 1
        &&& forall|i: int| 0 <= i <= self.ply ==> #[trigger] self.castling[i] < 16
        &&& forall|i: int|
            0 <= i <= self.ply ==> (#[trigger] self.en_passant[i] < 8 || self.en_passant[i]
                == EN_PASSANT_NONE)
        &&& forall|i: int| 0 <= i <= self.ply ==> #[trigger] self.halfmove[i] <= 999 + i
    }

    pub open spec fn cur_castling(self) -> u8 {
        self.castling[self.ply as int]
    }

    pub open spec fn cur_en_passant(self) -> u8 {
        self.en_passant[self.ply as int]
    }

    pub open spec fn cur_halfmove(self) -> u16 {
        self.halfmove[self.ply as int]
    }

    /// The full key of the position: placement, side to move, en-passant
    /// file and castling rights.
    pub open spec fn hash_spec(self) -> u64 {
        placement_key(self.squares, 64) ^ (if self.side == Color::Black {
            side_key()
        } else {
            0
        }) ^ en_passant_key(self.cur_en_passant()) ^ castling_key(self.cur_castling())
    }

    pub open spec fn with_square(self, at: int, p: Piece) -> BoardView {
        BoardView { squares: self.squares.update(at, p), ..self }
    }

    pub open spec fn with_placement(self, squares: Seq<Piece>) -> BoardView {
        BoardView { squares, ..self }
    }

    pub open spec fn with_side(self, side: Color) -> BoardView {
        BoardView { side, ..self }
    }

    /// The current ply's reversible state replaced by the given values.
    pub open spec fn with_current(self, castling: u8, en_passant: u8, halfmove: u16) -> BoardView {
        BoardView {
            castling: self.castling.update(self.ply as int, castling),
            en_passant: self.en_passant.update(self.ply as int, en_passant),
            halfmove: self.halfmove.update(self.ply as int, halfmove),
            ..self
        }
    }

    /// A new ply whose castling rights and halfmove clock are those of the
    /// current one, with no en-passant file open.
    pub open spec fn pushed(self) -> BoardView {
        BoardView {
            ply: self.ply + 1,
            castling: self.castling.push(self.cur_castling()),
            en_passant: self.en_passant.push(EN_PASSANT_NONE),
            halfmove: self.halfmove.push(self.cur_halfmove()),
            ..self
        }
    }

    /// The current ply dropped.
    pub open spec fn popped(self) -> BoardView {
        BoardView {
            ply: (self.ply - 1) as nat,
            castling: self.castling.drop_last(),
            en_passant: self.en_passant.drop_last(),
            halfmove: self.halfmove.drop_last(),
            ..self
        }
    }

    /// The board with no piece, white to move, no rights and no en-passant file.
    pub open spec fn empty_spec() -> BoardView {
        BoardView {
            squares: Seq::new(64, |i: int| Piece::empty_spec()),
            side: Color::White,
            ply: 0,
            castling: seq![0u8],
            en_passant: seq![EN_PASSANT_NONE],
            halfmove: seq![0u16],
        }
    }
}

/// A mailbox board: one piece per square, the side to move, undo stacks for
/// the castling rights, en-passant file and halfmove clock of each ply, and an
/// incrementally kept key of the placement.
#[derive(Clone, Copy, Debug, PartialEq)]
pub struct Board {
    squares: [Piece; 64],
    side_to_move: Color,
    ply: usize,
    castling_rights: [CastlingRights; 256],
    en_passant_file: [File; 256],
    halfmove_clock: [u16; 256],
    hash_key: ZorbistKey,
}

impl Board {
    pub closed spec fn view(&self) -> BoardView {
        BoardView {
            squares: self.squares@,
            side: self.side_to_move,
            ply: self.ply as nat,
            castling: Seq::new((self.ply + 1) as nat, |i: int| self.castling_rights@[i].0),
            en_passant: Seq::new((self.ply + 1) as nat, |i: int| self.en_passant_file@[i].0),
            halfmove: Seq::new((self.ply + 1) as nat, |i: int| self.halfmove_clock@[i]),
        }
    }

    /// The kept key is the key of the placement.
    pub closed spec fn keyed(&self) -> bool {
        self.hash_key.0 == placement_key(self.squares@, 64)
    }

    pub open spec fn inv(&self) -> bool {
        self@.wf() && self.keyed()
    }

    pub fn empty() -> (r: Board)
        ensures
            r.inv(),
            r@ == BoardView::empty_spec(),
            r@.hash_spec() == 0,
    {
        let e = Piece::empty();
        let squares = [e; 64];
        let none = File::en_passant_none();
        let result = Board {
            squares,
            side_to_move: Color::White,
            ply: 0,
            castling_rights: [CastlingRights::none(); 256],
            en_passant_file: [none; 256],
            halfmove_clock: [0u16; 256],
            hash_key: ZorbistKey::new(),
        };
        proof {
            lemma_placement_empty(result.squares@, 64);
            crate::zobrist::lemma_xor_facts(0, 0, 0);
            assert(result@.squares =~= BoardView::empty_spec().squares);
            assert(result@.castling =~= BoardView::empty_spec().castling);
            assert(result@.en_passant =~= BoardView::empty_spec().en_passant);
            assert(result@.halfmove =~= BoardView::empty_spec().halfmove);
        }
        result
    }

    /// Reads a position record: placement, active color, castling rights,
    /// en-passant target and halfmove clock. The fullmove counter is not read.
    /// A record that starts with the canonical record of a board, up to its
    /// fullmove counter, reads as that board.
    pub fn from_fen(fen: &[u8]) -> (r: Board)
        requires
            MIN_FEN_SIZE <= fen@.len() <= MAX_FEN_SIZE,
        ensures
            r.inv(),
            r@.ply == 0,
            r@.cur_halfmove() <= MAX_HALFMOVE_CLOCK,
            forall|b: BoardView| describes(fen@, b) ==> r@ == b,
    {
        let ghost has = exists|b: BoardView| describes(fen@, b);
        let ghost b = if has {
            choose|b: BoardView| describes(fen@, b)
        } else {
            BoardView::empty_spec()
        };
        let ghost q: int = record_head(b).len() as int;
        proof {
            if has {
                lemma_describes_parts(fen@, b);
            }
        }
        let mut result = Board::empty();
        let i = Self::parse_placement(fen, &mut result, Ghost(has), Ghost(b.squares));
        let (side, rights, ep, hmc) = parse_fields(fen, i, Ghost(has), Ghost(b), Ghost(q));
        // The fullmove counter is not kept.
        result.set_root_state(side, rights, ep, hmc);
        proof {
            if has {
                lemma_root_board_eq(result@, b);
                assert forall|b2: BoardView| describes(fen@, b2) implies result@ == b2 by {
                    lemma_describes_unique(fen@, b, b2);
                }
            }
        }
        result
    }

    /// Reads the placement field and the space after it onto the empty
    /// board `result`. Where the record starts with the placement of `bs`,
    /// the board gets exactly that placement and the index after the space
    /// is returned.
    fn parse_placement(fen: &[u8], result: &mut Board, Ghost(has): Ghost<bool>, Ghost(bs): Ghost<
        Seq<Piece>,
    >) -> (i: usize)
        requires
            old(result).inv(),
            old(result)@ == BoardView::empty_spec(),
            fen@.len() <= MAX_FEN_SIZE,
            has ==> bs.len() == 64 && (forall|j: int| 0 <= j < 64 ==> (#[trigger] bs[j]).wf())
                && ranks_text(bs, 8).len() + 1 <= fen@.len() && fen@.subrange(
                0,
                ranks_text(bs, 8).len() + 1 as int,
            ) == ranks_text(bs, 8) + seq![32u8],
        ensures
            final(result).inv(),
            final(result)@ == BoardView::empty_spec().with_placement(final(result)@.squares),
            i <= fen@.len(),
            has ==> final(result)@.squares == bs && i == ranks_text(bs, 8).len() + 1,
    {
        let ghost p: int = ranks_text(bs, 8).len() as int + 1;
        let len = fen.len();
        let mut i: usize = 0;
        let mut n: u8 = 0;
        proof {
            if has {
                lemma_ranks_text_tail(bs, 8);
            }
        }
        while n < 8
            invariant
                result.inv(),
                result@ == BoardView::empty_spec().with_placement(result@.squares),
                n <= 8,
                i <= len,
                len == fen@.len(),
                len <= MAX_FEN_SIZE,
                has ==> bs.len() == 64 && (forall|j: int| 0 <= j < 64 ==> (#[trigger] bs[j]).wf())
                    && p <= len,
                has && n < 8 ==> i <= p && fen@.subrange(i as int, p) == ranks_tail(bs, n as int, 8)
                    + seq![32u8],
                has && n == 8 ==> i == p,
                has ==> forall|j: int|
                    0 <= j < 64 ==> #[trigger] result@.squares[j] == (if j / 8 > 7 - n {
                        bs[j]
                    } else {
                        Piece::empty_spec()
                    }),
            decreases 8 - n,
        {
            let y: u8 = 7 - n;
            let ghost sep: Seq<u8> = if n + 1 < 8 {
                seq![47u8]
            } else {
                Seq::empty()
            };
            let ghost tail = sep + ranks_tail(bs, n + 1, 8) + seq![32u8];
            proof {
                if has {
                    assert(ranks_tail(bs, n as int, 8) + seq![32u8] =~= rank_text(bs, y as int, 0, 0)
                        + tail);
                }
            }
            let mut x: u8 = 0;
            while x < 8 && i < len
                invariant
                    result.inv(),
                    result@ == BoardView::empty_spec().with_placement(result@.squares),
                    n < 8,
                    y == 7 - n,
                    x <= 8,
                    i <= len,
                    len == fen@.len(),
                    len <= MAX_FEN_SIZE,
                    has ==> bs.len() == 64 && (forall|j: int|
                        0 <= j < 64 ==> (#[trigger] bs[j]).wf()) && p <= len,
                    has ==> i <= p && fen@.subrange(i as int, p) == rank_text(
                        bs,
                        y as int,
                        x as int,
                        0,
                    ) + tail,
                    has ==> forall|j: int|
                        0 <= j < 64 ==> #[trigger] result@.squares[j] == (if j / 8 > y || (j / 8 == y
                            && j % 8 < x) {
                            bs[j]
                        } else {
                            Piece::empty_spec()
                        }),
                decreases 8 - x,
            {
                let c = fen[i];
                let ghost at = 8 * y + x;
                let ghost x0 = x as int;
                proof {
                    if has {
                        lemma_rank_text_head(bs, y as int, x as int);
                        lemma_empty_run(bs, y as int, x as int);
                        if bs[at].is_empty() {
                            let k = empty_run(bs, y as int, x as int);
                            assert(fen@.subrange(i as int, p) == seq![digit(k)] + (rank_text(
                                bs,
                                y as int,
                                x + k,
                                0,
                            ) + tail));
                            lemma_suffix_step(
                                fen@,
                                i as int,
                                p,
                                digit(k),
                                rank_text(bs, y as int, x + k, 0) + tail,
                            );
                        } else {
                            crate::piece::lemma_letter_injective(bs[at], bs[at]);
                            assert(fen@.subrange(i as int, p) == seq![bs[at].letter_spec()] + (
                            rank_text(bs, y as int, x + 1, 0) + tail));
                            lemma_suffix_step(
                                fen@,
                                i as int,
                                p,
                                bs[at].letter_spec(),
                                rank_text(bs, y as int, x + 1, 0) + tail,
                            );
                        }
                    }
                }
                if 49u8 <= c && c <= 56u8 {
                    x = if x + (c - 48u8) > 8 {
                        8
                    } else {
                        x + (c - 48u8)
                    };
                } else if is_piece_letter_exec(c) {
                    let piece = Piece::from_fen(c);
                    proof {
                        if has {
                            crate::piece::lemma_letter_injective(piece, bs[at]);
                        }
                    }
                    result.set_piece_unchecked(Square::from_x_y(x, y), piece);
                    x = x + 1;
                } else {
                    x = 8;
                }
                i = i + 1;
                proof {
                    if has {
                        assert forall|j: int| 0 <= j < 64 implies #[trigger] result@.squares[j] == (if j
                            / 8 > y || (j / 8 == y && j % 8 < x) {
                            bs[j]
                        } else {
                            Piece::empty_spec()
                        }) by {
                            assert(bs[j].wf());
                            if j / 8 == y && x0 <= j % 8 < x {
                                let jj = j % 8;
                                assert(j == 8 * y + jj);
                                if bs[at].is_empty() {
                                    assert(bs[8 * y + jj].is_empty());
                                } else {
                                    assert(jj == x0);
                                }
                            }
                        }
                    }
                }
            }
            proof {
                if has {
                    if x < 8 {
                        lemma_rank_text_head(bs, y as int, x as int);
                        lemma_suffix_step(
                            fen@,
                            i as int,
                            p,
                            fen@[i as int],
                            fen@.subrange(i + 1, p),
                        );
                    }
                    assert(x == 8);
                    assert(rank_text(bs, y as int, 8, 0) == Seq::<u8>::empty());
                    assert(fen@.subrange(i as int, p) =~= tail);
                    if n + 1 < 8 {
                        assert(tail =~= seq![47u8] + (ranks_tail(bs, n + 1, 8) + seq![32u8]));
                        lemma_suffix_step(
                            fen@,
                            i as int,
                            p,
                            47u8,
                            ranks_tail(bs, n + 1, 8) + seq![32u8],
                        );
                    } else {
                        assert(ranks_tail(bs, 8, 8) == Seq::<u8>::empty());
                        assert(tail =~= seq![32u8] + Seq::<u8>::empty());
                        lemma_suffix_step(fen@, i as int, p, 32u8, Seq::<u8>::empty());
                        assert(fen@.subrange(i + 1, p).len() == 0);
                    }
                }
            }
            if i < len {
                i = i + 1;
            }
            n = n + 1;
        }
        proof {
            if has {
                assert(result@.squares =~= bs);
            }
        }
        i
    }

    /// Sets the side to move and the reversible state of the root ply.
    fn set_root_state(&mut self, side: Color, rights: CastlingRights, ep: File, hmc: u16)
        requires
            old(self).inv(),
            old(self)@.ply == 0,
            rights.wf(),
            ep.wf_or_none(),
            hmc <= MAX_HALFMOVE_CLOCK,
        ensures
            final(self).inv(),
            final(self)@ == old(self)@.with_side(side).with_current(rights@, ep@ as u8, hmc),
    {
        self.side_to_move = side;
        self.castling_rights[0] = rights;
        self.en_passant_file[0] = ep;
        self.halfmove_clock[0] = hmc;
        proof {
            let w = old(self)@.with_side(side).with_current(rights@, ep@ as u8, hmc);
            assert(self@.castling =~= w.castling);
            assert(self@.en_passant =~= w.en_passant);
            assert(self@.halfmove =~= w.halfmove);
        }
    }

    /// The first square, in index order, that holds `piece`.
    pub fn find_piece(&self, piece: Piece) -> (r: Option<Square>)
        requires
            self.inv(),
        ensures
            r matches Some(s) ==> s.wf() && self@.squares[s@] == piece && forall|j: int|
                0 <= j < s@ ==> self@.squares[j] != piece,
            r.is_none() ==> forall|j: int| 0 <= j < 64 ==> self@.squares[j] != piece,
    {
        let mut i: u8 = 0;
        while i < 64
            invariant
                i <= 64,
                self.inv(),
                forall|j: int| 0 <= j < i ==> self@.squares[j] != piece,
            decreases 64 - i,
        {
            let square = Square::from_index(i);
            if self.piece(square) == piece {
                return Some(square);
            }
            i = i + 1;
        }
        None
    }

    /// The square of the king of `side`, the first one if there are several.
    pub fn find_king(&self, side: Color) -> (r: Option<Square>)
        requires
            self.inv(),
        ensures
            r matches Some(s) ==> s.wf() && self@.squares[s@] == Piece::new_spec(side, Dignity::King)
                && forall|j: int| 0 <= j < s@ ==> self@.squares[j] != Piece::new_spec(side, Dignity::King),
            r.is_none() ==> forall|j: int|
                0 <= j < 64 ==> self@.squares[j] != Piece::new_spec(side, Dignity::King),
    {
        self.find_piece(Piece::new(side, Dignity::King))
    }

    pub fn piece(&self, at: Square) -> (r: Piece)
        requires
            self.inv(),
            at.wf(),
        ensures
            r == self@.squares[at@],
            r.wf(),
    {
        self.squares[at.0 as usize]
    }

    /// The mailbox: the piece on each square, a1 first.
    pub fn placement(&self) -> (r: [Piece; 64])
        ensures
            r@ == self@.squares,
    {
        self.squares
    }

    pub fn side_to_move(&self) -> (r: Color)
        ensures
            r == self@.side,
    {
        self.side_to_move
    }

    pub fn castling_rights(&self) -> (r: CastlingRights)
        requires
            self.inv(),
        ensures
            r@ == self@.cur_castling(),
            r.wf(),
    {
        proof {
            assert(self@.castling[self@.ply as int] < 16);
        }
        self.castling_rights[self.ply]
    }

    pub fn en_passant_file(&self) -> (r: File)
        requires
            self.inv(),
        ensures
            r@ == self@.cur_en_passant(),
            r.wf_or_none(),
    {
        proof {
            assert(self@.en_passant[self@.ply as int] < 8 || self@.en_passant[self@.ply as int]
                == EN_PASSANT_NONE);
        }
        self.en_passant_file[self.ply]
    }

    pub fn halfmove_clock(&self) -> (r: u16)
        requires
            self.inv(),
        ensures
            r == self@.cur_halfmove(),
    {
        self.halfmove_clock[self.ply]
    }

    pub fn ply(&self) -> (r: usize)
        ensures
            r == self@.ply,
    {
        self.ply
    }

    /// Puts `piece` on the vacant square `at`.
    pub fn set_piece(&mut self, at: Square, piece: Piece)
        requires
            old(self).inv(),
            at.wf(),
            piece.wf(),
            !piece.is_empty(),
            old(self)@.squares[at@].is_empty(),
        ensures
            final(self).inv(),
            final(self)@ == old(self)@.with_square(at@, piece),
    {
        self.set_piece_unchecked(at, piece);
    }

    /// Puts `piece` on `at`, replacing whatever stood there.
    pub fn set_piece_unchecked(&mut self, at: Square, piece: Piece)
        requires
            old(self).inv(),
            at.wf(),
            piece.wf(),
            !piece.is_empty(),
        ensures
            final(self).inv(),
            final(self)@ == old(self)@.with_square(at@, piece),
    {
        let i = at.0 as usize;
        let previous = self.squares[i];
        let change = piece_square_key(previous, at.0) ^ piece_square_key(piece, at.0);
        proof {
            lemma_placement_update(self.squares@, i as int, piece, 64);
        }
        self.hash_key.mut_xor(change);
        self.squares[i] = piece;
        proof {
            assert(self@.squares =~= old(self)@.squares.update(at@, piece));
            assert(self@.castling =~= old(self)@.castling);
            assert(self@.en_passant =~= old(self)@.en_passant);
            assert(self@.halfmove =~= old(self)@.halfmove);
        }
    }

    /// Takes the piece off the occupied square `at`.
    pub fn remove_piece(&mut self, at: Square)
        requires
            old(self).inv(),
            at.wf(),
            !old(self)@.squares[at@].is_empty(),
        ensures
            final(self).inv(),
            final(self)@ == old(self)@.with_square(at@, Piece::empty_spec()),
    {
        let i = at.0 as usize;
        let previous = self.squares[i];
        let e = Piece::empty();
        let change = piece_square_key(previous, at.0) ^ piece_square_key(e, at.0);
        proof {
            lemma_placement_update(self.squares@, i as int, e, 64);
        }
        self.hash_key.mut_xor(change);
        self.squares[i] = e;
        proof {
            assert(self@.squares =~= old(self)@.squares.update(at@, e));
            assert(self@.castling =~= old(self)@.castling);
            assert(self@.en_passant =~= old(self)@.en_passant);
            assert(self@.halfmove =~= old(self)@.halfmove);
        }
    }

    pub fn swap_side_to_move(&mut self)
        requires
            old(self).inv(),
        ensures
            final(self).inv(),
            final(self)@ == old(self)@.with_side(old(self)@.side.swapped_spec()),
    {
        self.side_to_move.swap();
        proof {
            assert(self@.castling =~= old(self)@.castling);
            assert(self@.en_passant =~= old(self)@.en_passant);
            assert(self@.halfmove =~= old(self)@.halfmove);
        }
    }

    /// Opens the next ply: the castling rights and halfmove clock carry over,
    /// the en-passant file does not.
    pub fn push_undo(&mut self)
        requires
            old(self).inv(),
            old(self)@.ply + 1 < UNDO_STACK_LENGTH,
        ensures
            final(self).inv(),
            final(self)@ == old(self)@.pushed(),
    {
        let prev = self.ply;
        self.ply = self.ply + 1;
        self.castling_rights[self.ply] = self.castling_rights[prev];
        self.halfmove_clock[self.ply] = self.halfmove_clock[prev];
        self.en_passant_file[self.ply] = File::en_passant_none();
        proof {
            assert(self@.castling =~= old(self)@.pushed().castling);
            assert(self@.en_passant =~= old(self)@.pushed().en_passant);
            assert(self@.halfmove =~= old(self)@.pushed().halfmove);
        }
    }

    /// Returns to the previous ply.
    pub fn pop_undo(&mut self)
        requires
            old(self).inv(),
            old(self)@.ply > 0,
        ensures
            final(self).inv(),
            final(self)@ == old(self)@.popped(),
    {
        self.ply = self.ply - 1;
        proof {
            assert(self@.castling =~= old(self)@.popped().castling);
            assert(self@.en_passant =~= old(self)@.popped().en_passant);
            assert(self@.halfmove =~= old(self)@.popped().halfmove);
        }
    }

    pub fn disallow_castling(&mut self, rights: CastlingRights)
        requires
            old(self).inv(),
            rights.wf(),
        ensures
            final(self).inv(),
            final(self)@ == old(self)@.with_current(
                old(self)@.cur_castling() & !rights@,
                old(self)@.cur_en_passant(),
                old(self)@.cur_halfmove(),
            ),
    {
        let p = self.ply;
        let mut c = self.castling_rights[p];
        c.disallow(rights);
        self.castling_rights[p] = c;
        proof {
            let w = old(self)@.with_current(
                old(self)@.cur_castling() & !rights@,
                old(self)@.cur_en_passant(),
                old(self)@.cur_halfmove(),
            );
            assert(self@.castling =~= w.castling);
            assert(self@.en_passant =~= w.en_passant);
            assert(self@.halfmove =~= w.halfmove);
        }
    }

    pub fn set_en_passant_file(&mut self, file: File)
        requires
            old(self).inv(),
            file.wf_or_none(),
        ensures
            final(self).inv(),
            final(self)@ == old(self)@.with_current(
                old(self)@.cur_castling(),
                file@ as u8,
                old(self)@.cur_halfmove(),
            ),
    {
        let p = self.ply;
        self.en_passant_file[p] = file;
        proof {
            let w = old(self)@.with_current(
                old(self)@.cur_castling(),
                file@ as u8,
                old(self)@.cur_halfmove(),
            );
            assert(self@.castling =~= w.castling);
            assert(self@.en_passant =~= w.en_passant);
            assert(self@.halfmove =~= w.halfmove);
        }
    }

    pub fn unset_en_passant_file(&mut self)
        requires
            old(self).inv(),
        ensures
            final(self).inv(),
            final(self)@ == old(self)@.with_current(
                old(self)@.cur_castling(),
                EN_PASSANT_NONE,
                old(self)@.cur_halfmove(),
            ),
    {
        self.set_en_passant_file(File::en_passant_none());
    }

    pub fn reset_halfmove_clock(&mut self)
        requires
            old(self).inv(),
        ensures
            final(self).inv(),
            final(self)@ == old(self)@.with_current(
                old(self)@.cur_castling(),
                old(self)@.cur_en_passant(),
                0,
            ),
    {
        let p = self.ply;
        self.halfmove_clock[p] = 0;
        proof {
            let w = old(self)@.with_current(old(self)@.cur_castling(), old(self)@.cur_en_passant(), 0);
            assert(self@.castling =~= w.castling);
            assert(self@.en_passant =~= w.en_passant);
            assert(self@.halfmove =~= w.halfmove);
        }
    }

    pub fn increase_halfmove_clock(&mut self)
        requires
            old(self).inv(),
            old(self)@.cur_halfmove() < 999 + old(self)@.ply,
        ensures
            final(self).inv(),
            final(self)@ == old(self)@.with_current(
                old(self)@.cur_castling(),
                old(self)@.cur_en_passant(),
                (old(self)@.cur_halfmove() + 1) as u16,
            ),
    {
        let p = self.ply;
        self.halfmove_clock[p] = self.halfmove_clock[p] + 1;
        proof {
            let w = old(self)@.with_current(
                old(self)@.cur_castling(),
                old(self)@.cur_en_passant(),
                (old(self)@.cur_halfmove() + 1) as u16,
            );
            assert(self@.castling =~= w.castling);
            assert(self@.en_passant =~= w.en_passant);
            assert(self@.halfmove =~= w.halfmove);
        }
    }

    /// The full Zobrist key of the position.
    pub fn hash(&self) -> (r: ZorbistKey)
        requires
            self.inv(),
        ensures
            r.0 == self@.hash_spec(),
    {
        let stm_hash: u64 = if self.side_to_move == Color::Black {
            zobrist(1024)
        } else {
            0
        };
        let ep = self.en_passant_file[self.ply].0;
        let ep_hash: u64 = if ep < 8 {
            zobrist(1025 + ep as u64)
        } else {
            0
        };
        let cs = self.castling_rights[self.ply].0;
        let cs_hash: u64 = if cs == 0 {
            0
        } else {
            zobrist(1040 + cs as u64)
        };
        self.hash_key.xor(stm_hash).xor(ep_hash).xor(cs_hash)
    }

    /// Writes rank `y` of the placement field.
    fn write_rank(&self, y: u8, buffer: &mut FenBuffer)
        requires
            self.inv(),
            y < 8,
            old(buffer).wf(),
            old(buffer)@.len() <= 2 + 9 * (7 - y),
        ensures
            final(buffer).wf(),
            final(buffer)@ == old(buffer)@ + rank_text(self@.squares, y as int, 0, 0),
            final(buffer)@.len() <= old(buffer)@.len() + 8,
    {
        proof {
            lemma_rank_text_len(self@.squares, y as int, 0, 0);
        }
        let ghost s = self@.squares;
        let ghost before = buffer@;
        let mut x: u8 = 0;
        let mut e: u8 = 0;
        while x < 8
            invariant
                self.inv(),
                s == self@.squares,
                y < 8,
                x <= 8,
                e <= x,
                buffer.wf(),
                before.len() <= 2 + 9 * (7 - y),
                buffer@.len() + e <= before.len() + x,
                buffer@ + rank_text(s, y as int, x as int, e as int) == before + rank_text(
                    s,
                    y as int,
                    0,
                    0,
                ),
            decreases 8 - x,
        {
            let p = self.piece(Square::from_x_y(x, y));
            let ghost cur = buffer@;
            if p.dignity == Dignity::Empty {
                e = e + 1;
            } else {
                if e != 0 {
                    buffer.add(48u8 + e);
                }
                let ghost mid = buffer@;
                buffer.add(p.fen());
                proof {
                    let rest = rank_text(s, y as int, x + 1, 0);
                    let d = if e > 0 {
                        seq![digit(e as int)]
                    } else {
                        Seq::<u8>::empty()
                    };
                    assert(mid =~= cur + d);
                    assert(buffer@ + rest =~= cur + (d + seq![p.letter_spec()] + rest));
                }
                e = 0;
            }
            x = x + 1;
        }
        let ghost cur = buffer@;
        if e != 0 {
            buffer.add(48u8 + e);
        }
        proof {
            assert(buffer@ =~= cur + rank_text(s, y as int, 8, e as int));
        }
    }

    /// Writes the placement field: the ranks from 8 down to 1, separated by `/`.
    fn write_placement(&self, buffer: &mut FenBuffer)
        requires
            self.inv(),
            old(buffer).wf(),
            old(buffer)@.len() <= 2,
        ensures
            final(buffer).wf(),
            final(buffer)@ == old(buffer)@ + ranks_text(self@.squares, 8),
            final(buffer)@.len() <= old(buffer)@.len() + 72,
    {
        let ghost s = self@.squares;
        let ghost start = buffer@;
        let mut y: u8 = 8;
        proof {
            assert(buffer@ =~= start + ranks_text(s, 0));
        }
        while y > 0
            invariant
                self.inv(),
                s == self@.squares,
                y <= 8,
                buffer.wf(),
                start.len() <= 2,
                buffer@ == start + ranks_text(s, 8 - y),
            decreases y,
        {
            y = y - 1;
            proof {
                lemma_ranks_text_len(s, 7 - y);
            }
            self.write_rank(y, buffer);
            if y != 0 {
                buffer.add(47u8);
            }
            proof {
                assert(buffer@ =~= start + ranks_text(s, 8 - y));
            }
        }
        proof {
            lemma_ranks_text_len(s, 8);
        }
    }

    /// Writes the en-passant field.
    fn write_en_passant(&self, buffer: &mut FenBuffer)
        requires
            self.inv(),
            old(buffer).wf(),
            old(buffer)@.len() + 2 <= 90,
        ensures
            final(buffer).wf(),
            final(buffer)@ == old(buffer)@ + en_passant_text(self@),
    {
        let ep = self.en_passant_file();
        if ep.is_en_passant_none() {
            buffer.add(45u8);
        } else {
            let rank: u8 = if self.side_to_move == Color::White {
                54u8
            } else {
                51u8
            };
            buffer.add(ep.fen());
            buffer.add(rank);
        }
        assert(buffer@ =~= old(buffer)@ + en_passant_text(self@));
    }

    /// Writes the position record of the board in canonical form.
    pub fn fen(&self, buffer: &mut FenBuffer)
        requires
            self.inv(),
            self@.cur_halfmove() <= MAX_HALFMOVE_CLOCK,
            old(buffer).wf(),
            old(buffer)@.len() <= 2,
        ensures
            final(buffer).wf(),
            final(buffer)@ == old(buffer)@ + fen_text(self@),
    {
        let ghost start = buffer@;
        self.write_placement(buffer);
        let ghost placed = buffer@;
        buffer.add(32u8);
        buffer.add(self.side_to_move.fen());
        buffer.add(32u8);
        let ghost head = buffer@;
        self.castling_rights().fen(buffer);
        let ghost castled = buffer@;
        buffer.add(32u8);
        self.write_en_passant(buffer);
        let ghost passed = buffer@;
        buffer.add(32u8);
        write_halfmove(self.halfmove_clock(), buffer);
        let ghost clocked = buffer@;
        assert(clocked =~= passed + seq![32u8] + halfmove_text(self@.cur_halfmove() as int));
        buffer.add(32u8);
        buffer.add(49u8);
        proof {
            let v = self@;
            let side = if v.side == Color::White { 119u8 } else { 98u8 };
            assert(head =~= placed + seq![32u8, side, 32u8]);
            assert(passed =~= castled + seq![32u8] + en_passant_text(v));
            assert(buffer@ =~= clocked + seq![32u8, 49u8]);
            lemma_record_parts(v, start, placed, head, castled, passed, clocked, buffer@);
        }
    }

    /// Whether no pawn stands on rank 1 or rank 8.
    pub fn has_possible_pawn_structure(&self) -> (r: bool)
        requires
            self.inv(),
        ensures
            r == (forall|j: int|
                0 <= j < 64 && (#[trigger] self@.squares[j]).dignity == Dignity::Pawn ==> 8 <= j
                    < 56),
    {
        let mut i: u8 = 0;
        while i < 64
            invariant
                i <= 64,
                self.inv(),
                forall|j: int|
                    0 <= j < i && (#[trigger] self@.squares[j]).dignity == Dignity::Pawn ==> 8 <= j
                        < 56,
            decreases 64 - i,
        {
            let piece = self.piece(Square::from_index(i));
            if piece.dignity == Dignity::Pawn && (i < 8 || i >= 56) {
                return false;
            }
            i = i + 1;
        }
        true
    }

    /// Whether an open en-passant file is backed by the position: its target
    /// square is vacant and an enemy pawn stands just in front of it.
    pub open spec fn en_passant_possible(v: BoardView) -> bool {
        let f = v.cur_en_passant() as int;
        let target = f + (if v.side == Color::White { 40int } else { 16int });
        let victim = f + (if v.side == Color::White { 32int } else { 24int });
        f >= 8 || (v.squares[target].is_empty() && v.squares[victim] == Piece::new_spec(
            v.side.swapped_spec(),
            Dignity::Pawn,
        ))
    }

    pub fn has_possible_en_passant_square(&self) -> (r: bool)
        requires
            self.inv(),
        ensures
            r == Board::en_passant_possible(self@),
    {
        let file = self.en_passant_file();
        if file.is_en_passant_none() {
            return true;
        }
        let ep_square = Square::en_passant(self.side_to_move, file);
        if self.piece(ep_square) != Piece::empty() {
            return false;
        }
        let opp_color = self.side_to_move.swapped();
        let ep_victim = ep_square.forward(opp_color, 1);
        if self.piece(ep_victim) != Piece::new(opp_color, Dignity::Pawn) {
            return false;
        }
        true
    }

    /// Whether there is exactly one white king and one black king.
    pub fn has_possible_kings_setup(&self) -> (r: bool)
        requires
            self.inv(),
        ensures
            r == (count_piece(self@.squares, Piece::new_spec(Color::White, Dignity::King), 64) == 1
                && count_piece(self@.squares, Piece::new_spec(Color::Black, Dignity::King), 64) == 1),
    {
        let white_king = Piece::new(Color::White, Dignity::King);
        let black_king = Piece::new(Color::Black, Dignity::King);
        let mut white_kings: u8 = 0;
        let mut black_kings: u8 = 0;
        let mut i: u8 = 0;
        while i < 64
            invariant
                i <= 64,
                self.inv(),
                white_king == Piece::new_spec(Color::White, Dignity::King),
                black_king == Piece::new_spec(Color::Black, Dignity::King),
                white_kings == count_piece(self@.squares, white_king, i as int),
                black_kings == count_piece(self@.squares, black_king, i as int),
                white_kings <= i,
                black_kings <= i,
            decreases 64 - i,
        {
            let piece = self.piece(Square::from_index(i));
            if piece == white_king {
                white_kings = white_kings + 1;
            } else if piece == black_king {
                black_kings = black_kings + 1;
            }
            i = i + 1;
        }
        white_kings == 1 && black_kings == 1
    }

    /// A random board for fuzzing; it need not be a legal position.
    pub fn rand(rng: &mut FastRng) -> (r: Board)
        ensures
            r.inv(),
            r@.ply == 0,
            r@.cur_halfmove() < MAX_HALFMOVE_CLOCK,
    {
        let mut result = Board::empty();
        let mut i: u8 = 0;
        while i < 64
            invariant
                i <= 64,
                result.inv(),
                result@ == BoardView::empty_spec().with_placement(result@.squares),
            decreases 64 - i,
        {
            if rng.rand_bool() {
                let piece = Piece::rand(rng);
                result.set_piece_unchecked(Square::from_index(i), piece);
            }
            i = i + 1;
        }
        let side = if rng.rand_bool() { Color::Black } else { Color::White };
        let mut rights = CastlingRights::none();
        if rng.rand_bool() {
            rights.allow(CastlingRights::king_side(Color::Black));
        }
        if rng.rand_bool() {
            rights.allow(CastlingRights::queen_side(Color::Black));
        }
        if rng.rand_bool() {
            rights.allow(CastlingRights::king_side(Color::White));
        }
        if rng.rand_bool() {
            rights.allow(CastlingRights::queen_side(Color::White));
        }
        let ep = if rng.rand_bool() { File::rand(rng) } else { File::en_passant_none() };
        let hmc = rng.rand_range_u16(0, MAX_HALFMOVE_CLOCK);
        result.set_root_state(side, rights, ep, hmc);
        result
    }

    /// The board drawn as text, rank 8 at the top, for reading by people.
    pub fn diagram(&self) -> (r: Vec<u8>)
        requires
            self.inv(),
        ensures
            r@ == diagram_text(self@.squares),
    {
        let ghost s = self@.squares;
        let mut out: Vec<u8> = Vec::new();
        let mut n: u8 = 0;
        while n < 8
            invariant
                self.inv(),
                s == self@.squares,
                n <= 8,
                out@ == rank_lines(s, n as int),
            decreases 8 - n,
        {
            let y: u8 = 7 - n;
            let ghost start = out@;
            out.push(32u8);
            out.push(49u8 + y);
            out.push(32u8);
            out.push(124u8);
            let ghost head = out@;
            let mut x: u8 = 0;
            while x < 8
                invariant
                    self.inv(),
                    s == self@.squares,
                    y < 8,
                    x <= 8,
                    out@ + cells_text(s, y as int, x as int) == head + cells_text(s, y as int, 0),
                decreases 8 - x,
            {
                let piece = self.piece(Square::from_x_y(x, y));
                let ghost cur = out@;
                out.push(32u8);
                if piece.dignity == Dignity::Empty {
                    out.push(46u8);
                } else {
                    out.push(piece.fen());
                }
                out.push(32u8);
                assert(out@ + cells_text(s, y as int, x + 1) =~= cur + cells_text(s, y as int, x as int));
                x = x + 1;
            }
            out.push(10u8);
            proof {
                assert(cells_text(s, y as int, 8) == Seq::<u8>::empty());
                assert(out@ =~= start + rank_line(s, y as int));
            }
            n = n + 1;
        }
        Self::write_footer(&mut out, false);
        out.push(10u8);
        Self::write_footer(&mut out, true);
        proof {
            assert(out@ =~= diagram_text(s));
        }
        out
    }

    /// Appends the marks under a board diagram.
    fn write_footer(out: &mut Vec<u8>, letters: bool)
        ensures
            final(out)@ == old(out)@ + footer_text(8, letters),
    {
        let ghost start = out@;
        out.push(32u8);
        out.push(32u8);
        out.push(32u8);
        out.push(32u8);
        out.push(32u8);
        proof {
            assert(out@ =~= start + footer_text(0, letters));
        }
        let mut k: u8 = 1;
        while k <= 8
            invariant
                1 <= k <= 9,
                out@ == start + footer_text(k - 1, letters),
            decreases 9 - k,
        {
            let ghost cur = out@;
            if k > 1 {
                out.push(32u8);
                out.push(32u8);
            }
            let mark: u8 = if letters {
                96u8 + k
            } else {
                45u8
            };
            out.push(mark);
            assert(out@ =~= start + footer_text(k as int, letters));
            k = k + 1;
        }
    }
}

/// Writes a halfmove clock in decimal without leading zeros.
fn write_halfmove(hmc: u16, buffer: &mut FenBuffer)
    requires
        hmc <= MAX_HALFMOVE_CLOCK,
        old(buffer).wf(),
        old(buffer)@.len() + 3 <= 90,
    ensures
        final(buffer).wf(),
        final(buffer)@ == old(buffer)@ + halfmove_text(hmc as int),
{
    let h = (hmc / 100 % 10) as u8;
    let t = (hmc / 10 % 10) as u8;
    let u = (hmc % 10) as u8;
    if h != 0 {
        buffer.add(48u8 + h);
        buffer.add(48u8 + t);
        buffer.add(48u8 + u);
    } else if t != 0 {
        buffer.add(48u8 + t);
        buffer.add(48u8 + u);
    } else {
        buffer.add(48u8 + u);
    }
    assert(buffer@ =~= old(buffer)@ + halfmove_text(hmc as int));
}

fn is_piece_letter_exec(c: u8) -> (r: bool)
    ensures
        r == is_piece_letter(c),
{
    c == 80u8 || c == 78u8 || c == 66u8 || c == 82u8 || c == 81u8 || c == 75u8 || c == 112u8 || c
        == 110u8 || c == 98u8 || c == 114u8 || c == 113u8 || c == 107u8
}

fn is_castling_letter_exec(c: u8) -> (r: bool)
    ensures
        r == is_castling_letter(c),
{
    c == 75u8 || c == 81u8 || c == 107u8 || c == 113u8
}

proof fn lemma_record_parts(
    v: BoardView,
    start: Seq<u8>,
    placed: Seq<u8>,
    head: Seq<u8>,
    castled: Seq<u8>,
    passed: Seq<u8>,
    clocked: Seq<u8>,
    fin: Seq<u8>,
)
    requires
        placed == start + ranks_text(v.squares, 8),
        head == placed + seq![32u8, if v.side == Color::White { 119u8 } else { 98u8 }, 32u8],
        castled == head + castling_text(v.cur_castling()),
        passed == castled + seq![32u8] + en_passant_text(v),
        clocked == passed + seq![32u8] + halfmove_text(v.cur_halfmove() as int),
        fin == clocked + seq![32u8, 49u8],
    ensures
        fin == start + fen_text(v),
{
    assert(fin =~= start + fen_text(v));
}

/// How many of the first `n` squares hold `p`.
pub open spec fn count_piece(s: Seq<Piece>, p: Piece, n: int) -> int
    decreases n,
{
    if n <= 0 {
        0
    } else {
        count_piece(s, p, n - 1) + (if s[n - 1] == p { 1int } else { 0int })
    }
}

/// Reads the castling field and the space after it, from `start` on.
/// Where the text there is the field of the rights `c`, those rights are
/// returned with the index after the space.
fn parse_castling(
    fen: &[u8],
    start: usize,
    Ghost(has): Ghost<bool>,
    Ghost(c): Ghost<u8>,
    Ghost(q): Ghost<int>,
    Ghost(rest): Ghost<Seq<u8>>,
) -> (r: (CastlingRights, usize))
    requires
        start <= fen@.len(),
        has ==> c < 16 && start <= q <= fen@.len() && fen@.subrange(start as int, q) == castling_text(c)
            + seq![32u8] + rest,
    ensures
        r.0.wf(),
        start <= r.1 <= fen@.len(),
        has ==> r.0@ == c && r.1 <= q && fen@.subrange(r.1 as int, q) == rest,
{
    let ghost t = castling_text(c);
    let len = fen.len();
    let mut rights = CastlingRights::none();
    let mut i = start;
    let mut done = false;
    proof {
        if has && c != 0 {
            lemma_castling_text_rights(c);
        }
        assert(t.subrange(0, 0) =~= Seq::<u8>::empty());
    }
    while !done && i < len
        invariant
            rights.wf(),
            start <= i <= len,
            len == fen@.len(),
            has ==> c < 16 && start <= q <= len,
            has && c != 0 ==> rights_of_text(t) == c && forall|j: int|
                0 <= j < t.len() ==> crate::castling::is_castling_letter(#[trigger] t[j]),
            has && c == 0 ==> t =~= seq![45u8],
            has && !done ==> i - start <= t.len() && i <= q && fen@.subrange(i as int, q) == t.subrange(
                i - start,
                t.len() as int,
            ) + seq![32u8] + rest && rights@ == rights_of_text(t.subrange(0, i - start)) && (c == 0
                ==> i == start),
            has && done ==> rights@ == c && i <= q && fen@.subrange(i as int, q) == rest,
        decreases len - i,
    {
        let ch = fen[i];
        let ghost j = i - start;
        proof {
            if has {
                if j < t.len() {
                    if c != 0 {
                        assert(crate::castling::is_castling_letter(t[j]));
                    }
                    assert(t.subrange(j, t.len() as int) + seq![32u8] + rest =~= seq![t[j]] + (
                    t.subrange(j + 1, t.len() as int) + seq![32u8] + rest));
                    lemma_suffix_step(
                        fen@,
                        i as int,
                        q,
                        t[j],
                        t.subrange(j + 1, t.len() as int) + seq![32u8] + rest,
                    );
                    assert(t.subrange(0, j).push(t[j]) =~= t.subrange(0, j + 1));
                    lemma_rights_of_text_push(t.subrange(0, j), t[j]);
                } else {
                    assert(t.subrange(j, t.len() as int) + seq![32u8] + rest =~= seq![32u8] + rest);
                    lemma_suffix_step(fen@, i as int, q, 32u8, rest);
                    assert(t.subrange(0, j) =~= t);
                }
            }
        }
        i = i + 1;
        if ch == 32u8 {
            done = true;
        } else if ch == 45u8 {
            proof {
                if has {
                    assert(c == 0);
                    assert(t.subrange(1, 1) =~= Seq::<u8>::empty());
                    assert(fen@.subrange(i as int, q) =~= seq![32u8] + rest);
                    lemma_suffix_step(fen@, i as int, q, 32u8, rest);
                }
            }
            if i < len {
                i = i + 1;
            }
            done = true;
        } else if is_castling_letter_exec(ch) {
            rights.set_from_fen(ch);
        }
    }
    proof {
        if has && !done {
            assert(fen@.subrange(i as int, q).len() > 0);
        }
    }
    (rights, i)
}

/// Reads the en-passant field and the space after it, from `start` on.
/// Where the text there is the en-passant field of `v`, the file of `v` is
/// returned with the index after the space.
fn parse_en_passant(
    fen: &[u8],
    start: usize,
    Ghost(has): Ghost<bool>,
    Ghost(v): Ghost<BoardView>,
    Ghost(q): Ghost<int>,
    Ghost(rest): Ghost<Seq<u8>>,
) -> (r: (File, usize))
    requires
        start <= fen@.len(),
        has ==> (v.cur_en_passant() < 8 || v.cur_en_passant() == EN_PASSANT_NONE) && start <= q
            <= fen@.len() && fen@.subrange(start as int, q) == en_passant_text(v) + seq![32u8] + rest,
    ensures
        r.0.wf_or_none(),
        start <= r.1 <= fen@.len(),
        has ==> r.0@ == v.cur_en_passant() && r.1 <= q && fen@.subrange(r.1 as int, q) == rest,
{
    let len = fen.len();
    let mut i = start;
    let mut ep = File::en_passant_none();
    proof {
        if has {
            assert(fen@.subrange(start as int, q).len() > 0);
        }
    }
    if i < len {
        let c = fen[i];
        let ghost t = en_passant_text(v);
        proof {
            if has {
                assert(en_passant_text(v) + seq![32u8] + rest =~= seq![t[0]] + (t.subrange(
                    1,
                    t.len() as int,
                ) + seq![32u8] + rest));
                lemma_suffix_step(fen@, i as int, q, t[0], t.subrange(1, t.len() as int) + seq![32u8]
                    + rest);
            }
        }
        if 97u8 <= c && c <= 104u8 {
            ep = File::from_fen(c);
            proof {
                if has {
                    assert(v.cur_en_passant() < 8);
                    assert(ep@ == v.cur_en_passant());
                }
            }
            i = i + 1;
            proof {
                if has {
                    assert(t.subrange(1, t.len() as int) + seq![32u8] + rest =~= seq![t[1]] + (
                    seq![32u8] + rest));
                    lemma_suffix_step(fen@, i as int, q, t[1], seq![32u8] + rest);
                }
            }
            if i < len {
                i = i + 1;
            }
        } else {
            i = i + 1;
            proof {
                if has {
                    assert(v.cur_en_passant() == EN_PASSANT_NONE);
                    assert(t.subrange(1, t.len() as int) =~= Seq::<u8>::empty());
                    assert(t.subrange(1, t.len() as int) + seq![32u8] + rest =~= seq![32u8] + rest);
                }
            }
        }
        proof {
            if has {
                lemma_suffix_step(fen@, i as int, q, 32u8, rest);
            }
        }
        if i < len {
            i = i + 1;
        }
    }
    (ep, i)
}

/// Reads the halfmove clock from `start` on, up to the space after it.
/// Where the text there is the clock `h` written in decimal, `h` is returned.
fn parse_halfmove(
    fen: &[u8],
    start: usize,
    Ghost(has): Ghost<bool>,
    Ghost(h): Ghost<int>,
    Ghost(q): Ghost<int>,
) -> (r: u16)
    requires
        start <= fen@.len(),
        has ==> 0 <= h <= 999 && start <= q <= fen@.len() && fen@.subrange(start as int, q)
            == halfmove_text(h) + seq![32u8],
    ensures
        r <= MAX_HALFMOVE_CLOCK,
        has ==> r == h,
{
    let ghost t = halfmove_text(h);
    let len = fen.len();
    let mut i = start;
    let mut hmc: u16 = 0;
    let mut done = false;
    proof {
        if has {
            lemma_halfmove_text(h);
        }
        assert(t.subrange(0, 0) =~= Seq::<u8>::empty());
    }
    while !done && i < len
        invariant
            hmc <= MAX_HALFMOVE_CLOCK,
            start <= i <= len,
            len == fen@.len(),
            has ==> 0 <= h <= 999 && start <= q <= len && decimal(t) == h && (forall|j: int|
                0 <= j < t.len() ==> 48 <= #[trigger] t[j] <= 57) && (forall|j: int|
                0 <= j <= t.len() ==> decimal(#[trigger] t.subrange(0, j)) <= h),
            has && !done ==> i - start <= t.len() && i <= q && fen@.subrange(i as int, q) == t.subrange(
                i - start,
                t.len() as int,
            ) + seq![32u8] && hmc == decimal(t.subrange(0, i - start)),
            has && done ==> hmc == h,
        decreases len - i, if done { 0int } else { 1int },
    {
        let c = fen[i];
        let ghost j = i - start;
        proof {
            if has {
                if j < t.len() {
                    assert(t.subrange(j, t.len() as int) + seq![32u8] =~= seq![t[j]] + (t.subrange(
                        j + 1,
                        t.len() as int,
                    ) + seq![32u8]));
                    lemma_suffix_step(
                        fen@,
                        i as int,
                        q,
                        t[j],
                        t.subrange(j + 1, t.len() as int) + seq![32u8],
                    );
                    assert(t.subrange(0, j + 1).drop_last() =~= t.subrange(0, j));
                } else {
                    assert(t.subrange(j, t.len() as int) + seq![32u8] =~= seq![32u8] + Seq::<
                        u8,
                    >::empty());
                    lemma_suffix_step(fen@, i as int, q, 32u8, Seq::<u8>::empty());
                    assert(t.subrange(0, j) =~= t);
                }
            }
        }
        if c < 48u8 || c > 57u8 {
            done = true;
        } else {
            let next = hmc as u32 * 10 + (c - 48u8) as u32;
            if next > MAX_HALFMOVE_CLOCK as u32 {
                done = true;
            } else {
                hmc = next as u16;
                i = i + 1;
            }
        }
    }
    proof {
        if has && !done {
            assert(fen@.subrange(i as int, q).len() > 0);
        }
    }
    hmc
}

/// A record that starts with the head of `b` splits into the placement
/// field with its space, and the other fields.
proof fn lemma_describes_parts(fen: Seq<u8>, b: BoardView)
    requires
        describes(fen, b),
    ensures
        forall|j: int| 0 <= j < 64 ==> (#[trigger] b.squares[j]).wf(),
        b.squares.len() == 64,
        ranks_text(b.squares, 8).len() + 1 <= fen.len(),
        fen.subrange(0, ranks_text(b.squares, 8).len() + 1 as int) == ranks_text(b.squares, 8) + seq![32u8],
        fen.subrange(ranks_text(b.squares, 8).len() + 1 as int, record_head(b).len() as int)
            == fields_text(b),
{
    let p = ranks_text(b.squares, 8).len() as int + 1;
    let q = record_head(b).len() as int;
    assert(record_head(b) =~= (ranks_text(b.squares, 8) + seq![32u8]) + fields_text(b));
    assert(fen.subrange(0, p) =~= record_head(b).subrange(0, p));
    assert(record_head(b).subrange(0, p) =~= ranks_text(b.squares, 8) + seq![32u8]);
    assert(fen.subrange(p, q) =~= record_head(b).subrange(p, q));
    assert(record_head(b).subrange(p, q) =~= fields_text(b));
}

/// Two root boards with the same placement, side to move and root state
/// are the same board.
proof fn lemma_root_board_eq(a: BoardView, b: BoardView)
    requires
        a.ply == 0,
        b.ply == 0,
        a.castling.len() == 1,
        a.en_passant.len() == 1,
        a.halfmove.len() == 1,
        b.castling.len() == 1,
        b.en_passant.len() == 1,
        b.halfmove.len() == 1,
        a.squares == b.squares,
        a.side == b.side,
        a.cur_castling() == b.cur_castling(),
        a.cur_en_passant() == b.cur_en_passant(),
        a.cur_halfmove() == b.cur_halfmove(),
    ensures
        a == b,
{
    assert(a.castling =~= b.castling);
    assert(a.en_passant =~= b.en_passant);
    assert(a.halfmove =~= b.halfmove);
}

/// A record describes one board at most.
pub proof fn lemma_describes_unique(fen: Seq<u8>, b1: BoardView, b2: BoardView)
    requires
        describes(fen, b1),
        describes(fen, b2),
    ensures
        b1 == b2,
{
    let l1 = record_head(b1).len() as int;
    let l2 = record_head(b2).len() as int;
    assert(record_head(b1) + fen.subrange(l1, fen.len() as int) =~= fen);
    assert(record_head(b2) + fen.subrange(l2, fen.len() as int) =~= fen);
    lemma_record_injective(b1, b2, fen.subrange(l1, fen.len() as int), fen.subrange(l2, fen.len() as int));
}

/// The canonical record of a root board describes that board and no other:
/// reading what `fen` writes gives the board back, and writing what
/// `from_fen` reads from a canonical record gives the record back.
pub proof fn lemma_text_round_trip(b: BoardView)
    requires
        is_root_board(b),
    ensures
        describes(fen_text(b), b),
        forall|b2: BoardView| describes(fen_text(b), b2) ==> b2 == b,
{
    lemma_fen_text_head(b);
    let h = record_head(b);
    assert(fen_text(b).subrange(0, h.len() as int) =~= h);
    assert forall|b2: BoardView| describes(fen_text(b), b2) implies b2 == b by {
        lemma_describes_unique(fen_text(b), b, b2);
    }
}

/// Reads the fields after the placement: active color, castling rights,
/// en-passant target and halfmove clock. Where the text from `start` on is
/// the fields of `b`, they are read back.
fn parse_fields(
    fen: &[u8],
    start: usize,
    Ghost(has): Ghost<bool>,
    Ghost(b): Ghost<BoardView>,
    Ghost(q): Ghost<int>,
) -> (r: (Color, CastlingRights, File, u16))
    requires
        start <= fen@.len(),
        has ==> b.wf() && b.cur_halfmove() <= MAX_HALFMOVE_CLOCK && start <= q <= fen@.len()
            && fen@.subrange(start as int, q) == fields_text(b),
    ensures
        r.1.wf(),
        r.2.wf_or_none(),
        r.3 <= MAX_HALFMOVE_CLOCK,
        has ==> r.0 == b.side && r.1@ == b.cur_castling() && r.2@ == b.cur_en_passant() && r.3
            == b.cur_halfmove(),
{
    let len = fen.len();
    let mut i = start;
    let ghost side_letter: u8 = if b.side == Color::White {
        119u8
    } else {
        98u8
    };
    let ghost after_side = castling_text(b.cur_castling()) + seq![32u8] + en_passant_text(b)
        + seq![32u8] + halfmove_text(b.cur_halfmove() as int) + seq![32u8];
    proof {
        if has {
            assert(fields_text(b) =~= seq![side_letter] + (seq![32u8] + after_side));
            lemma_suffix_step(fen@, i as int, q, side_letter, seq![32u8] + after_side);
            lemma_suffix_step(fen@, i + 1, q, 32u8, after_side);
        }
    }
    let mut side = Color::White;
    if i < len {
        side = if fen[i] == 98u8 {
            Color::Black
        } else {
            Color::White
        };
        i = i + 1;
    }
    if i < len {
        i = i + 1;
    }
    let ghost after_castling = en_passant_text(b) + seq![32u8] + halfmove_text(
        b.cur_halfmove() as int,
    ) + seq![32u8];
    proof {
        if has {
            assert(after_side =~= castling_text(b.cur_castling()) + seq![32u8] + after_castling);
            assert(b.castling[0] < 16);
        }
    }
    let (rights, i) = parse_castling(
        fen,
        i,
        Ghost(has),
        Ghost(b.cur_castling()),
        Ghost(q),
        Ghost(after_castling),
    );
    let ghost after_ep = halfmove_text(b.cur_halfmove() as int) + seq![32u8];
    proof {
        if has {
            assert(after_castling =~= en_passant_text(b) + seq![32u8] + after_ep);
            assert(b.en_passant[b.ply as int] < 8 || b.en_passant[b.ply as int] == EN_PASSANT_NONE);
        }
    }
    let (ep, i) = parse_en_passant(fen, i, Ghost(has), Ghost(b), Ghost(q), Ghost(after_ep));
    let hmc = parse_halfmove(fen, i, Ghost(has), Ghost(b.cur_halfmove() as int), Ghost(q));
    (side, rights, ep, hmc)
}

} // verus!
