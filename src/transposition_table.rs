use vstd::prelude::*;

use crate::board::{Board, BoardView};
use crate::color::Color;
use crate::piece::Piece;
use crate::square::Square;
use crate::zobrist::ZorbistKey;

verus! {

/// Whether two boards hold the same position as far as move generation
/// sees it: the placement, the side to move, the castling rights and the
/// en-passant file of the current ply.
pub open spec fn same_position(a: BoardView, b: BoardView) -> bool {
    a.squares == b.squares && a.side == b.side && a.cur_castling() == b.cur_castling()
        && a.cur_en_passant() == b.cur_en_passant()
}

/// A slot of the table as a mathematical value: the board whose count it
/// holds, the depth and the count, and whether it is in use.
pub struct Entry {
    pub used: bool,
    pub view: BoardView,
    pub depth: usize,
    pub nodes: usize,
}

/// What a slot stores: the full key, the depth and the count, and the
/// position itself, so that a lookup answers only for the very position
/// stored.
#[derive(Clone, Copy)]
struct Bucket {
    full_key: ZorbistKey,
    depth: usize,
    nodes: usize,
    squares: [Piece; 64],
    side: Color,
    castling: u8,
    en_passant: u8,
}

/// A fixed-size table of perft counts keyed by the Zobrist key of the
/// position. A slot is the key modulo `SIZE`; writing overwrites it.
pub struct TranspositionTable<const SIZE: usize> {
    buckets: Vec<Bucket>,
    entries: Ghost<Seq<Entry>>,
}

/// A slot not in use.
pub open spec fn unused_entry() -> Entry {
    Entry { used: false, view: BoardView::empty_spec(), depth: 0, nodes: 0 }
}

/// The slot of a key in a table of `size` slots.
pub open spec fn slot(key: u64, size: usize) -> int {
    key as int % size as int
}

impl Bucket {
    fn empty() -> (r: Bucket)
        ensures
            r.full_key.0 == 0,
    {
        let e = Piece::empty();
        Bucket {
            full_key: ZorbistKey::new(),
            depth: 0,
            nodes: 0,
            squares: [e; 64],
            side: Color::White,
            castling: 0,
            en_passant: 0,
        }
    }

    spec fn holds(self, e: Entry) -> bool {
        &&& e.used == (self.full_key.0 != 0)
        &&& e.used ==> {
            &&& self.full_key.0 == e.view.hash_spec()
            &&& self.depth == e.depth
            &&& self.nodes == e.nodes
            &&& self.squares@ == e.view.squares
            &&& self.side == e.view.side
            &&& self.castling == e.view.cur_castling()
            &&& self.en_passant == e.view.cur_en_passant()
        }
    }
}

impl<const SIZE: usize> TranspositionTable<SIZE> {
    pub closed spec fn view(&self) -> Seq<Entry> {
        self.entries@
    }

    pub closed spec fn inv(&self) -> bool {
        &&& SIZE > 0
        &&& self.buckets@.len() == SIZE
        &&& self.entries@.len() == SIZE
        &&& forall|i: int| 0 <= i < SIZE ==> #[trigger] self.buckets@[i].holds(self.entries@[i])
    }

    pub proof fn lemma_inv(&self)
        requires
            self.inv(),
        ensures
            self@.len() == SIZE,
            SIZE > 0,
    {
    }

    /// An empty table. `SIZE` is a power of two.
    pub fn new() -> (r: Self)
        requires
            SIZE > 0,
            SIZE & (SIZE - 1) as usize == 0,
        ensures
            r.inv(),
            r@.len() == SIZE,
            forall|i: int| 0 <= i < SIZE ==> !(#[trigger] r@[i]).used,
    {
        let mut buckets: Vec<Bucket> = Vec::new();
        let mut i: usize = 0;
        while i < SIZE
            invariant
                i <= SIZE,
                buckets@.len() == i,
                forall|j: int| 0 <= j < i ==> #[trigger] buckets@[j].holds(unused_entry()),
            decreases SIZE - i,
        {
            let b = Bucket::empty();
            assert(b.holds(unused_entry()));
            buckets.push(b);
            assert(buckets@[i as int] == b);
            i = i + 1;
        }
        TranspositionTable { buckets, entries: Ghost(Seq::new(SIZE as nat, |j: int| unused_entry())) }
    }

    /// An empty table on the heap.
    pub fn new_box() -> (r: Box<Self>)
        requires
            SIZE > 0,
            SIZE & (SIZE - 1) as usize == 0,
        ensures
            r.inv(),
            r@.len() == SIZE,
            forall|i: int| 0 <= i < SIZE ==> !(#[trigger] r@[i]).used,
    {
        Box::new(Self::new())
    }

    /// Stores `nodes` for the position of `board` at `depth`, overwriting its slot.
    pub fn add(&mut self, board: &Board, depth: usize, nodes: usize)
        requires
            old(self).inv(),
            board.inv(),
        ensures
            final(self).inv(),
            final(self)@ == old(self)@.update(
                slot(board@.hash_spec(), SIZE),
                Entry { used: board@.hash_spec() != 0, view: board@, depth, nodes },
            ),
    {
        let full_key = board.hash();
        let small_key = full_key.index::<SIZE>();
        let bucket = Bucket {
            full_key,
            depth,
            nodes,
            squares: board.placement(),
            side: board.side_to_move(),
            castling: board.castling_rights().index(),
            en_passant: board.en_passant_file().index(),
        };
        self.buckets.set(small_key, bucket);
        let ghost e = Entry { used: full_key.0 != 0, view: board@, depth, nodes };
        self.entries = Ghost(self.entries@.update(small_key as int, e));
        assert(forall|i: int| 0 <= i < SIZE ==> #[trigger] self.buckets@[i].holds(self.entries@[i]));
    }

    /// The count stored for the position of `board` at `depth`, if its
    /// slot holds exactly that position and depth.
    pub fn get(&self, board: &Board, depth: usize) -> (r: Option<usize>)
        requires
            self.inv(),
            board.inv(),
        ensures
            ({
                let e = self@[slot(board@.hash_spec(), SIZE)];
                r == (if e.used && e.depth == depth && same_position(e.view, board@) {
                    Some(e.nodes)
                } else {
                    None
                })
            }),
    {
        let full_key = board.hash();
        let small_key = full_key.index::<SIZE>();
        let bucket = &self.buckets[small_key];
        let ghost e = self@[small_key as int];
        assert(bucket.holds(e));
        if bucket.full_key.0 == 0 || bucket.full_key.0 != full_key.0 {
            return None;
        }
        if bucket.depth != depth {
            return None;
        }
        if bucket.side != board.side_to_move() || bucket.castling != board.castling_rights().index()
            || bucket.en_passant != board.en_passant_file().index() {
            return None;
        }
        if !same_squares(&bucket.squares, board) {
            return None;
        }
        Some(bucket.nodes)
    }

    /// Empties every slot.
    pub fn clean(&mut self)
        requires
            old(self).inv(),
        ensures
            final(self).inv(),
            final(self)@.len() == SIZE,
            forall|i: int| 0 <= i < SIZE ==> !(#[trigger] final(self)@[i]).used,
    {
        let mut i: usize = 0;
        while i < SIZE
            invariant
                i <= SIZE,
                SIZE > 0,
                self.buckets@.len() == SIZE,
                self.entries@.len() == SIZE,
                forall|j: int| 0 <= j < SIZE ==> #[trigger] self.buckets@[j].holds(self.entries@[j]),
                forall|j: int| 0 <= j < i ==> !(#[trigger] self.entries@[j]).used,
            decreases SIZE - i,
        {
            let b = Bucket::empty();
            assert(b.holds(unused_entry()));
            let ghost prev_b = self.buckets@;
            let ghost prev_e = self.entries@;
            self.buckets.set(i, b);
            self.entries = Ghost(self.entries@.update(i as int, unused_entry()));
            assert forall|j: int| 0 <= j < SIZE implies #[trigger] self.buckets@[j].holds(
                self.entries@[j],
            ) by {
                if j != i {
                    assert(self.buckets@[j] == prev_b[j]);
                    assert(self.entries@[j] == prev_e[j]);
                }
            }
            i = i + 1;
        }
    }
}

/// Whether a stored placement is the placement of `board`.
fn same_squares(squares: &[Piece; 64], board: &Board) -> (r: bool)
    requires
        board.inv(),
    ensures
        r == (squares@ == board@.squares),
{
    let mut i: u8 = 0;
    while i < 64
        invariant
            i <= 64,
            board.inv(),
            forall|j: int| 0 <= j < i ==> squares@[j] == board@.squares[j],
        decreases 64 - i,
    {
        if squares[i as usize] != board.piece(Square::from_index(i)) {
            return false;
        }
        i = i + 1;
    }
    assert(squares@ =~= board@.squares);
    true
}

} // verus!
