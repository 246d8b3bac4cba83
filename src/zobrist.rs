use vstd::prelude::*;

use crate::piece::Piece;

verus! {

/// A fixed pseudo-random 64-bit value for each number `k`: the splitmix64
/// output for the counter `k + 1`. These stand in for a table of random keys.
pub open spec fn zobrist_spec(k: u64) -> u64 {
    let z0 = k.wrapping_add(1).wrapping_mul(0x9e3779b97f4a7c15u64);
    let z1 = (z0 ^ (z0 >> 30u64)).wrapping_mul(0xbf58476d1ce4e5b9u64);
    let z2 = (z1 ^ (z1 >> 27u64)).wrapping_mul(0x94d049bb133111ebu64);
    z2 ^ (z2 >> 31u64)
}

pub fn zobrist(k: u64) -> (r: u64)
    ensures
        r == zobrist_spec(k),
{
    let z0 = k.wrapping_add(1).wrapping_mul(0x9e3779b97f4a7c15u64);
    let z1 = (z0 ^ (z0 >> 30u64)).wrapping_mul(0xbf58476d1ce4e5b9u64);
    let z2 = (z1 ^ (z1 >> 27u64)).wrapping_mul(0x94d049bb133111ebu64);
    z2 ^ (z2 >> 31u64)
}

/// The key of `p` standing on square `i`; a vacant square adds nothing.
pub open spec fn square_key(p: Piece, i: int) -> u64 {
    if p.is_empty() {
        0
    } else {
        zobrist_spec((p.index_spec() * 64 + i) as u64)
    }
}

/// The key of the placement of the first `n` squares: the exclusive-or of
/// the keys of the pieces on them.
pub open spec fn placement_key(s: Seq<Piece>, n: int) -> u64
    decreases n,
{
    if n <= 0 {
        0
    } else {
        placement_key(s, n - 1) ^ square_key(s[n - 1], n - 1)
    }
}

/// The key of black being to move.
pub open spec fn side_key() -> u64 {
    zobrist_spec(1024)
}

/// The key of an open en-passant file; none when no capture is open.
pub open spec fn en_passant_key(f: u8) -> u64 {
    if f < 8 {
        zobrist_spec((1025 + f) as u64)
    } else {
        0
    }
}

/// The key of a set of castling rights; none when no right is left.
pub open spec fn castling_key(c: u8) -> u64 {
    if c == 0 {
        0
    } else {
        zobrist_spec((1040 + c) as u64)
    }
}

pub fn piece_square_key(p: Piece, at: u8) -> (r: u64)
    requires
        at < 64,
    ensures
        r == square_key(p, at as int),
{
    if p.dignity == crate::piece::Dignity::Empty {
        0
    } else {
        zobrist(p.index() as u64 * 64 + at as u64)
    }
}

pub proof fn lemma_xor_facts(a: u64, b: u64, c: u64)
    ensures
        (a ^ b) ^ c == (a ^ c) ^ b,
        (a ^ b) ^ b == a,
        a ^ 0 == a,
        0u64 ^ 0u64 == 0,
        (a ^ b) ^ c == a ^ (b ^ c),
        b ^ b == 0,
{
    assert((a ^ b) ^ c == (a ^ c) ^ b && (a ^ b) ^ b == a && a ^ 0 == a && 0u64 ^ 0u64 == 0 && (a
        ^ b) ^ c == a ^ (b ^ c) && b ^ b == 0) by (bit_vector);
}

/// Changing square `i` changes the placement key by the keys of the piece
/// that left and the piece that came.
pub proof fn lemma_placement_update(s: Seq<Piece>, i: int, p: Piece, n: int)
    requires
        0 <= i < s.len(),
        n <= s.len(),
    ensures
        i < n ==> placement_key(s.update(i, p), n) == placement_key(s, n) ^ (square_key(s[i], i)
            ^ square_key(p, i)),
        i >= n ==> placement_key(s.update(i, p), n) == placement_key(s, n),
    decreases n,
{
    if n <= 0 {
    } else {
        lemma_placement_update(s, i, p, n - 1);
        let a = placement_key(s, n - 1);
        let d = square_key(s[i], i) ^ square_key(p, i);
        if i < n - 1 {
            lemma_xor_facts(a, d, square_key(s[n - 1], n - 1));
            lemma_xor_facts(a, square_key(s[n - 1], n - 1), d);
        } else if i == n - 1 {
            lemma_xor_facts(a, square_key(s[i], i), square_key(p, i));
            lemma_xor_facts(a ^ square_key(s[i], i), square_key(s[i], i), square_key(p, i));
            lemma_xor_facts(a, square_key(s[i], i) ^ square_key(s[i], i), square_key(p, i));
            lemma_xor_facts(0, square_key(s[i], i), 0);
        }
    }
}

/// A placement of vacant squares has the key zero.
pub proof fn lemma_placement_empty(s: Seq<Piece>, n: int)
    requires
        n <= s.len(),
        forall|j: int| 0 <= j < n ==> s[j].is_empty(),
    ensures
        placement_key(s, n) == 0,
    decreases n,
{
    if n > 0 {
        lemma_placement_empty(s, n - 1);
        lemma_xor_facts(0, 0, 0);
    }
}

} // verus!

verus! {

/// A 64-bit Zobrist key of a position.
#[derive(Clone, Copy, Debug, PartialEq, Eq, Structural)]
pub struct ZorbistKey(pub u64);

impl ZorbistKey {
    pub fn new() -> (r: ZorbistKey)
        ensures
            r.0 == 0,
    {
        ZorbistKey(0)
    }

    /// The slot of the key in a table of `BASE` slots.
    pub fn index<const BASE: usize>(self) -> (r: usize)
        requires
            BASE > 0,
        ensures
            r == self.0 as int % BASE as int,
            r < BASE,
    {
        (self.0 % (BASE as u64)) as usize
    }

    pub fn empty(self) -> (r: bool)
        ensures
            r == (self.0 == 0),
    {
        self.0 == 0
    }

    pub fn xor(self, change: u64) -> (r: ZorbistKey)
        ensures
            r.0 == self.0 ^ change,
    {
        ZorbistKey(self.0 ^ change)
    }

    pub fn mut_xor(&mut self, change: u64)
        ensures
            final(self).0 == old(self).0 ^ change,
    {
        self.0 = self.0 ^ change;
    }
}

} // verus!
