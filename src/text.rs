use vstd::prelude::*;

use crate::board::BoardView;
use crate::castling::{castling_text, lemma_castling_text_rights};
use crate::color::Color;
use crate::piece::Piece;

verus! {

/// The ASCII digit of `n`, for `n` in 0..9.
pub open spec fn digit(n: int) -> u8 {
    (48 + n) as u8
}

/// The text of rank `y` from file `x` on, when `e` vacant squares just
/// before file `x` are not yet written: each run of vacant squares as one
/// digit, each piece as its letter.
pub open spec fn rank_text(s: Seq<Piece>, y: int, x: int, e: int) -> Seq<u8>
    decreases 8 - x,
{
    if x >= 8 {
        if e > 0 {
            seq![digit(e)]
        } else {
            Seq::empty()
        }
    } else if s[8 * y + x].is_empty() {
        rank_text(s, y, x + 1, e + 1)
    } else {
        (if e > 0 {
            seq![digit(e)]
        } else {
            Seq::empty()
        }) + seq![s[8 * y + x].letter_spec()] + rank_text(s, y, x + 1, 0)
    }
}

/// The text of the top `n` ranks, rank 8 first, each followed by `/` but the last.
pub open spec fn ranks_text(s: Seq<Piece>, n: int) -> Seq<u8>
    decreases n,
{
    if n <= 0 {
        Seq::empty()
    } else {
        ranks_text(s, n - 1) + rank_text(s, 8 - n, 0, 0) + (if n < 8 {
            seq![47u8]
        } else {
            Seq::empty()
        })
    }
}

/// The halfmove clock in decimal without leading zeros.
pub open spec fn halfmove_text(h: int) -> Seq<u8> {
    if h >= 100 {
        seq![digit(h / 100), digit((h / 10) % 10), digit(h % 10)]
    } else if h >= 10 {
        seq![digit(h / 10), digit(h % 10)]
    } else {
        seq![digit(h)]
    }
}

/// The en-passant field: `-`, or the target square behind the pawn that
/// just advanced two squares.
pub open spec fn en_passant_text(v: BoardView) -> Seq<u8> {
    if v.cur_en_passant() < 8 {
        seq![(97 + v.cur_en_passant()) as u8, if v.side == Color::White { 54u8 } else { 51u8 }]
    } else {
        seq![45u8]
    }
}

/// The position record of a board in canonical form. The fullmove counter
/// is not kept and is always written as 1.
pub open spec fn fen_text(v: BoardView) -> Seq<u8> {
    ranks_text(v.squares, 8) + seq![32u8, if v.side == Color::White { 119u8 } else { 98u8 }, 32u8]
        + castling_text(v.cur_castling()) + seq![32u8] + en_passant_text(v) + seq![32u8]
        + halfmove_text(v.cur_halfmove() as int) + seq![32u8, 49u8]
}

/// Each rank takes at most eight characters.
pub proof fn lemma_rank_text_len(s: Seq<Piece>, y: int, x: int, e: int)
    requires
        0 <= x <= 8,
        0 <= e,
        0 <= y < 8,
        s.len() == 64,
    ensures
        rank_text(s, y, x, e).len() <= 8 - x + (if e > 0 { 1int } else { 0int }),
    decreases 8 - x,
{
    if x < 8 {
        if s[8 * y + x].is_empty() {
            lemma_rank_text_len(s, y, x + 1, e + 1);
        } else {
            lemma_rank_text_len(s, y, x + 1, 0);
        }
    }
}

pub proof fn lemma_ranks_text_len(s: Seq<Piece>, n: int)
    requires
        0 <= n <= 8,
        s.len() == 64,
    ensures
        ranks_text(s, n).len() <= 9 * n,
    decreases n,
{
    if n > 0 {
        lemma_ranks_text_len(s, n - 1);
        lemma_rank_text_len(s, 8 - n, 0, 0);
    }
}

/// The number of vacant squares of rank `y` from file `x` on, up to the
/// next piece or the edge of the board.
pub open spec fn empty_run(s: Seq<Piece>, y: int, x: int) -> int
    decreases 8 - x,
{
    if x >= 8 || x < 0 {
        0
    } else if !s[8 * y + x].is_empty() {
        0
    } else {
        1 + empty_run(s, y, x + 1)
    }
}

pub proof fn lemma_empty_run(s: Seq<Piece>, y: int, x: int)
    requires
        0 <= x <= 8,
    ensures
        0 <= empty_run(s, y, x) <= 8 - x,
        forall|j: int| x <= j < x + empty_run(s, y, x) ==> (#[trigger] s[8 * y + j]).is_empty(),
        x + empty_run(s, y, x) < 8 ==> !s[8 * y + x + empty_run(s, y, x)].is_empty(),
    decreases 8 - x,
{
    if x < 8 && s[8 * y + x].is_empty() {
        lemma_empty_run(s, y, x + 1);
    }
}

/// Skipping a run of `k` vacant squares adds `k` to the pending count.
pub proof fn lemma_rank_text_skip(s: Seq<Piece>, y: int, x: int, e: int, k: int)
    requires
        0 <= x,
        0 <= k,
        x + k <= 8,
        forall|j: int| x <= j < x + k ==> (#[trigger] s[8 * y + j]).is_empty(),
    ensures
        rank_text(s, y, x, e) == rank_text(s, y, x + k, e + k),
    decreases k,
{
    if k > 0 {
        lemma_rank_text_skip(s, y, x + 1, e + 1, k - 1);
    }
}

/// The text of a rank from file `x` on, with nothing pending: the digit of
/// the run of vacant squares there, if any, then the rest.
pub proof fn lemma_rank_text_head(s: Seq<Piece>, y: int, x: int)
    requires
        0 <= x < 8,
    ensures
        s[8 * y + x].is_empty() ==> rank_text(s, y, x, 0) == seq![digit(empty_run(s, y, x))]
            + rank_text(s, y, x + empty_run(s, y, x), 0),
        !s[8 * y + x].is_empty() ==> rank_text(s, y, x, 0) == seq![s[8 * y + x].letter_spec()]
            + rank_text(s, y, x + 1, 0),
{
    lemma_empty_run(s, y, x);
    let k = empty_run(s, y, x);
    if s[8 * y + x].is_empty() {
        lemma_rank_text_skip(s, y, x, 0, k);
        if x + k < 8 {
            assert(rank_text(s, y, x + k, k) =~= seq![digit(k)] + rank_text(s, y, x + k, 0));
        } else {
            assert(rank_text(s, y, x + k, k) =~= seq![digit(k)] + rank_text(s, y, x + k, 0));
        }
    } else {
        assert(rank_text(s, y, x, 0) =~= seq![s[8 * y + x].letter_spec()] + rank_text(s, y, x + 1, 0));
    }
}

/// The text of ranks `n + 1` to `m`, counted from the top, each followed
/// by `/` but the last rank of the board.
pub open spec fn ranks_tail(s: Seq<Piece>, n: int, m: int) -> Seq<u8>
    decreases m - n,
{
    if n >= m {
        Seq::empty()
    } else {
        rank_text(s, 7 - n, 0, 0) + (if n + 1 < 8 {
            seq![47u8]
        } else {
            Seq::empty()
        }) + ranks_tail(s, n + 1, m)
    }
}

proof fn lemma_ranks_tail_append(s: Seq<Piece>, n: int, m: int)
    requires
        0 <= n <= m,
    ensures
        ranks_tail(s, n, m + 1) == ranks_tail(s, n, m) + rank_text(s, 7 - m, 0, 0) + (if m + 1 < 8 {
            seq![47u8]
        } else {
            Seq::empty()
        }),
    decreases m - n,
{
    if n < m {
        lemma_ranks_tail_append(s, n + 1, m);
        let r = rank_text(s, 7 - n, 0, 0) + (if n + 1 < 8 {
            seq![47u8]
        } else {
            Seq::empty()
        });
        let last = rank_text(s, 7 - m, 0, 0) + (if m + 1 < 8 {
            seq![47u8]
        } else {
            Seq::empty()
        });
        assert(r + (ranks_tail(s, n + 1, m) + last) =~= (r + ranks_tail(s, n + 1, m)) + last);
    } else {
        assert(ranks_tail(s, m + 1, m + 1) == Seq::<u8>::empty());
        assert(ranks_tail(s, n, m) == Seq::<u8>::empty());
        assert(ranks_tail(s, n, m + 1) =~= ranks_tail(s, n, m) + rank_text(s, 7 - m, 0, 0) + (if m + 1
            < 8 {
            seq![47u8]
        } else {
            Seq::empty()
        }));
    }
}

/// The placement field read from the top is the ranks read one by one.
pub proof fn lemma_ranks_text_tail(s: Seq<Piece>, m: int)
    requires
        0 <= m <= 8,
    ensures
        ranks_text(s, m) == ranks_tail(s, 0, m),
    decreases m,
{
    if m > 0 {
        lemma_ranks_text_tail(s, m - 1);
        lemma_ranks_tail_append(s, 0, m - 1);
    }
}

/// The fields after the placement, each followed by a space: active color,
/// castling rights, en-passant target and halfmove clock.
pub open spec fn fields_text(v: BoardView) -> Seq<u8> {
    seq![if v.side == Color::White { 119u8 } else { 98u8 }, 32u8] + castling_text(v.cur_castling())
        + seq![32u8] + en_passant_text(v) + seq![32u8] + halfmove_text(v.cur_halfmove() as int)
        + seq![32u8]
}

/// A position record up to its fullmove counter.
pub open spec fn record_head(v: BoardView) -> Seq<u8> {
    ranks_text(v.squares, 8) + seq![32u8] + fields_text(v)
}

/// The canonical record is its head followed by the fullmove counter 1.
pub proof fn lemma_fen_text_head(v: BoardView)
    ensures
        fen_text(v) == record_head(v) + seq![49u8],
{
    assert(fen_text(v) =~= record_head(v) + seq![49u8]);
}

/// Reading one character off the front of a suffix.
pub proof fn lemma_suffix_step(s: Seq<u8>, i: int, p: int, c: u8, rest: Seq<u8>)
    requires
        0 <= i <= p <= s.len(),
        s.subrange(i, p) == seq![c] + rest,
    ensures
        i < p,
        s[i] == c,
        s.subrange(i + 1, p) == rest,
{
    assert((seq![c] + rest).len() >= 1);
    assert(s.subrange(i, p).len() == p - i);
    assert(s.subrange(i, p)[0] == c);
    assert forall|k: int| 0 <= k < rest.len() implies s.subrange(i + 1, p)[k] == rest[k] by {
        assert(s.subrange(i, p)[k + 1] == (seq![c] + rest)[k + 1]);
        assert(s.subrange(i, p)[k + 1] == s[i + k + 1]);
        assert(s.subrange(i + 1, p)[k] == s[i + 1 + k]);
    }
    assert(s.subrange(i + 1, p) =~= rest);
}

/// The number written in decimal by the digits `t`.
pub open spec fn decimal(t: Seq<u8>) -> int
    decreases t.len(),
{
    if t.len() == 0 {
        0
    } else {
        decimal(t.drop_last()) * 10 + (t.last() - 48)
    }
}

/// The halfmove field is made of digits, and each of its prefixes reads as
/// a number no larger than the clock.
pub proof fn lemma_halfmove_text(h: int)
    requires
        0 <= h <= 999,
    ensures
        halfmove_text(h).len() >= 1,
        forall|j: int|
            0 <= j < halfmove_text(h).len() ==> 48 <= #[trigger] halfmove_text(h)[j] <= 57,
        forall|j: int|
            0 <= j <= halfmove_text(h).len() ==> decimal(#[trigger] halfmove_text(h).subrange(0, j))
                <= h,
        decimal(halfmove_text(h)) == h,
{
    let t = halfmove_text(h);
    assert(t.subrange(0, 0).len() == 0);
    assert(decimal(t.subrange(0, 0)) == 0);
    if h >= 100 {
        assert(t.subrange(0, 1).drop_last() =~= t.subrange(0, 0));
        assert(t.subrange(0, 2).drop_last() =~= t.subrange(0, 1));
        assert(t.subrange(0, 3).drop_last() =~= t.subrange(0, 2));
        assert(t.subrange(0, 3) =~= t);
        assert(decimal(t.subrange(0, 1)) == h / 100);
        assert(decimal(t.subrange(0, 2)) == h / 10);
    } else if h >= 10 {
        assert(t.subrange(0, 1).drop_last() =~= t.subrange(0, 0));
        assert(t.subrange(0, 2).drop_last() =~= t.subrange(0, 1));
        assert(t.subrange(0, 2) =~= t);
        assert(decimal(t.subrange(0, 1)) == h / 10);
    } else {
        assert(t.subrange(0, 1).drop_last() =~= t.subrange(0, 0));
        assert(t.subrange(0, 1) =~= t);
    }
}

/// Whether `t` holds no space.
pub open spec fn no_space(t: Seq<u8>) -> bool {
    forall|j: int| 0 <= j < t.len() ==> #[trigger] t[j] != 32
}

/// Two texts without spaces, each followed by a space, are equal when what
/// they start is equal; so are their tails.
pub proof fn lemma_split_at_space(a: Seq<u8>, b: Seq<u8>, r1: Seq<u8>, r2: Seq<u8>)
    requires
        no_space(a),
        no_space(b),
        a + seq![32u8] + r1 == b + seq![32u8] + r2,
    ensures
        a == b,
        r1 == r2,
{
    let l = a + seq![32u8] + r1;
    let m = b + seq![32u8] + r2;
    if a.len() < b.len() {
        assert(l[a.len() as int] == 32);
        assert(m[a.len() as int] == b[a.len() as int]);
    } else if b.len() < a.len() {
        assert(m[b.len() as int] == 32);
        assert(l[b.len() as int] == a[b.len() as int]);
    } else {
        assert forall|j: int| 0 <= j < a.len() implies a[j] == b[j] by {
            assert(l[j] == a[j]);
            assert(m[j] == b[j]);
        }
        assert(a =~= b);
        assert(l.len() == m.len());
        assert((a + seq![32u8]).len() == a.len() + 1);
        assert((b + seq![32u8]).len() == b.len() + 1);
        assert(l.len() == a.len() + 1 + r1.len());
        assert(m.len() == b.len() + 1 + r2.len());
        assert(r1.len() == r2.len());
        assert forall|j: int| 0 <= j < r1.len() implies r1[j] == r2[j] by {
            assert(l[a.len() + 1 + j] == r1[j]);
            assert(m[b.len() + 1 + j] == r2[j]);
        }
        assert(l.len() == m.len());
        assert(r1 =~= r2);
    }
}

/// Reading a rank back: two ranks written alike from file `x` on, followed
/// by the same text, hold the same pieces from file `x` on.
pub proof fn lemma_rank_text_injective(
    s1: Seq<Piece>,
    s2: Seq<Piece>,
    y: int,
    x: int,
    t1: Seq<u8>,
    t2: Seq<u8>,
)
    requires
        0 <= y < 8,
        0 <= x <= 8,
        s1.len() == 64,
        s2.len() == 64,
        forall|j: int| 0 <= j < 64 ==> (#[trigger] s1[j]).wf(),
        forall|j: int| 0 <= j < 64 ==> (#[trigger] s2[j]).wf(),
        rank_text(s1, y, x, 0) + t1 == rank_text(s2, y, x, 0) + t2,
    ensures
        forall|j: int| x <= j < 8 ==> s1[8 * y + j] == #[trigger] s2[8 * y + j],
        t1 == t2,
    decreases 8 - x,
{
    if x == 8 {
        assert(rank_text(s1, y, 8, 0) =~= Seq::<u8>::empty());
        assert(rank_text(s2, y, 8, 0) =~= Seq::<u8>::empty());
        assert(t1 =~= rank_text(s1, y, x, 0) + t1);
        assert(t2 =~= rank_text(s2, y, x, 0) + t2);
    } else {
        lemma_rank_text_head(s1, y, x);
        lemma_rank_text_head(s2, y, x);
        lemma_empty_run(s1, y, x);
        lemma_empty_run(s2, y, x);
        let p1 = s1[8 * y + x];
        let p2 = s2[8 * y + x];
        assert(p1.wf() && p2.wf());
        let l = rank_text(s1, y, x, 0) + t1;
        let m = rank_text(s2, y, x, 0) + t2;
        assert(l[0] == m[0]);
        if p1.is_empty() && p2.is_empty() {
            let k1 = empty_run(s1, y, x);
            let k2 = empty_run(s2, y, x);
            assert(l[0] == digit(k1));
            assert(m[0] == digit(k2));
            assert(k1 == k2);
            assert(l =~= seq![digit(k1)] + (rank_text(s1, y, x + k1, 0) + t1));
            assert(m =~= seq![digit(k2)] + (rank_text(s2, y, x + k2, 0) + t2));
            assert(rank_text(s1, y, x + k1, 0) + t1 =~= l.subrange(1, l.len() as int));
            assert(rank_text(s2, y, x + k1, 0) + t2 =~= m.subrange(1, m.len() as int));
            lemma_rank_text_injective(s1, s2, y, x + k1, t1, t2);
            assert forall|j: int| x <= j < 8 implies s1[8 * y + j] == #[trigger] s2[8 * y + j] by {
                if j < x + k1 {
                    assert(s1[8 * y + j].is_empty());
                    assert(s2[8 * y + j].is_empty());
                    assert(s1[8 * y + j].wf() && s2[8 * y + j].wf());
                }
            }
        } else if !p1.is_empty() && !p2.is_empty() {
            crate::piece::lemma_letter_injective(p1, p2);
            assert(l =~= seq![p1.letter_spec()] + (rank_text(s1, y, x + 1, 0) + t1));
            assert(m =~= seq![p2.letter_spec()] + (rank_text(s2, y, x + 1, 0) + t2));
            assert(rank_text(s1, y, x + 1, 0) + t1 =~= l.subrange(1, l.len() as int));
            assert(rank_text(s2, y, x + 1, 0) + t2 =~= m.subrange(1, m.len() as int));
            lemma_rank_text_injective(s1, s2, y, x + 1, t1, t2);
        } else if p1.is_empty() {
            crate::piece::lemma_letter_injective(p2, p2);
            assert(l[0] == digit(empty_run(s1, y, x)));
            assert(m[0] == p2.letter_spec());
        } else {
            crate::piece::lemma_letter_injective(p1, p1);
            assert(m[0] == digit(empty_run(s2, y, x)));
            assert(l[0] == p1.letter_spec());
        }
    }
}

pub proof fn lemma_ranks_tail_injective(
    s1: Seq<Piece>,
    s2: Seq<Piece>,
    n: int,
    t1: Seq<u8>,
    t2: Seq<u8>,
)
    requires
        0 <= n <= 8,
        s1.len() == 64,
        s2.len() == 64,
        forall|j: int| 0 <= j < 64 ==> (#[trigger] s1[j]).wf(),
        forall|j: int| 0 <= j < 64 ==> (#[trigger] s2[j]).wf(),
        ranks_tail(s1, n, 8) + t1 == ranks_tail(s2, n, 8) + t2,
    ensures
        forall|j: int| 0 <= j < 8 * (8 - n) ==> s1[j] == #[trigger] s2[j],
        t1 == t2,
    decreases 8 - n,
{
    if n == 8 {
        assert(ranks_tail(s1, 8, 8) =~= Seq::<u8>::empty());
        assert(ranks_tail(s2, 8, 8) =~= Seq::<u8>::empty());
        assert(t1 =~= ranks_tail(s1, n, 8) + t1);
        assert(t2 =~= ranks_tail(s2, n, 8) + t2);
    } else {
        let sep: Seq<u8> = if n + 1 < 8 {
            seq![47u8]
        } else {
            Seq::empty()
        };
        let u1 = sep + ranks_tail(s1, n + 1, 8) + t1;
        let u2 = sep + ranks_tail(s2, n + 1, 8) + t2;
        assert(ranks_tail(s1, n, 8) + t1 =~= rank_text(s1, 7 - n, 0, 0) + u1);
        assert(ranks_tail(s2, n, 8) + t2 =~= rank_text(s2, 7 - n, 0, 0) + u2);
        lemma_rank_text_injective(s1, s2, 7 - n, 0, u1, u2);
        assert(ranks_tail(s1, n + 1, 8) + t1 =~= u1.subrange(sep.len() as int, u1.len() as int));
        assert(ranks_tail(s2, n + 1, 8) + t2 =~= u2.subrange(sep.len() as int, u2.len() as int));
        lemma_ranks_tail_injective(s1, s2, n + 1, t1, t2);
        assert forall|j: int| 0 <= j < 8 * (8 - n) implies s1[j] == #[trigger] s2[j] by {
            if j >= 8 * (7 - n) {
                let jj = j - 8 * (7 - n);
                assert(s1[8 * (7 - n) + jj] == s2[8 * (7 - n) + jj]);
            }
        }
    }
}

proof fn lemma_fields_no_space(v: BoardView)
    requires
        v.cur_halfmove() <= 999,
    ensures
        no_space(castling_text(v.cur_castling())),
        no_space(en_passant_text(v)),
        no_space(halfmove_text(v.cur_halfmove() as int)),
{
    let c = v.cur_castling();
    let t = castling_text(c);
    if c != 0 && c < 16 {
        lemma_castling_text_rights(c);
    }
    assert forall|j: int| 0 <= j < t.len() implies #[trigger] t[j] != 32 by {
        if c != 0 {
            let k: Seq<u8> = if c & 8 != 0 { seq![75u8] } else { Seq::empty() };
            let q: Seq<u8> = if c & 4 != 0 { seq![81u8] } else { Seq::empty() };
            let bk: Seq<u8> = if c & 2 != 0 { seq![107u8] } else { Seq::empty() };
            let bq: Seq<u8> = if c & 1 != 0 { seq![113u8] } else { Seq::empty() };
            assert(t =~= k + q + bk + bq);
        }
    }
    lemma_halfmove_text(v.cur_halfmove() as int);
}

proof fn lemma_castling_text_injective(k1: u8, k2: u8)
    requires
        k1 < 16,
        k2 < 16,
        castling_text(k1) == castling_text(k2),
    ensures
        k1 == k2,
{
    if k1 != 0 {
        lemma_castling_text_rights(k1);
    }
    if k2 != 0 {
        lemma_castling_text_rights(k2);
    }
    if k1 == 0 || k2 == 0 {
        assert(castling_text(k1)[0] == castling_text(k2)[0]);
    }
}

proof fn lemma_en_passant_text_injective(v1: BoardView, v2: BoardView)
    requires
        v1.side == v2.side,
        v1.cur_en_passant() < 8 || v1.cur_en_passant() == 64,
        v2.cur_en_passant() < 8 || v2.cur_en_passant() == 64,
        en_passant_text(v1) == en_passant_text(v2),
    ensures
        v1.cur_en_passant() == v2.cur_en_passant(),
{
    assert(en_passant_text(v1)[0] == en_passant_text(v2)[0]);
}

proof fn lemma_halfmove_text_injective(h1: int, h2: int)
    requires
        0 <= h1 <= 999,
        0 <= h2 <= 999,
        halfmove_text(h1) == halfmove_text(h2),
    ensures
        h1 == h2,
{
    lemma_halfmove_text(h1);
    lemma_halfmove_text(h2);
}

proof fn lemma_fields_split(
    x1: u8,
    c1: Seq<u8>,
    e1: Seq<u8>,
    h1: Seq<u8>,
    t1: Seq<u8>,
    x2: u8,
    c2: Seq<u8>,
    e2: Seq<u8>,
    h2: Seq<u8>,
    t2: Seq<u8>,
)
    requires
        no_space(c1),
        no_space(e1),
        no_space(h1),
        no_space(c2),
        no_space(e2),
        no_space(h2),
        seq![x1, 32u8] + c1 + seq![32u8] + e1 + seq![32u8] + h1 + seq![32u8] + t1 == seq![x2, 32u8]
            + c2 + seq![32u8] + e2 + seq![32u8] + h2 + seq![32u8] + t2,
    ensures
        x1 == x2,
        c1 == c2,
        e1 == e2,
        h1 == h2,
{
    let g1 = seq![x1, 32u8] + c1 + seq![32u8] + e1 + seq![32u8] + h1 + seq![32u8] + t1;
    let g2 = seq![x2, 32u8] + c2 + seq![32u8] + e2 + seq![32u8] + h2 + seq![32u8] + t2;
    assert(g1[0] == x1);
    assert(g2[0] == x2);
    let q1 = h1 + seq![32u8] + t1;
    let q2 = h2 + seq![32u8] + t2;
    let r1 = e1 + seq![32u8] + q1;
    let r2 = e2 + seq![32u8] + q2;
    assert(g1.subrange(2, g1.len() as int) =~= c1 + seq![32u8] + r1);
    assert(g2.subrange(2, g2.len() as int) =~= c2 + seq![32u8] + r2);
    lemma_split_at_space(c1, c2, r1, r2);
    lemma_split_at_space(e1, e2, q1, q2);
    lemma_split_at_space(h1, h2, t1, t2);
}

/// The fields of a record determine the side to move and the root state.
proof fn lemma_fields_injective(b1: BoardView, b2: BoardView, t1: Seq<u8>, t2: Seq<u8>)
    requires
        b1.cur_castling() < 16,
        b2.cur_castling() < 16,
        b1.cur_en_passant() < 8 || b1.cur_en_passant() == 64,
        b2.cur_en_passant() < 8 || b2.cur_en_passant() == 64,
        b1.cur_halfmove() <= 999,
        b2.cur_halfmove() <= 999,
        fields_text(b1) + t1 == fields_text(b2) + t2,
    ensures
        b1.side == b2.side,
        b1.cur_castling() == b2.cur_castling(),
        b1.cur_en_passant() == b2.cur_en_passant(),
        b1.cur_halfmove() == b2.cur_halfmove(),
{
    lemma_fields_no_space(b1);
    lemma_fields_no_space(b2);
    let x1 = if b1.side == Color::White { 119u8 } else { 98u8 };
    let x2 = if b2.side == Color::White { 119u8 } else { 98u8 };
    lemma_fields_split(
        x1,
        castling_text(b1.cur_castling()),
        en_passant_text(b1),
        halfmove_text(b1.cur_halfmove() as int),
        t1,
        x2,
        castling_text(b2.cur_castling()),
        en_passant_text(b2),
        halfmove_text(b2.cur_halfmove() as int),
        t2,
    );
    lemma_castling_text_injective(b1.cur_castling(), b2.cur_castling());
    lemma_en_passant_text_injective(b1, b2);
    lemma_halfmove_text_injective(b1.cur_halfmove() as int, b2.cur_halfmove() as int);
}

/// Different root boards have different records: a record determines the
/// board it was written from, whatever follows it.
pub proof fn lemma_record_injective(b1: BoardView, b2: BoardView, t1: Seq<u8>, t2: Seq<u8>)
    requires
        b1.wf(),
        b2.wf(),
        b1.ply == 0,
        b2.ply == 0,
        b1.cur_halfmove() <= 999,
        b2.cur_halfmove() <= 999,
        record_head(b1) + t1 == record_head(b2) + t2,
    ensures
        b1 == b2,
{
    let s1 = b1.squares;
    let s2 = b2.squares;
    lemma_ranks_text_tail(s1, 8);
    lemma_ranks_text_tail(s2, 8);
    let f1 = seq![32u8] + fields_text(b1) + t1;
    let f2 = seq![32u8] + fields_text(b2) + t2;
    assert(record_head(b1) + t1 =~= ranks_tail(s1, 0, 8) + f1);
    assert(record_head(b2) + t2 =~= ranks_tail(s2, 0, 8) + f2);
    lemma_ranks_tail_injective(s1, s2, 0, f1, f2);
    assert(s1 =~= s2);
    assert(fields_text(b1) + t1 =~= f1.subrange(1, f1.len() as int));
    assert(fields_text(b2) + t2 =~= f2.subrange(1, f2.len() as int));
    assert(b1.castling[0] < 16 && b2.castling[0] < 16);
    assert(b1.en_passant[0] < 8 || b1.en_passant[0] == 64);
    assert(b2.en_passant[0] < 8 || b2.en_passant[0] == 64);
    lemma_fields_injective(b1, b2, t1, t2);
    assert(b1.castling =~= b2.castling);
    assert(b1.en_passant =~= b2.en_passant);
    assert(b1.halfmove =~= b2.halfmove);
}

/// The cells of rank `y` of a board diagram from file `x` on: ` . ` for a
/// vacant square, the letter of the piece between spaces otherwise.
pub open spec fn cells_text(s: Seq<Piece>, y: int, x: int) -> Seq<u8>
    decreases 8 - x,
{
    if x >= 8 || x < 0 {
        Seq::empty()
    } else {
        (if s[8 * y + x].is_empty() {
            seq![32u8, 46u8, 32u8]
        } else {
            seq![32u8, s[8 * y + x].letter_spec(), 32u8]
        }) + cells_text(s, y, x + 1)
    }
}

/// The line of rank `y` of a board diagram: its digit, a bar and the cells.
pub open spec fn rank_line(s: Seq<Piece>, y: int) -> Seq<u8> {
    seq![32u8, digit(y + 1), 32u8, 124u8] + cells_text(s, y, 0) + seq![10u8]
}

/// The lines of the top `n` ranks of a board diagram, rank 8 first.
pub open spec fn rank_lines(s: Seq<Piece>, n: int) -> Seq<u8>
    decreases n,
{
    if n <= 0 {
        Seq::empty()
    } else {
        rank_lines(s, n - 1) + rank_line(s, 8 - n)
    }
}

/// The first `n` marks under a board diagram, each under its column: a dash,
/// or the letter of the file.
pub open spec fn footer_text(n: int, letters: bool) -> Seq<u8>
    decreases n,
{
    if n <= 0 {
        seq![32u8, 32u8, 32u8, 32u8, 32u8]
    } else {
        footer_text(n - 1, letters) + (if n > 1 {
            seq![32u8, 32u8]
        } else {
            Seq::empty()
        }) + seq![if letters { (96 + n) as u8 } else { 45u8 }]
    }
}

/// A board diagram: the ranks from 8 down to 1, a line of dashes and the
/// file letters.
pub open spec fn diagram_text(s: Seq<Piece>) -> Seq<u8> {
    rank_lines(s, 8) + footer_text(8, false) + seq![10u8] + footer_text(8, true)
}

} // verus!
