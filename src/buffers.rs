use vstd::prelude::*;

verus! {

/// Total number of bytes in a sequence of buffers.
pub open spec fn total_len(bufs: Seq<Seq<u8>>) -> nat
    decreases bufs.len(),
{
    if bufs.len() == 0 {
        0
    } else {
        bufs[0].len() + total_len(bufs.drop_first())
    }
}

/// The bytes of a sequence of buffers laid end to end.
pub open spec fn flatten(bufs: Seq<Seq<u8>>) -> Seq<u8>
    decreases bufs.len(),
{
    if bufs.len() == 0 {
        Seq::empty()
    } else {
        bufs[0] + flatten(bufs.drop_first())
    }
}

/// How many buffers, counted from the front, fit whole within `budget` bytes.
pub open spec fn fit_count(bufs: Seq<Seq<u8>>, budget: int) -> nat
    decreases bufs.len(),
{
    if bufs.len() == 0 || bufs[0].len() > budget {
        0
    } else {
        1 + fit_count(bufs.drop_first(), budget - bufs[0].len())
    }
}

/// Byte position, relative to the first buffer, at which buffer `i` starts.
pub open spec fn start_of(bufs: Seq<Seq<u8>>, i: int) -> nat {
    total_len(bufs.take(i))
}

pub proof fn lemma_total_concat(a: Seq<Seq<u8>>, b: Seq<Seq<u8>>)
    ensures
        total_len(a + b) == total_len(a) + total_len(b),
        flatten(a + b) == flatten(a) + flatten(b),
    decreases a.len(),
{
    if a.len() == 0 {
        assert(a + b =~= b);
        assert(flatten(a) + flatten(b) =~= flatten(b));
    } else {
        lemma_total_concat(a.drop_first(), b);
        assert((a + b).drop_first() =~= a.drop_first() + b);
        assert(flatten(a + b) =~= flatten(a) + flatten(b));
    }
}

pub proof fn lemma_flatten_len(a: Seq<Seq<u8>>)
    ensures
        flatten(a).len() == total_len(a),
    decreases a.len(),
{
    if a.len() > 0 {
        lemma_flatten_len(a.drop_first());
    }
}

pub proof fn lemma_total_single(b: Seq<u8>)
    ensures
        total_len(seq![b]) == b.len(),
        flatten(seq![b]) == b,
{
    assert(seq![b].drop_first() =~= Seq::<Seq<u8>>::empty());
    assert(total_len(seq![b].drop_first()) == 0);
    assert(flatten(seq![b].drop_first()) == Seq::<u8>::empty());
    assert(b + Seq::<u8>::empty() =~= b);
}

/// Splitting a sequence of buffers at `i` splits its bytes at `start_of(bufs, i)`.
pub proof fn lemma_split(bufs: Seq<Seq<u8>>, i: int)
    requires
        0 <= i <= bufs.len(),
    ensures
        total_len(bufs) == start_of(bufs, i) + total_len(bufs.skip(i)),
        flatten(bufs) == flatten(bufs.take(i)) + flatten(bufs.skip(i)),
        flatten(bufs.take(i)).len() == start_of(bufs, i),
{
    assert(bufs =~= bufs.take(i) + bufs.skip(i));
    lemma_total_concat(bufs.take(i), bufs.skip(i));
    lemma_flatten_len(bufs.take(i));
}

/// The start of buffer `i + 1` is the start of buffer `i` plus its length.
pub proof fn lemma_start_next(bufs: Seq<Seq<u8>>, i: int)
    requires
        0 <= i < bufs.len(),
    ensures
        start_of(bufs, i + 1) == start_of(bufs, i) + bufs[i].len(),
{
    assert(bufs.take(i + 1) =~= bufs.take(i) + seq![bufs[i]]);
    lemma_total_concat(bufs.take(i), seq![bufs[i]]);
    lemma_total_single(bufs[i]);
}

/// Buffer starts never decrease.
pub proof fn lemma_start_mono(bufs: Seq<Seq<u8>>, i: int, j: int)
    requires
        0 <= i <= j <= bufs.len(),
    ensures
        start_of(bufs, i) <= start_of(bufs, j),
    decreases j - i,
{
    if i < j {
        lemma_start_mono(bufs, i, j - 1);
        lemma_start_next(bufs, j - 1);
    }
}

/// `fit_count` is the number `k` of leading buffers with
/// `start_of(bufs, k) <= budget`, where either all buffers fit or buffer `k` does not.
pub proof fn lemma_fit_count(bufs: Seq<Seq<u8>>, budget: int)
    requires
        0 <= budget,
    ensures
        fit_count(bufs, budget) <= bufs.len(),
        start_of(bufs, fit_count(bufs, budget) as int) <= budget,
        fit_count(bufs, budget) < bufs.len() ==> start_of(bufs, fit_count(bufs, budget) + 1 as int)
            > budget,
    decreases bufs.len(),
{
    let k = fit_count(bufs, budget);
    if bufs.len() == 0 || bufs[0].len() > budget {
        assert(bufs.take(0) =~= Seq::<Seq<u8>>::empty());
        assert(total_len(bufs.take(0)) == 0);
        if bufs.len() > 0 {
            lemma_start_next(bufs, 0);
        }
    } else {
        let rest = bufs.drop_first();
        let b2 = budget - bufs[0].len();
        lemma_fit_count(rest, b2);
        let k2 = fit_count(rest, b2);
        assert(bufs.take(k as int) =~= seq![bufs[0]] + rest.take(k2 as int));
        lemma_total_concat(seq![bufs[0]], rest.take(k2 as int));
        lemma_total_single(bufs[0]);
        if k < bufs.len() {
            assert(bufs.take(k + 1 as int) =~= seq![bufs[0]] + rest.take(k2 + 1 as int));
            lemma_total_concat(seq![bufs[0]], rest.take(k2 + 1 as int));
        }
    }
}

} // verus!
