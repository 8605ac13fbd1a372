use vstd::prelude::*;

use crate::buffers::{
    fit_count, flatten, lemma_fit_count, lemma_flatten_len, lemma_split, lemma_start_mono,
    lemma_start_next, lemma_total_concat, start_of, total_len,
};
use crate::wal::WalState;

verus! {

/// The state after enqueuing each of `bufs` in turn.
pub open spec fn push_each(s: WalState, bufs: Seq<Seq<u8>>) -> WalState
    decreases bufs.len(),
{
    if bufs.len() == 0 {
        s
    } else {
        push_each(s, bufs.drop_last()).push(bufs.last())
    }
}

/// Enqueuing buffers one at a time leaves the queue as enqueuing them as one
/// batch does.
pub proof fn law_push_each_is_push_all(s: WalState, bufs: Seq<Seq<u8>>)
    ensures
        push_each(s, bufs) == s.push_all(bufs),
    decreases bufs.len(),
{
    if bufs.len() == 0 {
        assert(s.pending + bufs =~= s.pending);
        assert(total_len(bufs) == 0);
        assert(s.push_all(bufs) =~= s);
    } else {
        let front = bufs.drop_last();
        law_push_each_is_push_all(s, front);
        assert(bufs =~= front + seq![bufs.last()]);
        lemma_total_concat(front, seq![bufs.last()]);
        assert(seq![bufs.last()].drop_first() =~= Seq::<Seq<u8>>::empty());
        assert(total_len(seq![bufs.last()].drop_first()) == 0);
        assert((s.pending + front).push(bufs.last()) =~= s.pending + bufs);
    }
}

/// A buffer that would take the log past its maximum size, counting the
/// durable offset and the bytes queued, does not fit: `enqueue` refuses it with
/// `EndOfFile`, hands it back and leaves the queue unchanged.
pub proof fn law_enqueue_over_capacity(s: WalState, b: Seq<u8>)
    requires
        s.inv(),
        s.offset + s.queued + b.len() > s.max_bytes,
    ensures
        !s.fits(b.len()),
{
}

/// On a new log, enqueuing `bufs` and committing them in one full transfer
/// hands back every buffer, in order, each at the sum of the lengths of those
/// before it, and leaves the queue empty.
pub proof fn law_full_batch(max_bytes: nat, bufs: Seq<Seq<u8>>)
    requires
        max_bytes <= usize::MAX,
        total_len(bufs) <= max_bytes,
    ensures
        ({
            let s = push_each(WalState::fresh(max_bytes, 0), bufs);
            let n = total_len(bufs);
            &&& s.inv()
            &&& s.committed_count(n) == bufs.len()
            &&& s.committed(n) == Seq::new(bufs.len(), |i: int| (bufs[i], start_of(bufs, i)))
            &&& s.after_transfer(n).pending.len() == 0
            &&& s.after_transfer(n).queued == 0
            &&& s.after_transfer(n).offset == n
        }),
{
    let s0 = WalState::fresh(max_bytes, 0);
    law_push_each_is_push_all(s0, bufs);
    let s = s0.push_all(bufs);
    assert(s.pending =~= bufs);
    let n = total_len(bufs);
    lemma_fit_count(bufs, n as int);
    let k = fit_count(bufs, n as int);
    assert(bufs.take(bufs.len() as int) =~= bufs);
    if k < bufs.len() {
        lemma_start_mono(bufs, k + 1 as int, bufs.len() as int);
    }
    assert(s.committed(n) =~= Seq::new(bufs.len(), |i: int| (bufs[i], start_of(bufs, i))));
}

/// The durable offset moves past every buffer a write completes as part of the
/// commit itself: it ends where the last committed buffer ends, so it is the
/// same whether the caller takes each buffer from the `Wrote` or drops it.
pub proof fn law_offset_covers_commit(s: WalState, n: nat)
    requires
        s.inv(),
        n <= s.queued,
    ensures
        ({
            let c = s.committed(n);
            let t = s.after_transfer(n);
            &&& forall|i: int| 0 <= i < c.len() ==> c[i].1 + c[i].0.len() <= t.offset
            &&& c.len() > 0 ==> c.last().1 + c.last().0.len() == t.offset
            &&& c.len() == 0 ==> t.offset == s.offset
        }),
{
    let bufs = s.pending;
    let k = s.committed_count(n);
    lemma_fit_count(bufs, (s.partial + n) as int);
    assert forall|i: int| 0 <= i < k implies s.committed(n)[i].1 + s.committed(n)[i].0.len()
        <= s.after_transfer(n).offset by {
        lemma_start_next(bufs, i);
        lemma_start_mono(bufs, i + 1, k as int);
    }
    if k > 0 {
        lemma_start_next(bufs, k - 1);
    } else {
        assert(bufs.take(0) =~= Seq::<Seq<u8>>::empty());
        assert(total_len(bufs.take(0)) == 0);
    }
}

/// `fit_count` is the only count whose buffers fit while the next does not.
proof fn lemma_fit_count_unique(bufs: Seq<Seq<u8>>, budget: int, k: int)
    requires
        0 <= budget,
        0 <= k <= bufs.len(),
        start_of(bufs, k) <= budget,
        k < bufs.len() ==> start_of(bufs, k + 1) > budget,
    ensures
        fit_count(bufs, budget) == k,
{
    lemma_fit_count(bufs, budget);
    let f = fit_count(bufs, budget) as int;
    if f < k {
        lemma_start_mono(bufs, f + 1, k);
    } else if f > k {
        lemma_start_mono(bufs, k + 1, f);
    }
}

/// Buffer `i` is found in the bytes of the sequence between its start and the
/// start of the next.
proof fn lemma_locate(bufs: Seq<Seq<u8>>, i: int)
    requires
        0 <= i < bufs.len(),
    ensures
        flatten(bufs).subrange(start_of(bufs, i) as int, start_of(bufs, i) + bufs[i].len() as int) == bufs[i],
{
    lemma_split(bufs, i);
    let rest = bufs.skip(i);
    assert(rest[0] == bufs[i]);
    assert(flatten(rest) == rest[0] + flatten(rest.drop_first()));
    assert(flatten(bufs).subrange(start_of(bufs, i) as int, start_of(bufs, i) + bufs[i].len() as int)
        =~= bufs[i]);
}

/// When a batched write's bytes complete the first `k` pending buffers and stop
/// inside the next, exactly those `k` buffers are committed, the others stay
/// pending, and the next batched write carries exactly the bytes not yet
/// transferred: none twice, none left out.
pub proof fn law_partial_transfer(s: WalState, n: nat, k: nat)
    requires
        s.inv(),
        n <= s.queued,
        k < s.pending.len(),
        start_of(s.pending, k as int) <= s.partial + n < start_of(s.pending, k + 1 as int),
    ensures
        s.committed_count(n) == k,
        s.committed(n).len() == k,
        s.after_transfer(n).pending == s.pending.skip(k as int),
        s.after_transfer(n).unsent() == s.unsent().skip(n as int),
{
    let bufs = s.pending;
    lemma_fit_count_unique(bufs, (s.partial + n) as int, k as int);
    lemma_transfer_unsent(s, n);
}

/// After a transfer of `n` bytes the bytes still to send are those that were
/// still to send, less the first `n`.
proof fn lemma_transfer_unsent(s: WalState, n: nat)
    requires
        s.inv(),
        n <= s.queued,
    ensures
        s.after_transfer(n).unsent() == s.unsent().skip(n as int),
{
    let bufs = s.pending;
    let k = s.committed_count(n) as int;
    lemma_fit_count(bufs, (s.partial + n) as int);
    lemma_split(bufs, k);
    lemma_flatten_len(bufs);
    assert(s.after_transfer(n).unsent() =~= s.unsent().skip(n as int));
}

/// Round trip: take a file that holds the committed bytes followed by the
/// bytes of the first pending buffer already transferred, and append what a
/// batched write of `n` bytes carries. Each buffer that write commits is then
/// found in the file at the offset reported for it, and the file stands in the
/// same relation to the new state.
pub proof fn law_offsets_locate_bytes(s: WalState, file: Seq<u8>, n: nat)
    requires
        s.inv(),
        n <= s.queued,
        file.len() == s.offset + s.partial,
        file.skip(s.offset as int) == flatten(s.pending).take(s.partial as int),
    ensures
        ({
            let f = file + s.unsent().take(n as int);
            let c = s.committed(n);
            let t = s.after_transfer(n);
            &&& forall|i: int| 0 <= i < c.len() ==> f.subrange(c[i].1 as int, c[i].1 + c[i].0.len() as int)
                == c[i].0
            &&& f.len() == t.offset + t.partial
            &&& f.skip(t.offset as int) == flatten(t.pending).take(t.partial as int)
        }),
{
    let bufs = s.pending;
    let k = s.committed_count(n) as int;
    let fl = flatten(bufs);
    lemma_flatten_len(bufs);
    lemma_fit_count(bufs, (s.partial + n) as int);
    lemma_split(bufs, k);
    let f = file + s.unsent().take(n as int);
    assert(file =~= file.take(s.offset as int) + fl.take(s.partial as int));
    assert(f =~= file.take(s.offset as int) + fl.take(s.partial + n as int));
    assert forall|i: int| 0 <= i < k implies f.subrange(
        s.committed(n)[i].1 as int,
        s.committed(n)[i].1 + s.committed(n)[i].0.len() as int,
    ) == s.committed(n)[i].0 by {
        lemma_locate(bufs, i);
        lemma_start_next(bufs, i);
        lemma_start_mono(bufs, i + 1, k);
        assert(f.subrange(
            s.offset + start_of(bufs, i) as int,
            s.offset + start_of(bufs, i) + bufs[i].len() as int,
        ) =~= fl.subrange(start_of(bufs, i) as int, start_of(bufs, i) + bufs[i].len() as int));
    }
    let t = s.after_transfer(n);
    assert(f.skip(t.offset as int) =~= flatten(t.pending).take(t.partial as int));
}

/// The pending buffers as `WAL::pending_slice` gives them.
pub open spec fn pending_slices(s: WalState) -> Seq<Seq<u8>> {
    Seq::new(
        s.pending.len(),
        |i: int|
            if i == 0 {
                s.pending[0].skip(s.partial as int)
            } else {
                s.pending[i]
            },
    )
}

/// The pending slices laid end to end are exactly the bytes not yet
/// transferred, so a batched write over them resends nothing and skips nothing.
pub proof fn law_slices_carry_unsent(s: WalState)
    requires
        s.inv(),
    ensures
        flatten(pending_slices(s)) == s.unsent(),
{
    let v = pending_slices(s);
    if s.pending.len() == 0 {
        assert(flatten(s.pending).skip(0) =~= flatten(s.pending));
    } else {
        assert(v.drop_first() =~= s.pending.drop_first());
        assert(s.unsent() =~= v[0] + flatten(v.drop_first()));
    }
}

} // verus!
