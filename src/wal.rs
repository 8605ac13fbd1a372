use vstd::prelude::*;

use crate::buffers::{
    fit_count, flatten, lemma_fit_count, lemma_split, lemma_start_mono, lemma_start_next,
    lemma_total_concat, lemma_total_single, start_of, total_len,
};
use crate::error::{EnqueueError, FromFileError, WriteError};
use crate::stats::Stats;
use crate::wrote::{Wrote, WroteState};
use WriteStep::{Done, Sync, Transfer};

verus! {

/// The abstract value of a [`WAL`].
pub struct WalState {
    /// Capacity ceiling of the log file, fixed at creation.
    pub max_bytes: nat,
    /// Durable offset: bytes of the file taken by buffers already committed.
    pub offset: nat,
    /// Bytes of the first pending buffer already transferred to the file.
    pub partial: nat,
    /// Pending bytes not yet transferred to the file.
    pub queued: nat,
    /// Buffers not yet committed, in order.
    pub pending: Seq<Seq<u8>>,
}

impl WalState {
    /// An empty queue over a file of `offset` bytes.
    pub open spec fn fresh(max_bytes: nat, offset: nat) -> WalState {
        WalState { max_bytes, offset, partial: 0, queued: 0, pending: Seq::empty() }
    }

    /// Internal consistency of the counters with the pending buffers.
    pub open spec fn inv(self) -> bool {
        &&& self.partial + self.queued == total_len(self.pending)
        &&& self.offset + self.partial + self.queued <= self.max_bytes
        &&& self.max_bytes <= usize::MAX
        &&& self.partial > 0 ==> self.pending.len() > 0 && self.partial < self.pending[0].len()
    }

    /// The logical end of all data ever accepted.
    pub open spec fn end(self) -> nat {
        self.offset + self.partial + self.queued
    }

    /// Whether `len` more bytes can be accepted.
    pub open spec fn fits(self, len: nat) -> bool {
        self.end() + len <= self.max_bytes
    }

    /// `st` describes the queue's depth.
    pub open spec fn has_stats(self, st: Stats) -> bool {
        st.blocks == self.pending.len() && st.bytes == self.queued
    }

    /// The state after accepting `buf`.
    pub open spec fn push(self, buf: Seq<u8>) -> WalState {
        WalState { pending: self.pending.push(buf), queued: self.queued + buf.len(), ..self }
    }

    /// The state after accepting `bufs`.
    pub open spec fn push_all(self, bufs: Seq<Seq<u8>>) -> WalState {
        WalState {
            pending: self.pending + bufs,
            queued: self.queued + total_len(bufs),
            ..self
        }
    }

    /// The bytes the next batched write must carry.
    pub open spec fn unsent(self) -> Seq<u8> {
        flatten(self.pending).skip(self.partial as int)
    }

    /// Number of pending buffers that `n` more transferred bytes complete.
    pub open spec fn committed_count(self, n: nat) -> nat {
        fit_count(self.pending, (self.partial + n) as int)
    }

    /// Bytes taken by the buffers that `n` more transferred bytes complete.
    pub open spec fn committed_len(self, n: nat) -> nat {
        start_of(self.pending, self.committed_count(n) as int)
    }

    /// The buffers that `n` more transferred bytes complete, each with the file
    /// offset at which it starts.
    pub open spec fn committed(self, n: nat) -> Seq<(Seq<u8>, nat)> {
        Seq::new(
            self.committed_count(n),
            |i: int| (self.pending[i], self.offset + start_of(self.pending, i)),
        )
    }

    /// The state after a batched write transferred `n` bytes: the buffers it
    /// completed are committed, those after stay pending.
    pub open spec fn after_transfer(self, n: nat) -> WalState {
        WalState {
            max_bytes: self.max_bytes,
            offset: self.offset + self.committed_len(n),
            partial: (self.partial + n - self.committed_len(n)) as nat,
            queued: (self.queued - n) as nat,
            pending: self.pending.skip(self.committed_count(n) as int),
        }
    }

    /// `w` is the result of a write that committed nothing.
    pub open spec fn idle_result(self, w: WroteState) -> bool {
        &&& self.has_stats(w.before)
        &&& w.after == w.before
        &&& w.wrote.blocks == 0 && w.wrote.bytes == 0
        &&& w.items.len() == 0
    }

    /// `w` is the result of a write that transferred `n` bytes from this state.
    pub open spec fn transfer_result(self, n: nat, w: WroteState) -> bool {
        &&& self.has_stats(w.before)
        &&& self.after_transfer(n).has_stats(w.after)
        &&& w.wrote.blocks == self.committed_count(n) && w.wrote.bytes == n
        &&& w.items == self.committed(n)
    }
}

/// How the bytes of one batched write fall on the pending buffers.
#[derive(Clone, Copy, Debug, PartialEq, Eq, Structural)]
pub struct BlockWrite {
    /// File position at which the transferred bytes begin.
    pub start_position: usize,
    /// Buffers completed by the write.
    pub blocks: usize,
    /// Bytes transferred.
    pub bytes: usize,
    /// Bytes of the first buffer left pending that are now in the file.
    pub partial: usize,
}

/// What the owner of the file does next in a commit.
#[derive(Debug)]
pub enum WriteStep<E> {
    /// Hand the pending bytes to one batched write, then call `end_transfer`.
    Transfer,
    /// Flush the file to stable storage, then call `end_sync`.
    Sync(Wrote),
    /// The commit is over.
    Done(Result<Wrote, WriteError<E>>),
}

/// A write-ahead log over an append-only file: a queue of byte buffers that
/// are committed to the file in batches.
///
/// This type decides; the owner of the file performs each batched write and
/// durability barrier that `begin_write` and `end_transfer` ask for.
/// A buffer stays owned by the queue from `enqueue` until a commit hands it
/// back through a [`Wrote`].
#[derive(Debug)]
pub struct WAL {
    max_bytes: usize,
    offset: usize,
    partial: usize,
    queued: usize,
    sources: Vec<Vec<u8>>,
}

impl View for WAL {
    type V = WalState;

    closed spec fn view(&self) -> WalState {
        WalState {
            max_bytes: self.max_bytes as nat,
            offset: self.offset as nat,
            partial: self.partial as nat,
            queued: self.queued as nat,
            pending: self.sources@.map_values(|b: Vec<u8>| b@),
        }
    }
}

impl WAL {
    pub open spec fn wf(&self) -> bool {
        self@.inv()
    }

    /// An empty log over a new, empty file.
    pub fn new(max_bytes: usize) -> (r: WAL)
        ensures
            r.wf(),
            r@ == WalState::fresh(max_bytes as nat, 0),
    {
        WAL::with_capacity(max_bytes, 0)
    }

    /// `new`, with room for `capacity` buffers reserved in the queue.
    pub fn with_capacity(max_bytes: usize, capacity: usize) -> (r: WAL)
        ensures
            r.wf(),
            r@ == WalState::fresh(max_bytes as nat, 0),
    {
        let r = WAL { max_bytes, offset: 0, partial: 0, queued: 0, sources: Vec::with_capacity(capacity) };
        assert(r@.pending =~= Seq::<Seq<u8>>::empty());
        r
    }

    /// An empty log over an existing file, given the outcome of seeking to its
    /// end. The file must leave room to append.
    pub fn from_seek<E>(end: Result<u64, E>, max_bytes: usize, capacity: usize) -> (r: Result<WAL, FromFileError<E>>)
        ensures
            match end {
                Err(e) => r == Err::<WAL, FromFileError<E>>(FromFileError::Seek(e)),
                Ok(len) => if len >= max_bytes {
                    r == Err::<WAL, FromFileError<E>>(FromFileError::TooBig)
                } else {
                    r is Ok && r->Ok_0.wf() && r->Ok_0@ == WalState::fresh(max_bytes as nat, len as nat)
                },
            },
    {
        match end {
            Err(e) => Err(FromFileError::Seek(e)),
            Ok(len) => {
                if len >= max_bytes as u64 {
                    Err(FromFileError::TooBig)
                } else {
                    let r = WAL {
                        max_bytes,
                        offset: len as usize,
                        partial: 0,
                        queued: 0,
                        sources: Vec::with_capacity(capacity),
                    };
                    assert(r@.pending =~= Seq::<Seq<u8>>::empty());
                    Ok(r)
                }
            },
        }
    }

    /// The capacity ceiling.
    pub fn max_bytes(&self) -> (r: usize)
        ensures
            r == self@.max_bytes,
    {
        self.max_bytes
    }

    /// The durable offset: where the next committed buffer will start.
    pub fn offset(&self) -> (r: usize)
        ensures
            r == self@.offset,
    {
        self.offset
    }

    /// The queue's depth: pending buffers, and bytes not yet transferred.
    pub fn stats(&self) -> (r: Stats)
        ensures
            self@.has_stats(r),
    {
        Stats::new(self.sources.len(), self.queued)
    }

    /// Appends `data` to the queue for the next write and returns the queue's
    /// new depth. When accepting it would take the log past `max_bytes`,
    /// fails with `EndOfFile`, handing `data` back and leaving the queue as it was.
    pub fn enqueue(&mut self, data: Vec<u8>) -> (r: Result<Stats, EnqueueError<Vec<u8>>>)
        requires
            old(self).wf(),
        ensures
            final(self).wf(),
            old(self)@.fits(data@.len()) ==> r is Ok && final(self)@ == old(self)@.push(data@)
                && final(self)@.has_stats(r->Ok_0),
            !old(self)@.fits(data@.len()) ==> r == Err::<Stats, EnqueueError<Vec<u8>>>(
                EnqueueError::EndOfFile(data),
            ) && final(self)@ == old(self)@,
    {
        let room = self.max_bytes - (self.offset + self.partial + self.queued);
        if data.len() > room {
            Err(EnqueueError::EndOfFile(data))
        } else {
            let ghost prev = self@;
            let len = data.len();
            proof {
                lemma_total_concat(prev.pending, seq![data@]);
                lemma_total_single(data@);
                assert(prev.pending + seq![data@] =~= prev.pending.push(data@));
            }
            self.sources.push(data);
            self.queued = self.queued + len;
            assert(self@.pending =~= prev.pending.push(data@));
            Ok(self.stats())
        }
    }

    /// Appends all of `data`, in order, or none of it: when the batch as a whole
    /// would take the log past `max_bytes`, fails with `EndOfFile`, handing the
    /// batch back and leaving the queue as it was.
    pub fn enqueue_all(&mut self, data: Vec<Vec<u8>>) -> (r: Result<Stats, EnqueueError<Vec<Vec<u8>>>>)
        requires
            old(self).wf(),
        ensures
            final(self).wf(),
            ({
                let bufs = data@.map_values(|b: Vec<u8>| b@);
                &&& old(self)@.fits(total_len(bufs)) ==> r is Ok && final(self)@ == old(self)@.push_all(bufs)
                    && final(self)@.has_stats(r->Ok_0)
                &&& !old(self)@.fits(total_len(bufs)) ==> r == Err::<Stats, EnqueueError<Vec<Vec<u8>>>>(
                    EnqueueError::EndOfFile(data),
                ) && final(self)@ == old(self)@
            }),
    {
        let ghost bufs = data@.map_values(|b: Vec<u8>| b@);
        let room = self.max_bytes - (self.offset + self.partial + self.queued);
        let mut bytes: usize = 0;
        let mut i: usize = 0;
        while i < data.len() && data[i].len() <= room - bytes
            invariant
                bufs == data@.map_values(|b: Vec<u8>| b@),
                i <= data@.len(),
                bytes == start_of(bufs, i as int),
                bytes <= room,
            decreases data@.len() - i,
        {
            proof {
                lemma_start_next(bufs, i as int);
            }
            bytes = bytes + data[i].len();
            i = i + 1;
        }
        if i < data.len() {
            proof {
                lemma_start_next(bufs, i as int);
                lemma_start_mono(bufs, i + 1, bufs.len() as int);
                assert(bufs.take(bufs.len() as int) =~= bufs);
            }
            Err(EnqueueError::EndOfFile(data))
        } else {
            let ghost prev = self@;
            proof {
                assert(bufs.take(bufs.len() as int) =~= bufs);
                lemma_total_concat(prev.pending, bufs);
            }
            let mut data = data;
            self.sources.append(&mut data);
            self.queued = self.queued + bytes;
            assert(self@.pending =~= prev.pending + bufs);
            Ok(self.stats())
        }
    }

    /// Pending buffer `i` as the next batched write must carry it: the first
    /// without the bytes of it already in the file, the others whole.
    pub fn pending_slice(&self, i: usize) -> (r: &[u8])
        requires
            self.wf(),
            i < self@.pending.len(),
        ensures
            i == 0 ==> r@ == self@.pending[0].skip(self@.partial as int),
            i > 0 ==> r@ == self@.pending[i as int],
    {
        let b = &self.sources[i];
        if i == 0 {
            vstd::slice::slice_subrange(b.as_slice(), self.partial, b.len())
        } else {
            b.as_slice()
        }
    }

    /// How `wrote_bytes` transferred bytes fall on the pending buffers: how many
    /// they complete, counted from the front, and how far they reach into the
    /// next one.
    pub fn split_transfer(&self, wrote_bytes: usize) -> (r: BlockWrite)
        requires
            self.wf(),
            wrote_bytes <= self@.queued,
        ensures
            r.start_position == self@.offset + self@.partial,
            r.blocks == self@.committed_count(wrote_bytes as nat),
            r.bytes == wrote_bytes,
            r.partial == self@.after_transfer(wrote_bytes as nat).partial,
    {
        let ghost bufs = self@.pending;
        let budget = self.partial + wrote_bytes;
        let mut k: usize = 0;
        let mut acc: usize = 0;
        proof {
            assert(bufs.skip(0) =~= bufs);
            assert(bufs.take(0) =~= Seq::<Seq<u8>>::empty());
        }
        while k < self.sources.len() && self.sources[k].len() <= budget - acc
            invariant
                self.wf(),
                bufs == self@.pending,
                budget == self@.partial + wrote_bytes,
                k <= bufs.len(),
                acc == start_of(bufs, k as int),
                acc <= budget,
                fit_count(bufs, budget as int) == k + fit_count(bufs.skip(k as int), budget - acc),
            decreases bufs.len() - k,
        {
            proof {
                lemma_start_next(bufs, k as int);
                assert(bufs.skip(k as int).drop_first() =~= bufs.skip(k + 1));
            }
            acc = acc + self.sources[k].len();
            k = k + 1;
        }
        BlockWrite { start_position: self.offset + self.partial, blocks: k, bytes: wrote_bytes, partial: budget - acc }
    }

    /// First step of a commit. With nothing pending the commit is over at once,
    /// with a result that commits nothing; else the owner of the file hands the
    /// pending bytes to one batched write.
    pub fn begin_write<E>(&self) -> (r: WriteStep<E>)
        requires
            self.wf(),
        ensures
            self@.pending.len() == 0 ==> r is Done && r->Done_0 is Ok && r->Done_0->Ok_0.wf()
                && self@.idle_result(r->Done_0->Ok_0@),
            self@.pending.len() > 0 ==> r is Transfer,
    {
        if self.sources.len() == 0 {
            Done(Ok(self.idle()))
        } else {
            Transfer
        }
    }

    fn idle(&self) -> (r: Wrote)
        requires
            self.wf(),
        ensures
            r.wf(),
            self@.idle_result(r@),
    {
        let st = self.stats();
        let r = Wrote::new(st, st, Stats::new(0, 0), Vec::new(), self.offset);
        r
    }

    /// Second step of a commit, given the outcome of the batched write. A failed
    /// write leaves the queue as it was. A write that transferred nothing ends
    /// the commit with a result that commits nothing. Otherwise the buffers that
    /// the write completed leave the queue, the durable offset moves past them,
    /// and the owner of the file flushes it to stable storage.
    pub fn end_transfer<E>(&mut self, transferred: Result<usize, E>) -> (r: WriteStep<E>)
        requires
            old(self).wf(),
            transferred is Ok ==> transferred->Ok_0 <= old(self)@.queued,
        ensures
            final(self).wf(),
            match transferred {
                Err(e) => final(self)@ == old(self)@ && r == WriteStep::<E>::Done(
                    Err(WriteError::Unwritten(e)),
                ),
                Ok(n) => if n == 0 {
                    final(self)@ == old(self)@ && r is Done && r->Done_0 is Ok
                        && r->Done_0->Ok_0.wf() && old(self)@.idle_result(r->Done_0->Ok_0@)
                } else {
                    final(self)@ == old(self)@.after_transfer(n as nat) && r is Sync
                        && r->Sync_0.wf() && old(self)@.transfer_result(n as nat, r->Sync_0@)
                },
            },
    {
        match transferred {
            Err(e) => Done(Err(WriteError::Unwritten(e))),
            Ok(n) => {
                if n == 0 {
                    Done(Ok(self.idle()))
                } else {
                    Sync(self.commit(n))
                }
            },
        }
    }

    /// Removes the buffers that `n` transferred bytes complete and hands them back.
    fn commit(&mut self, n: usize) -> (w: Wrote)
        requires
            old(self).wf(),
            n <= old(self)@.queued,
        ensures
            final(self).wf(),
            final(self)@ == old(self)@.after_transfer(n as nat),
            w.wf(),
            old(self)@.transfer_result(n as nat, w@),
    {
        let ghost prev = self@;
        let ghost bufs = prev.pending;
        let before = self.stats();
        let split = self.split_transfer(n);
        let k = split.blocks;
        let ghost kk = k as int;
        proof {
            lemma_fit_count(bufs, prev.partial + n);
            lemma_split(bufs, kk);
        }
        let committed_len = self.partial + n - split.partial;
        let mut committed = self.sources.split_off(k);
        std::mem::swap(&mut self.sources, &mut committed);
        let start = self.offset;
        self.offset = start + committed_len;
        self.partial = split.partial;
        self.queued = self.queued - n;
        assert(self@.pending =~= bufs.skip(kk));
        proof {
            if self.partial > 0 {
                if kk == bufs.len() {
                    assert(bufs.take(kk) =~= bufs);
                } else {
                    lemma_start_next(bufs, kk);
                }
            }
        }
        let after = self.stats();
        let ghost cv = committed@.map_values(|b: Vec<u8>| b@);
        assert(cv =~= bufs.take(kk));
        let w = Wrote::new(before, after, Stats::new(k, n), committed, start);
        assert forall|i: int| 0 <= i < kk implies start_of(cv, i) == start_of(bufs, i) by {
            assert(cv.take(i) =~= bufs.take(i));
        }
        assert(w@.items =~= prev.committed(n as nat));
        w
    }

    /// Last step of a commit, given the outcome of the durability barrier: the
    /// result of the write, or, when the barrier failed, `Unsynced` carrying it.
    pub fn end_sync<E>(wrote: Wrote, synced: Result<(), E>) -> (r: Result<Wrote, WriteError<E>>)
        ensures
            match synced {
                Ok(_) => r == Ok::<Wrote, WriteError<E>>(wrote),
                Err(e) => r == Err::<Wrote, WriteError<E>>(WriteError::Unsynced(e, wrote)),
            },
    {
        match synced {
            Ok(()) => Ok(wrote),
            Err(e) => Err(WriteError::Unsynced(e, wrote)),
        }
    }
}

} // verus!
