use vstd::prelude::*;

use crate::buffers::{start_of, total_len};
use crate::stats::Stats;

verus! {

/// What one write committed: queue statistics before and after it, the size of
/// the write, and the committed buffers handed back in order, each with the
/// file offset at which it now starts.
///
/// The queue's durable offset has already been advanced past every committed
/// buffer when a `Wrote` is produced, so consuming it, or dropping it early,
/// leaves the queue in the same state.
#[derive(Debug)]
pub struct Wrote {
    before: Stats,
    after: Stats,
    wrote: Stats,
    /// Buffers not yet handed back, the last one first.
    items: Vec<Vec<u8>>,
    /// Offset of the next buffer to be handed back.
    next_offset: usize,
}

/// The abstract value of a [`Wrote`].
pub struct WroteState {
    /// Queue statistics before the write.
    pub before: Stats,
    /// Queue statistics after the write.
    pub after: Stats,
    /// Buffers committed whole, and bytes transferred, by the write.
    pub wrote: Stats,
    /// The pairs still to come: each buffer with the offset at which it starts.
    pub items: Seq<(Seq<u8>, nat)>,
}

impl View for Wrote {
    type V = WroteState;

    closed spec fn view(&self) -> WroteState {
        WroteState {
            before: self.before,
            after: self.after,
            wrote: self.wrote,
            items: self.items_view(),
        }
    }
}

impl Wrote {
    /// The buffers not yet handed back, in order.
    pub closed spec fn remaining(&self) -> Seq<Seq<u8>> {
        Seq::new(self.items@.len(), |i: int| self.items@[self.items@.len() - 1 - i]@)
    }

    closed spec fn items_view(&self) -> Seq<(Seq<u8>, nat)> {
        Seq::new(
            self.items@.len(),
            |i: int| (self.remaining()[i], (self.next_offset + start_of(self.remaining(), i)) as nat),
        )
    }

    pub closed spec fn wf(&self) -> bool {
        self.next_offset + total_len(self.remaining()) <= usize::MAX
    }

    /// Takes `bufs` to hand back in order, the first starting at `start`.
    pub(crate) fn new(before: Stats, after: Stats, wrote: Stats, bufs: Vec<Vec<u8>>, start: usize) -> (r: Wrote)
        requires
            start + total_len(bufs@.map_values(|b: Vec<u8>| b@)) <= usize::MAX,
        ensures
            r.wf(),
            r@.before == before,
            r@.after == after,
            r@.wrote == wrote,
            r@.items == Seq::new(
                bufs@.len(),
                |i: int|
                    (
                        bufs@[i]@,
                        (start + start_of(bufs@.map_values(|b: Vec<u8>| b@), i)) as nat,
                    ),
            ),
    {
        let ghost orig = bufs@;
        let ghost n = bufs@.len();
        let mut bufs = bufs;
        let mut items: Vec<Vec<u8>> = Vec::new();
        while bufs.len() > 0
            invariant
                n == orig.len(),
                items@.len() + bufs@.len() == n,
                bufs@ == orig.take(bufs@.len() as int),
                forall|t: int| 0 <= t < items@.len() ==> items@[t] == orig[n - 1 - t],
            decreases bufs@.len(),
        {
            let b = bufs.pop().unwrap();
            assert(bufs@ =~= orig.take(bufs@.len() as int));
            assert(b == orig[n - 1 - items@.len()]);
            items.push(b);
        }
        let r = Wrote { before, after, wrote, items, next_offset: start };
        assert(r.remaining() =~= orig.map_values(|b: Vec<u8>| b@));
        assert(r@.items =~= Seq::new(
            n,
            |i: int| (orig[i]@, (start + start_of(orig.map_values(|b: Vec<u8>| b@), i)) as nat),
        ));
        r
    }

    /// Hands back the next committed buffer with the offset at which it starts.
    pub fn next(&mut self) -> (r: Option<(Vec<u8>, usize)>)
        requires
            old(self).wf(),
        ensures
            final(self).wf(),
            final(self)@.before == old(self)@.before,
            final(self)@.after == old(self)@.after,
            final(self)@.wrote == old(self)@.wrote,
            old(self)@.items.len() == 0 ==> r is None && final(self)@.items == old(self)@.items,
            old(self)@.items.len() > 0 ==> r is Some && (r->Some_0.0@, r->Some_0.1 as nat)
                == old(self)@.items[0] && final(self)@.items == old(self)@.items.drop_first(),
    {
        let ghost rem = self.remaining();
        match self.items.pop() {
            None => {
                assert(rem.len() == 0);
                None
            },
            Some(b) => {
                let offset = self.next_offset;
                assert(rem.drop_first() =~= self.remaining());
                assert(total_len(rem) == rem[0].len() + total_len(rem.drop_first()));
                self.next_offset = offset + b.len();
                assert forall|i: int| 0 <= i < rem.len() - 1 implies start_of(rem, i + 1) == rem[0].len()
                    + start_of(rem.drop_first(), i) by {
                    assert(rem.take(i + 1).drop_first() =~= rem.drop_first().take(i));
                }
                assert(start_of(rem, 0) == 0) by {
                    assert(rem.take(0) =~= Seq::<Seq<u8>>::empty());
                }
                assert(self@.items =~= old(self)@.items.drop_first());
                Some((b, offset))
            },
        }
    }

    /// Queue statistics before the write.
    pub fn before(&self) -> (r: Stats)
        ensures
            r == self@.before,
    {
        self.before
    }

    /// Queue statistics after the write.
    pub fn after(&self) -> (r: Stats)
        ensures
            r == self@.after,
    {
        self.after
    }

    /// Buffers committed whole, and bytes transferred, by the write.
    pub fn wrote(&self) -> (r: Stats)
        ensures
            r == self@.wrote,
    {
        self.wrote
    }

    /// Number of buffers still to be handed back.
    pub fn len(&self) -> (r: usize)
        ensures
            r == self@.items.len(),
    {
        self.items.len()
    }

    /// Exact bounds on the number of buffers still to be handed back.
    pub fn size_hint(&self) -> (r: (usize, Option<usize>))
        ensures
            r.0 == self@.items.len(),
            r.1 == Some(r.0),
    {
        let n = self.items.len();
        (n, Some(n))
    }
}

} // verus!
