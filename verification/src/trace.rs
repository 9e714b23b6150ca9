//! What holds of a ring over a whole run of pushes and pops.

use crate::ring::{advance, lemma_ring_arithmetic, RingState};
use vstd::prelude::*;

verus! {

/// One attempt on a ring.
pub enum RingOp<T> {
    /// An attempt to push this pair.
    Push(T, T),
    /// An attempt to pop a pair.
    Pop,
}

impl<T> RingState<T> {
    /// The ring after one attempt.
    pub open spec fn step(self, op: RingOp<T>) -> Self {
        match op {
            RingOp::Push(a, b) => self.try_push(a, b),
            RingOp::Pop => self.try_pop(),
        }
    }

    /// The elements that one attempt puts into the ring: the pair of a push
    /// that finds room, and nothing otherwise.
    pub open spec fn taken(self, op: RingOp<T>) -> Seq<T> {
        match op {
            RingOp::Push(a, b) => if self.is_full() {
                Seq::empty()
            } else {
                seq![a, b]
            },
            RingOp::Pop => Seq::empty(),
        }
    }

    /// The elements that one attempt hands out: the pair of a pop that
    /// finds one published, and nothing otherwise.
    pub open spec fn given(self, op: RingOp<T>) -> Seq<T> {
        match op {
            RingOp::Push(a, b) => Seq::empty(),
            RingOp::Pop => if self.published_len() >= 2 {
                seq![self.resync().front().0, self.resync().front().1]
            } else {
                Seq::empty()
            },
        }
    }

    /// The ring after a run of attempts, made in order.
    pub open spec fn run(self, ops: Seq<RingOp<T>>) -> Self
        decreases ops.len(),
    {
        if ops.len() == 0 {
            self
        } else {
            self.run(ops.drop_last()).step(ops.last())
        }
    }

    /// Everything that a run puts into the ring, in order.
    pub open spec fn accepted(self, ops: Seq<RingOp<T>>) -> Seq<T>
        decreases ops.len(),
    {
        if ops.len() == 0 {
            Seq::empty()
        } else {
            self.accepted(ops.drop_last()) + self.run(ops.drop_last()).taken(ops.last())
        }
    }

    /// Everything that a run hands out, in order.
    pub open spec fn delivered(self, ops: Seq<RingOp<T>>) -> Seq<T>
        decreases ops.len(),
    {
        if ops.len() == 0 {
            Seq::empty()
        } else {
            self.delivered(ops.drop_last()) + self.run(ops.drop_last()).given(ops.last())
        }
    }

    /// Whether a run loses nothing: none of its pops comes while elements
    /// are staged, which the pop's resync would drop.
    pub open spec fn lossless(self, ops: Seq<RingOp<T>>) -> bool
        decreases ops.len(),
    {
        if ops.len() == 0 {
            true
        } else {
            &&& self.lossless(ops.drop_last())
            &&& ops.last() is Pop ==> self.run(ops.drop_last()).staged_len() == 0
        }
    }

    /// One attempt keeps a ring well-formed, with its size and its batch
    /// size.
    pub proof fn lemma_step_keeps_wf(self, op: RingOp<T>)
        requires
            self.wf(),
        ensures
            self.step(op).wf(),
            self.step(op).slots.len() == self.slots.len(),
            self.step(op).batch == self.batch,
    {
        match op {
            RingOp::Push(a, b) => {
                if !self.is_full() {
                    self.lemma_push(a, b);
                }
            },
            RingOp::Pop => {
                self.lemma_resync();
                if self.published_len() >= 2 {
                    self.resync().lemma_pop();
                }
            },
        }
    }

    /// A run keeps a ring well-formed, with its size and its batch size.
    pub proof fn lemma_run_keeps_wf(self, ops: Seq<RingOp<T>>)
        requires
            self.wf(),
        ensures
            self.run(ops).wf(),
            self.run(ops).slots.len() == self.slots.len(),
            self.run(ops).batch == self.batch,
        decreases ops.len(),
    {
        if ops.len() > 0 {
            self.lemma_run_keeps_wf(ops.drop_last());
            self.run(ops.drop_last()).lemma_step_keeps_wf(ops.last());
        }
    }

    /// First in, first out. Over any run that loses nothing, what was
    /// queued at the start followed by what the run put in is what the run
    /// handed out followed by what is queued at the end. So the pops hand
    /// out the elements in the order in which they were pushed, none left
    /// out and none twice.
    pub proof fn lemma_fifo_order(self, ops: Seq<RingOp<T>>)
        requires
            self.wf(),
            self.lossless(ops),
        ensures
            self.queued() + self.accepted(ops) == self.delivered(ops) + self.run(ops).queued(),
        decreases ops.len(),
    {
        if ops.len() == 0 {
            assert(self.queued() + Seq::<T>::empty() =~= Seq::<T>::empty() + self.queued());
        } else {
            let before = self.run(ops.drop_last());
            let op = ops.last();
            self.lemma_fifo_order(ops.drop_last());
            self.lemma_run_keeps_wf(ops.drop_last());
            let put_in = self.accepted(ops.drop_last());
            let handed_out = self.delivered(ops.drop_last());
            match op {
                RingOp::Push(a, b) => {
                    if before.is_full() {
                        assert(put_in + Seq::<T>::empty() =~= put_in);
                        assert(handed_out + Seq::<T>::empty() =~= handed_out);
                    } else {
                        before.lemma_push(a, b);
                        assert(handed_out + Seq::<T>::empty() =~= handed_out);
                        assert(self.queued() + (put_in + seq![a, b]) =~= (self.queued() + put_in)
                            + seq![a, b]);
                        assert(handed_out + (before.queued() + seq![a, b]) =~= (handed_out
                            + before.queued()) + seq![a, b]);
                    }
                },
                RingOp::Pop => {
                    before.lemma_resync();
                    before.lemma_queued_is_published_then_staged();
                    assert(put_in + Seq::<T>::empty() =~= put_in);
                    assert(before.published() + Seq::<T>::empty() =~= before.published());
                    if before.published_len() >= 2 {
                        before.lemma_pop();
                        let pair = seq![before.front().0, before.front().1];
                        assert(pair + before.queued().skip(2) =~= before.queued());
                        assert((handed_out + pair) + before.queued().skip(2) =~= handed_out + (pair
                            + before.queued().skip(2)));
                    } else {
                        assert(handed_out + Seq::<T>::empty() =~= handed_out);
                    }
                },
            }
        }
    }

    /// A ring without batching, or with a batch of one pair, never has
    /// anything staged, so none of its runs loses anything.
    pub proof fn lemma_unbatched_runs_are_lossless(self, ops: Seq<RingOp<T>>)
        requires
            self.wf(),
            self.batch is None || self.batch == Some(2nat),
        ensures
            self.lossless(ops),
        decreases ops.len(),
    {
        if ops.len() > 0 {
            self.lemma_unbatched_runs_are_lossless(ops.drop_last());
            self.lemma_run_keeps_wf(ops.drop_last());
        }
    }
}

/// The run that pushes the given pairs, one after the other.
pub open spec fn pushes<T>(items: Seq<(T, T)>) -> Seq<RingOp<T>> {
    Seq::new(items.len(), |i: int| RingOp::Push(items[i].0, items[i].1))
}

/// The run of `n` pops.
pub open spec fn pops<T>(n: nat) -> Seq<RingOp<T>> {
    Seq::new(n, |i: int| RingOp::Pop)
}

/// The elements of the given pairs, in order.
pub open spec fn flatten<T>(items: Seq<(T, T)>) -> Seq<T>
    decreases items.len(),
{
    if items.len() == 0 {
        Seq::empty()
    } else {
        flatten(items.drop_last()) + seq![items.last().0, items.last().1]
    }
}

impl<T> RingState<T> {
    /// Pushing pairs into a ring that has room for all of them queues them
    /// in order behind what was queued, and hands nothing out.
    pub proof fn lemma_fill(self, items: Seq<(T, T)>)
        requires
            self.wf(),
            self.unread() + 2 * items.len() <= self.capacity(),
        ensures
            self.run(pushes(items)).wf(),
            self.run(pushes(items)).slots.len() == self.slots.len(),
            self.run(pushes(items)).batch == self.batch,
            self.run(pushes(items)).head == self.head,
            self.run(pushes(items)).unread() == self.unread() + 2 * items.len(),
            self.run(pushes(items)).queued() == self.queued() + flatten(items),
            self.accepted(pushes(items)) == flatten(items),
            self.delivered(pushes(items)) == Seq::<T>::empty(),
        decreases items.len(),
    {
        let ops = pushes(items);
        if items.len() == 0 {
            assert(self.queued() + flatten(items) =~= self.queued());
        } else {
            let last = items.last();
            assert(ops.drop_last() =~= pushes(items.drop_last()));
            assert(ops.last() == RingOp::Push(last.0, last.1));
            self.lemma_fill(items.drop_last());
            let before = self.run(pushes(items.drop_last()));
            before.lemma_full_and_empty();
            before.lemma_push(last.0, last.1);
            assert(self.queued() + (flatten(items.drop_last()) + seq![last.0, last.1]) =~= (
            self.queued() + flatten(items.drop_last())) + seq![last.0, last.1]);
            assert(Seq::<T>::empty() + Seq::<T>::empty() =~= Seq::<T>::empty());
        }
    }

    /// Popping `n` times where at least `n` pairs are published hands out
    /// the oldest `n` of them.
    proof fn lemma_drain_some(self, n: nat)
        requires
            self.wf(),
            2 * n <= self.published_len(),
        ensures
            self.run(pops(n)).wf(),
            self.run(pops(n)).slots == self.slots,
            self.run(pops(n)).batch == self.batch,
            self.run(pops(n)).hw_tail == self.hw_tail,
            n == 0 ==> self.run(pops(n)) == self,
            n > 0 ==> self.run(pops(n)).sw_tail == self.hw_tail,
            self.delivered(pops(n)) == self.published().take(2 * n as int),
            self.run(pops(n)).published() == self.published().skip(2 * n as int),
            self.run(pops(n)).published_len() == self.published_len() - 2 * n,
        decreases n,
    {
        let ops = pops::<T>(n);
        let all = self.published();
        if n == 0 {
            assert(all.take(0) =~= Seq::<T>::empty());
            assert(all.skip(0) =~= all);
        } else {
            let fewer = (n - 1) as nat;
            assert(ops.drop_last() =~= pops::<T>(fewer));
            assert(ops.last() == RingOp::<T>::Pop);
            self.lemma_drain_some(fewer);
            let before = self.run(pops::<T>(fewer));
            before.lemma_try_pop();
            let m = 2 * fewer as int;
            assert(all.take(m) + seq![all[m], all[m + 1]] =~= all.take(m + 2));
            assert(all.skip(m).skip(2) =~= all.skip(m + 2));
        }
    }

    /// Popping `n` times where at most `n` pairs are published hands out all
    /// of them and leaves the head on the published tail.
    proof fn lemma_drain_all(self, n: nat)
        requires
            self.wf(),
            2 * n >= self.published_len(),
        ensures
            self.run(pops(n)).wf(),
            self.run(pops(n)).slots == self.slots,
            self.run(pops(n)).batch == self.batch,
            self.run(pops(n)).hw_tail == self.hw_tail,
            n == 0 ==> self.run(pops(n)) == self,
            n > 0 ==> self.run(pops(n)).sw_tail == self.hw_tail,
            self.delivered(pops(n)) == self.published(),
            self.run(pops(n)).published_len() == 0,
            self.run(pops(n)).head == self.hw_tail,
        decreases n,
    {
        let ops = pops::<T>(n);
        let all = self.published();
        if 2 * n == self.published_len() {
            self.lemma_drain_some(n);
            assert(all.take(2 * n as int) =~= all);
            self.run(ops).lemma_try_pop();
        } else {
            let fewer = (n - 1) as nat;
            assert(ops.drop_last() =~= pops::<T>(fewer));
            assert(ops.last() == RingOp::<T>::Pop);
            self.lemma_drain_all(fewer);
            self.run(pops::<T>(fewer)).lemma_try_pop();
            assert(all + Seq::<T>::empty() =~= all);
        }
    }

    /// Popping `n` times hands out the oldest `2 * n` published elements in
    /// order, or all of them where there are fewer, and touches neither the
    /// storage nor the published tail.
    pub proof fn lemma_drain(self, n: nat)
        requires
            self.wf(),
        ensures
            self.run(pops(n)).wf(),
            self.run(pops(n)).slots == self.slots,
            self.run(pops(n)).batch == self.batch,
            self.run(pops(n)).hw_tail == self.hw_tail,
            n == 0 ==> self.run(pops(n)) == self,
            n > 0 ==> self.run(pops(n)).sw_tail == self.hw_tail,
            2 * n <= self.published_len() ==> {
                &&& self.delivered(pops(n)) == self.published().take(2 * n as int)
                &&& self.run(pops(n)).published() == self.published().skip(2 * n as int)
                &&& self.run(pops(n)).published_len() == self.published_len() - 2 * n
            },
            2 * n >= self.published_len() ==> {
                &&& self.delivered(pops(n)) == self.published()
                &&& self.run(pops(n)).published_len() == 0
                &&& self.run(pops(n)).head == self.hw_tail
            },
    {
        if 2 * n <= self.published_len() {
            self.lemma_drain_some(n);
        }
        if 2 * n >= self.published_len() {
            self.lemma_drain_all(n);
        }
    }

    /// A round trip. Take an empty ring, push as many pairs as it holds, and
    /// pop as many times. The pushes fill it; after the pops it is empty
    /// again, with its three indices on one slot. Where the last push left
    /// nothing staged, which is always so without batching, the pops hand
    /// out every element pushed, in order, and the indices have gone round
    /// by the capacity: they stand one slot short of where they began, and
    /// where they began only in a ring of capacity 0.
    pub proof fn lemma_round_trip(self, items: Seq<(T, T)>)
        requires
            self.wf(),
            self.is_empty(),
            2 * items.len() == self.capacity(),
        ensures
            ({
                let filled = self.run(pushes(items));
                let drained = filled.run(pops(items.len()));
                &&& filled.is_full()
                &&& filled.queued() == flatten(items)
                &&& drained.wf()
                &&& drained.is_empty()
                &&& drained.unread() == 0
                &&& drained.head == drained.sw_tail
                &&& drained.head == drained.hw_tail
                &&& filled.staged_len() == 0 ==> {
                    &&& filled.delivered(pops(items.len())) == flatten(items)
                    &&& drained.head == advance(
                        self.head as int,
                        self.capacity() as int,
                        self.slots.len() as int,
                    )
                }
                &&& self.capacity() == 0 ==> drained == self
            }),
    {
        let size = self.slots.len() as int;
        let n = items.len();
        self.lemma_full_and_empty();
        self.lemma_fill(items);
        let filled = self.run(pushes(items));
        filled.lemma_full_and_empty();
        filled.lemma_queued_is_published_then_staged();
        assert(self.queued() =~= Seq::<T>::empty());
        assert(self.queued() + flatten(items) =~= flatten(items));
        filled.lemma_drain(n);
        let drained = filled.run(pops::<T>(n));
        lemma_ring_arithmetic(filled.hw_tail as int, filled.sw_tail as int, size);
        lemma_ring_arithmetic(filled.head as int, filled.sw_tail as int, size);
        lemma_ring_arithmetic(self.head as int, self.capacity() as int, size);
        lemma_ring_arithmetic(self.head as int, self.sw_tail as int, size);
        drained.lemma_full_and_empty();
        if filled.staged_len() == 0 {
            assert(filled.staged() =~= Seq::<T>::empty());
            assert(filled.published() + Seq::<T>::empty() =~= filled.published());
        }
        if self.capacity() == 0 {
            assert(pushes(items) =~= Seq::<RingOp<T>>::empty());
        }
    }

    /// Batching. A well-formed ring with batch size `n` has fewer than `n`
    /// elements staged, before and after any attempt. An attempt leaves the
    /// published tail where it is, unless it is a push that completes a
    /// batch: that one moves it by exactly `n`. And a resync takes away from
    /// the queue what is staged and no more, so a consumer that resyncs
    /// misses fewer than `n` of the elements pushed.
    pub proof fn lemma_batching(self, n: nat, op: RingOp<T>)
        requires
            self.wf(),
            self.batch == Some(n),
        ensures
            self.staged_len() < n,
            self.step(op).staged_len() < n,
            self.step(op).hw_tail == self.hw_tail || (op is Push && self.step(op).hw_tail
                == advance(self.hw_tail as int, n as int, self.slots.len() as int)),
            self.resync().unread() + self.staged_len() == self.unread(),
            self.resync().queued() == self.published(),
    {
        self.lemma_step_keeps_wf(op);
        self.lemma_resync();
        self.lemma_queued_is_published_then_staged();
        match op {
            RingOp::Push(a, b) => {
                if !self.is_full() {
                    self.lemma_push(a, b);
                }
            },
            RingOp::Pop => {},
        }
    }

    /// A new ring. For an even capacity, and a batch size that is even, at
    /// least 2 and no larger than the capacity, the new ring is well-formed,
    /// holds nothing, and has the capacity asked for.
    pub proof fn lemma_fresh(capacity: nat, batch: Option<nat>)
        requires
            capacity % 2 == 0,
            batch matches Some(n) ==> n >= 2 && n % 2 == 0 && n <= capacity,
        ensures
            Self::fresh(capacity, batch).wf(),
            Self::fresh(capacity, batch).capacity() == capacity,
            Self::fresh(capacity, batch).is_empty(),
            Self::fresh(capacity, batch).queued() == Seq::<T>::empty(),
            capacity > 0 ==> !Self::fresh(capacity, batch).is_full(),
    {
        let state = Self::fresh(capacity, batch);
        lemma_ring_arithmetic(0, 0, capacity as int + 1);
        lemma_ring_arithmetic(0, 1, capacity as int + 1);
        assert(state.queued() =~= Seq::<T>::empty());
    }
}

} // verus!
