//! The ring itself: fixed storage, three indices, and the operations that
//! move pairs of elements through it.
//!
//! Every operation is specified against [`RingState`], the model of the
//! module `ring`. A ring is used by one producer and one consumer, each of
//! which moves only its own index; here the two take turns on one `&mut`.

use crate::error::Error;
use crate::ring::{
    advance, forward_distance, lemma_advance_inverts_distance, lemma_ring_arithmetic, RingState,
};
use vstd::prelude::*;

verus! {

/// What never changes once a ring is built: its storage, the size of one
/// element in bytes, and the number of slots.
#[derive(Debug)]
pub struct Meta<T> {
    buffer: Vec<Option<T>>,
    elem_size: usize,
    buffer_size: usize,
}

/// A ring of elements of type `T`, which go in and come out in pairs.
#[derive(Debug)]
pub struct CohortFifo<T: Copy> {
    head: usize,
    meta: Meta<T>,
    hw_tail: usize,
    batch_size: Option<usize>,
    sw_tail: usize,
}

/// The batch size as the model holds it.
pub open spec fn batch_of(batch_size: Option<usize>) -> Option<nat> {
    match batch_size {
        None => None,
        Some(n) => Some(n as nat),
    }
}

/// Why `new` turns a request down, or `None` where it builds the ring. An
/// odd capacity is refused first; a ring without batching reports it with
/// the capacity, a batching ring without. Then the batch size must be at
/// least 2, and even, and no larger than the capacity.
pub open spec fn rejection(capacity: usize, batch_size: Option<usize>) -> Option<Error> {
    match batch_size {
        None => if capacity % 2 != 0 {
            Some(Error::Capacity(capacity))
        } else {
            None
        },
        Some(n) => if capacity % 2 != 0 {
            Some(Error::CapacityNotEven)
        } else if n < 2 {
            Some(Error::BatchSizeTooSmall)
        } else if n % 2 != 0 {
            Some(Error::BatchSizeNotEven)
        } else if capacity < n {
            Some(Error::CapacityLessThanBatchSize)
        } else {
            None
        },
    }
}

/// Says whether a ring of this capacity and batch size can be built, and
/// if not, why not.
pub fn validate(capacity: usize, batch_size: Option<usize>) -> (r: Result<(), Error>)
    ensures
        r == match rejection(capacity, batch_size) {
            None => Ok::<(), Error>(()),
            Some(e) => Err::<(), Error>(e),
        },
{
    if capacity % 2 != 0 {
        return Err(
            match batch_size {
                None => Error::Capacity(capacity),
                Some(_) => Error::CapacityNotEven,
            },
        );
    }
    if let Some(n) = batch_size {
        if n < 2 {
            return Err(Error::BatchSizeTooSmall);
        }
        if n % 2 != 0 {
            return Err(Error::BatchSizeNotEven);
        }
        if capacity < n {
            return Err(Error::CapacityLessThanBatchSize);
        }
    }
    Ok(())
}

/// The slot `steps` forward of `index`, computed without leaving `usize`.
fn step_forward(index: usize, steps: usize, size: usize) -> (r: usize)
    requires
        index < size,
        steps <= size,
    ensures
        r == advance(index as int, steps as int, size as int),
        r < size,
{
    proof {
        lemma_ring_arithmetic(index as int, steps as int, size as int);
    }
    if index < size - steps {
        index + steps
    } else {
        index - (size - steps)
    }
}

/// The number of steps forward from `from` to `to`.
fn steps_between(from: usize, to: usize, size: usize) -> (r: usize)
    requires
        from < size,
        to < size,
    ensures
        r == forward_distance(from as int, to as int, size as int),
        r < size,
{
    proof {
        lemma_ring_arithmetic(from as int, to as int, size as int);
    }
    if to >= from {
        to - from
    } else {
        size - from + to
    }
}

impl<T: Copy> View for CohortFifo<T> {
    type V = RingState<T>;

    closed spec fn view(&self) -> RingState<T> {
        RingState {
            slots: self.meta.buffer@,
            head: self.head as nat,
            sw_tail: self.sw_tail as nat,
            hw_tail: self.hw_tail as nat,
            batch: batch_of(self.batch_size),
        }
    }
}

impl<T: Copy> CohortFifo<T> {
    /// Whether the metadata describes the storage: the recorded number of
    /// slots is the length of the storage, and the recorded element size is
    /// the size of `T`.
    pub closed spec fn meta_matches_storage(&self) -> bool {
        &&& self.meta.buffer_size == self.meta.buffer@.len()
        &&& self.meta.elem_size == vstd::layout::size_of::<T>()
    }

    /// The invariant of a ring: its state is one that the model allows, and
    /// its metadata describes its storage. `new` establishes it and every
    /// operation keeps it.
    pub open spec fn wf(&self) -> bool {
        &&& self@.wf()
        &&& self.meta_matches_storage()
    }

    /// Builds an empty ring that can hold `capacity` elements, with the
    /// given batch size or, for `None`, without batching.
    pub fn new(capacity: usize, batch_size: Option<usize>) -> (r: Result<Self, Error>)
        ensures
            match r {
                Ok(fifo) => {
                    &&& rejection(capacity, batch_size) is None
                    &&& fifo.wf()
                    &&& fifo@ == RingState::<T>::fresh(capacity as nat, batch_of(batch_size))
                    &&& fifo@.capacity() == capacity
                },
                Err(e) => rejection(capacity, batch_size) == Some(e),
            },
    {
        if let Err(e) = validate(capacity, batch_size) {
            return Err(e);
        }
        let buffer_size: usize = capacity + 1;
        let mut buffer: Vec<Option<T>> = Vec::new();
        while buffer.len() < buffer_size
            invariant
                buffer@.len() <= buffer_size,
                forall|i: int| 0 <= i < buffer@.len() ==> buffer@[i] == None::<T>,
            decreases buffer_size - buffer@.len(),
        {
            buffer.push(None);
        }
        let fifo = CohortFifo {
            head: 0,
            meta: Meta { buffer, elem_size: core::mem::size_of::<T>(), buffer_size },
            hw_tail: 0,
            batch_size,
            sw_tail: 0,
        };
        proof {
            lemma_ring_arithmetic(0, 0, buffer_size as int);
            assert(fifo@.slots =~= RingState::<T>::fresh(
                capacity as nat,
                batch_of(batch_size),
            ).slots);
        }
        Ok(fifo)
    }
}

/// A full memory barrier: `std::sync::atomic::fence` with sequentially
/// consistent ordering. It returns nothing and changes no value that the
/// library holds, so nothing is claimed of it.
#[verifier::external_body]
fn full_fence() {
    std::sync::atomic::fence(std::sync::atomic::Ordering::SeqCst);
}

impl<T: Copy> CohortFifo<T> {
    /// The number of slots: one more than the capacity, the extra slot
    /// telling a full ring from an empty one.
    pub fn buffer_size(&self) -> (r: usize)
        requires
            self.wf(),
        ensures
            r == self@.buffer_size(),
            r == self@.capacity() + 1,
    {
        self.meta.buffer_size
    }

    /// The number of elements that the ring can hold.
    pub fn capacity(&self) -> (r: usize)
        requires
            self.wf(),
        ensures
            r == self@.capacity(),
    {
        self.buffer_size() - 1
    }

    /// The size of one element in bytes.
    pub fn elem_size(&self) -> (r: usize)
        requires
            self.wf(),
        ensures
            r == vstd::layout::size_of::<T>(),
    {
        self.meta.elem_size
    }

    /// The batch size, or `None` for a ring without batching.
    pub fn batch_size(&self) -> (r: Option<usize>)
        ensures
            batch_of(r) == self@.batch,
    {
        self.batch_size
    }

    /// The storage, slot by slot. A slot that was never written holds
    /// `None`.
    pub fn buffer(&self) -> (r: &[Option<T>])
        ensures
            r@ == self@.slots,
    {
        self.meta.buffer.as_slice()
    }

    /// The slot that the next pop reads.
    pub fn head(&self) -> (r: usize)
        ensures
            r == self@.head,
    {
        self.head
    }

    /// The slot that the next push writes.
    pub fn sw_tail(&self) -> (r: usize)
        ensures
            r == self@.sw_tail,
    {
        self.sw_tail
    }

    /// The tail as last published to the consumer side.
    pub fn hw_tail(&self) -> (r: usize)
        ensures
            r == self@.hw_tail,
    {
        self.hw_tail
    }

    /// Moves the head, between two barriers.
    fn set_head(&mut self, head: usize)
        ensures
            final(self).head == head,
            final(self).meta == old(self).meta,
            final(self).hw_tail == old(self).hw_tail,
            final(self).sw_tail == old(self).sw_tail,
            final(self).batch_size == old(self).batch_size,
    {
        full_fence();
        self.head = head;
        full_fence();
    }

    /// Moves the published tail, between two barriers.
    fn set_hw_tail(&mut self, tail: usize)
        ensures
            final(self).hw_tail == tail,
            final(self).meta == old(self).meta,
            final(self).head == old(self).head,
            final(self).sw_tail == old(self).sw_tail,
            final(self).batch_size == old(self).batch_size,
    {
        full_fence();
        self.hw_tail = tail;
        full_fence();
    }

    /// Moves the producer's tail, between two barriers.
    fn set_sw_tail(&mut self, tail: usize)
        ensures
            final(self).sw_tail == tail,
            final(self).meta == old(self).meta,
            final(self).head == old(self).head,
            final(self).hw_tail == old(self).hw_tail,
            final(self).batch_size == old(self).batch_size,
    {
        full_fence();
        self.sw_tail = tail;
        full_fence();
    }

    /// Whether the ring has no room for another pair.
    pub fn is_full(&self) -> (r: bool)
        requires
            self.wf(),
        ensures
            r == self@.is_full(),
            r == (self@.unread() == self@.capacity()),
    {
        proof {
            self@.lemma_full_and_empty();
        }
        self.head == step_forward(self.sw_tail, 1, self.meta.buffer_size)
    }

    /// Whether the ring holds nothing.
    pub fn is_empty(&self) -> (r: bool)
        requires
            self.wf(),
        ensures
            r == self@.is_empty(),
            r == (self@.unread() == 0),
    {
        proof {
            self@.lemma_full_and_empty();
        }
        self.head == self.sw_tail
    }

    /// The number of steps forward from the producer's tail to the head.
    pub fn num_elems(&self) -> (r: usize)
        requires
            self.wf(),
        ensures
            r == self@.num_elems(),
    {
        steps_between(self.sw_tail, self.head, self.meta.buffer_size)
    }

    /// The number of elements pushed and not yet popped.
    pub fn unread(&self) -> (r: usize)
        requires
            self.wf(),
        ensures
            r == self@.unread(),
            r == self@.queued().len(),
    {
        steps_between(self.head, self.sw_tail, self.meta.buffer_size)
    }
}

impl<T: Copy> CohortFifo<T> {
    /// Pushes the pair `(elem1, elem2)`, or reports `Full` and leaves the
    /// ring as it is.
    ///
    /// On success the pair is written at the producer's tail, which moves on
    /// by two, and the pair is the newest of the queue. Without batching it
    /// is published at once. With batching it is staged until the staged
    /// elements make a whole batch, which is then published together.
    pub fn try_push(&mut self, elem1: &T, elem2: &T) -> (r: Result<(), Error>)
        requires
            old(self).wf(),
        ensures
            final(self).wf(),
            r == if old(self)@.is_full() {
                Err::<(), Error>(Error::Full)
            } else {
                Ok::<(), Error>(())
            },
            final(self)@ == old(self)@.try_push(*elem1, *elem2),
            r is Err <==> old(self)@.unread() == old(self)@.capacity(),
            r is Err ==> final(self)@ == old(self)@,
            r is Ok ==> final(self)@.queued() == old(self)@.queued() + seq![*elem1, *elem2],
    {
        if self.is_full() {
            return Err(Error::Full);
        }
        proof {
            self@.lemma_full_and_empty();
            self@.lemma_push(*elem1, *elem2);
        }
        let size: usize = self.meta.buffer_size;
        let tail: usize = self.sw_tail;
        let next: usize = step_forward(tail, 2, size);
        self.meta.buffer.set(tail, Some(*elem1));
        self.meta.buffer.set(step_forward(tail, 1, size), Some(*elem2));
        self.set_sw_tail(next);
        let publish: bool = match self.batch_size {
            None => true,
            Some(n) => steps_between(self.hw_tail, next, size) >= n,
        };
        if publish {
            self.set_hw_tail(next);
        }
        Ok(())
    }

    /// Pushes the pair `(elem1, elem2)`, trying until there is room. Nobody
    /// else can make room while this call holds the ring, so the ring must
    /// have room when it is called.
    pub fn push(&mut self, elem1: &T, elem2: &T)
        requires
            old(self).wf(),
            !old(self)@.is_full(),
        ensures
            final(self).wf(),
            final(self)@ == old(self)@.push(*elem1, *elem2),
            final(self)@.queued() == old(self)@.queued() + seq![*elem1, *elem2],
    {
        loop
            invariant_except_break
                self.wf(),
                self@ == old(self)@,
                !self@.is_full(),
            ensures
                self.wf(),
                self@ == old(self)@.push(*elem1, *elem2),
                self@.queued() == old(self)@.queued() + seq![*elem1, *elem2],
            decreases 0int,
        {
            if self.try_push(elem1, elem2).is_ok() {
                break;
            }
        }
    }

    /// Pops the oldest published pair into `elem1` and `elem2`, or reports
    /// `Empty` and leaves the head and both outputs as they are.
    ///
    /// A batching ring first takes the published tail for the producer's
    /// tail, so that what was staged and not published leaves the queue. A
    /// pair is handed out only where at least two elements are then unread.
    pub fn try_pop(&mut self, elem1: &mut T, elem2: &mut T) -> (r: Result<(), Error>)
        requires
            old(self).wf(),
        ensures
            final(self).wf(),
            r == if old(self)@.published_len() >= 2 {
                Ok::<(), Error>(())
            } else {
                Err::<(), Error>(Error::Empty)
            },
            final(self)@ == old(self)@.try_pop(),
            r is Ok ==> {
                &&& *final(elem1) == old(self)@.published()[0]
                &&& *final(elem2) == old(self)@.published()[1]
                &&& final(self)@.published() == old(self)@.published().skip(2)
            },
            r is Err ==> {
                &&& *final(elem1) == *old(elem1)
                &&& *final(elem2) == *old(elem2)
                &&& final(self)@.head == old(self)@.head
                &&& final(self)@.published() == old(self)@.published()
            },
            final(self)@.queued() == final(self)@.published(),
            old(self)@.is_empty() ==> r is Err && final(self)@ == old(self)@,
    {
        proof {
            self@.lemma_resync();
            self@.lemma_full_and_empty();
            self@.lemma_queued_is_published_then_staged();
        }
        if self.batch_size.is_some() {
            let published: usize = self.hw_tail;
            self.set_sw_tail(published);
        }
        if self.unread() < 2 {
            return Err(Error::Empty);
        }
        proof {
            self@.lemma_pop();
            self@.pop().lemma_queued_is_published_then_staged();
            lemma_ring_arithmetic(self.head as int, self.head as int, self.meta.buffer_size as int);
            lemma_advance_inverts_distance(self.head as int, 1, self.meta.buffer_size as int);
        }
        let size: usize = self.meta.buffer_size;
        let head: usize = self.head;
        *elem1 = self.meta.buffer[head].unwrap();
        *elem2 = self.meta.buffer[step_forward(head, 1, size)].unwrap();
        self.set_head(step_forward(head, 2, size));
        Ok(())
    }

    /// Pops the oldest published pair into `elem1` and `elem2`, trying until
    /// there is one. Nobody else can publish while this call holds the
    /// ring, so a pair must be published when it is called.
    pub fn pop(&mut self, elem1: &mut T, elem2: &mut T)
        requires
            old(self).wf(),
            old(self)@.published_len() >= 2,
        ensures
            final(self).wf(),
            final(self)@ == old(self)@.resync().pop(),
            *final(elem1) == old(self)@.published()[0],
            *final(elem2) == old(self)@.published()[1],
            final(self)@.published() == old(self)@.published().skip(2),
            final(self)@.queued() == final(self)@.published(),
    {
        loop
            invariant_except_break
                self.wf(),
                self@ == old(self)@,
                self@.published_len() >= 2,
            ensures
                self.wf(),
                self@ == old(self)@.resync().pop(),
                *elem1 == old(self)@.published()[0],
                *elem2 == old(self)@.published()[1],
                self@.published() == old(self)@.published().skip(2),
                self@.queued() == self@.published(),
            decreases 0int,
        {
            if let Ok(()) = self.try_pop(elem1, elem2) {
                break;
            }
        }
    }
}

impl<T: Copy> CohortFifo<T> {
    /// Walks the storage from the producer's tail forward to the head, and
    /// returns each slot passed with its index: `num_elems()` slots, the one
    /// at the tail first.
    pub fn iter(&self) -> (r: Vec<(usize, Option<T>)>)
        requires
            self.wf(),
        ensures
            r@.len() == self@.num_elems(),
            forall|i: int|
                0 <= i < r@.len() ==> {
                    &&& (#[trigger] r@[i]).0 == advance(
                        self@.sw_tail as int,
                        i,
                        self@.buffer_size() as int,
                    )
                    &&& r@[i].1 == self@.slots[r@[i].0 as int]
                },
    {
        let size: usize = self.meta.buffer_size;
        let count: usize = self.num_elems();
        let mut items: Vec<(usize, Option<T>)> = Vec::new();
        let mut passed: usize = 0;
        while passed < count
            invariant
                self.wf(),
                size == self.meta.buffer_size,
                count < size,
                passed <= count,
                items@.len() == passed,
                forall|i: int|
                    0 <= i < passed ==> {
                        &&& (#[trigger] items@[i]).0 == advance(
                            self@.sw_tail as int,
                            i,
                            size as int,
                        )
                        &&& items@[i].1 == self@.slots[items@[i].0 as int]
                    },
            decreases count - passed,
        {
            let index: usize = step_forward(self.sw_tail, passed, size);
            items.push((index, self.meta.buffer[index]));
            passed = passed + 1;
        }
        items
    }
}

} // verus!
