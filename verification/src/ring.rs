//! The mathematical model of a ring: its slots, its three indices, and how
//! each operation moves them.
//!
//! A ring of capacity `C` owns `C + 1` slots. The extra slot is never part of
//! the queue, so that `head == tail` can only mean "empty". Elements travel
//! in pairs. The producer's tail exists twice: `sw_tail` counts every pair
//! pushed, `hw_tail` is the tail that the consumer side is shown. Without
//! batching the two always agree; with a batch size `B` the second one
//! follows the first in jumps of `B` elements.

use vstd::prelude::*;

verus! {

/// The number of steps forward that lead from slot `from` to slot `to` on a
/// ring of `size` slots.
pub open spec fn forward_distance(from: int, to: int, size: int) -> int {
    (to - from) % size
}

/// The slot reached by going `steps` forward from slot `index` on a ring of
/// `size` slots.
pub open spec fn advance(index: int, steps: int, size: int) -> int {
    (index + steps) % size
}

/// Both functions above, written without `%` for the arguments that occur on
/// a ring: a distance is the plain difference, plus one lap if that is
/// negative; a step of at most one lap wraps at most once.
pub proof fn lemma_ring_arithmetic(from: int, to: int, size: int)
    requires
        0 <= from < size,
        0 <= to <= size,
    ensures
        0 <= forward_distance(from, to, size) < size,
        0 <= advance(from, to, size) < size,
        to < size ==> forward_distance(from, to, size) == if to >= from {
            to - from
        } else {
            to - from + size
        },
        advance(from, to, size) == if from + to < size {
            from + to
        } else {
            from + to - size
        },
{
    if to < size {
        if to >= from {
            vstd::arithmetic::div_mod::lemma_fundamental_div_mod_converse(
                to - from,
                size,
                0,
                to - from,
            );
        } else {
            vstd::arithmetic::div_mod::lemma_fundamental_div_mod_converse(
                to - from,
                size,
                -1,
                to - from + size,
            );
        }
    } else if from == 0 {
        vstd::arithmetic::div_mod::lemma_fundamental_div_mod_converse(size, size, 1, 0);
    } else {
        vstd::arithmetic::div_mod::lemma_fundamental_div_mod_converse(to - from, size, 0, to - from);
    }
    if from + to < size {
        vstd::arithmetic::div_mod::lemma_fundamental_div_mod_converse(from + to, size, 0, from + to);
    } else {
        vstd::arithmetic::div_mod::lemma_fundamental_div_mod_converse(
            from + to,
            size,
            1,
            from + to - size,
        );
    }
}

/// What a ring is at one moment.
pub struct RingState<T> {
    /// The storage, one entry per slot. A slot that was never written holds
    /// `None`.
    pub slots: Seq<Option<T>>,
    /// The slot that the consumer reads next.
    pub head: nat,
    /// The slot that the producer writes next.
    pub sw_tail: nat,
    /// The tail as last published to the consumer side.
    pub hw_tail: nat,
    /// The batch size, or `None` for a ring that publishes every push.
    pub batch: Option<nat>,
}

impl<T> RingState<T> {
    /// The number of slots, which is one more than the capacity.
    pub open spec fn buffer_size(self) -> nat {
        self.slots.len()
    }

    /// The number of elements that the ring can hold.
    pub open spec fn capacity(self) -> nat {
        (self.slots.len() - 1) as nat
    }

    /// The number of elements pushed and not yet popped.
    pub open spec fn unread(self) -> nat {
        forward_distance(self.head as int, self.sw_tail as int, self.slots.len() as int) as nat
    }

    /// The number of unread elements that the consumer side has been shown.
    pub open spec fn published_len(self) -> nat {
        forward_distance(self.head as int, self.hw_tail as int, self.slots.len() as int) as nat
    }

    /// The number of elements pushed since the tail was last published.
    pub open spec fn staged_len(self) -> nat {
        forward_distance(self.hw_tail as int, self.sw_tail as int, self.slots.len() as int) as nat
    }

    /// The `len` elements stored from slot `start` onwards, oldest first.
    pub open spec fn window(self, start: nat, len: nat) -> Seq<T> {
        Seq::new(
            len,
            |i: int| self.slots[advance(start as int, i, self.slots.len() as int)].unwrap(),
        )
    }

    /// The elements that a pop can reach, oldest first.
    pub open spec fn published(self) -> Seq<T> {
        self.window(self.head, self.published_len())
    }

    /// The elements pushed since the tail was last published, oldest first.
    pub open spec fn staged(self) -> Seq<T> {
        self.window(self.hw_tail, self.staged_len())
    }

    /// All elements pushed and not yet popped, oldest first.
    pub open spec fn queued(self) -> Seq<T> {
        self.window(self.head, self.unread())
    }

    /// The states that a ring can be in: the capacity is even, every index
    /// names a slot, the published tail lies between the head and the
    /// producer's tail, elements come in pairs, no more than the capacity
    /// is queued, the staged elements are fewer than a batch, and every
    /// queued slot has been written.
    pub open spec fn wf(self) -> bool {
        &&& self.slots.len() >= 1
        &&& self.capacity() % 2 == 0
        &&& self.head < self.slots.len()
        &&& self.sw_tail < self.slots.len()
        &&& self.hw_tail < self.slots.len()
        &&& self.published_len() % 2 == 0
        &&& self.staged_len() % 2 == 0
        &&& self.published_len() + self.staged_len() <= self.capacity()
        &&& match self.batch {
            None => self.staged_len() == 0,
            Some(n) => n >= 2 && n % 2 == 0 && n <= self.capacity() && self.staged_len() < n,
        }
        &&& forall|j: int|
            0 <= j < self.slots.len() && forward_distance(
                self.head as int,
                j,
                self.slots.len() as int,
            ) < self.published_len() + self.staged_len() ==> (#[trigger] self.slots[j]) is Some
    }

    /// Whether no pair can be pushed: the slot after the producer's tail is
    /// the head.
    pub open spec fn is_full(self) -> bool {
        self.head == advance(self.sw_tail as int, 1, self.slots.len() as int)
    }

    /// Whether the producer's tail has met the head.
    pub open spec fn is_empty(self) -> bool {
        self.head == self.sw_tail
    }

    /// The number of steps forward from the producer's tail to the head.
    pub open spec fn num_elems(self) -> nat {
        forward_distance(self.sw_tail as int, self.head as int, self.slots.len() as int) as nat
    }

    /// A new ring of the given capacity: no slot written, every index at
    /// slot 0.
    pub open spec fn fresh(capacity: nat, batch: Option<nat>) -> Self {
        RingState {
            slots: Seq::new(capacity + 1, |i: int| None),
            head: 0,
            sw_tail: 0,
            hw_tail: 0,
            batch,
        }
    }

    /// The ring after a push of the pair `(a, b)`: the pair is stored at the
    /// producer's tail, which moves on by two. The published tail catches
    /// up at once without batching; with batching it does so when a whole
    /// batch is staged.
    pub open spec fn push(self, a: T, b: T) -> Self {
        let size = self.slots.len() as int;
        let tail = advance(self.sw_tail as int, 2, size) as nat;
        let publish = match self.batch {
            None => true,
            Some(n) => forward_distance(self.hw_tail as int, tail as int, size) >= n,
        };
        RingState {
            slots: self.slots.update(self.sw_tail as int, Some(a)).update(
                advance(self.sw_tail as int, 1, size),
                Some(b),
            ),
            head: self.head,
            sw_tail: tail,
            hw_tail: if publish {
                tail
            } else {
                self.hw_tail
            },
            batch: self.batch,
        }
    }

    /// The ring after the consumer has taken the published tail for the
    /// producer's tail, which a batching ring does before every pop.
    pub open spec fn resync(self) -> Self {
        RingState {
            slots: self.slots,
            head: self.head,
            sw_tail: if self.batch is Some {
                self.hw_tail
            } else {
                self.sw_tail
            },
            hw_tail: self.hw_tail,
            batch: self.batch,
        }
    }

    /// The ring after the pair at the head has been taken: the head moves on
    /// by two.
    pub open spec fn pop(self) -> Self {
        RingState {
            slots: self.slots,
            head: advance(self.head as int, 2, self.slots.len() as int) as nat,
            sw_tail: self.sw_tail,
            hw_tail: self.hw_tail,
            batch: self.batch,
        }
    }

    /// The pair at the head.
    pub open spec fn front(self) -> (T, T) {
        (
            self.slots[self.head as int].unwrap(),
            self.slots[advance(self.head as int, 1, self.slots.len() as int)].unwrap(),
        )
    }

    /// The ring after an attempt to push the pair `(a, b)`: a full ring
    /// stays as it is.
    pub open spec fn try_push(self, a: T, b: T) -> Self {
        if self.is_full() {
            self
        } else {
            self.push(a, b)
        }
    }

    /// The ring after an attempt to pop: always resynced, and without its
    /// oldest pair where one was published.
    pub open spec fn try_pop(self) -> Self {
        if self.published_len() >= 2 {
            self.resync().pop()
        } else {
            self.resync()
        }
    }
}

/// Going forward and measuring the distance undo each other.
pub proof fn lemma_advance_inverts_distance(from: int, other: int, size: int)
    requires
        0 <= from < size,
        0 <= other < size,
    ensures
        forward_distance(from, advance(from, other, size), size) == other,
        advance(from, forward_distance(from, other, size), size) == other,
{
    lemma_ring_arithmetic(from, other, size);
    lemma_ring_arithmetic(from, advance(from, other, size), size);
    lemma_ring_arithmetic(from, forward_distance(from, other, size), size);
}

/// A target that moves forward, short of a whole lap from the start, is
/// that much further away.
pub proof fn lemma_distance_grows(from: int, to: int, steps: int, size: int)
    requires
        0 <= from < size,
        0 <= to < size,
        0 <= steps,
        forward_distance(from, to, size) + steps < size,
    ensures
        0 <= advance(to, steps, size) < size,
        forward_distance(from, advance(to, steps, size), size) == forward_distance(from, to, size)
            + steps,
{
    lemma_ring_arithmetic(from, to, size);
    lemma_ring_arithmetic(to, steps, size);
    lemma_ring_arithmetic(from, advance(to, steps, size), size);
}

impl<T> RingState<T> {
    /// In a well-formed ring the published elements followed by the staged
    /// ones are the queued ones.
    pub proof fn lemma_queued_is_published_then_staged(self)
        requires
            self.wf(),
        ensures
            self.unread() == self.published_len() + self.staged_len(),
            self.queued() == self.published() + self.staged(),
    {
        let size = self.slots.len() as int;
        let h = self.head as int;
        let w = self.hw_tail as int;
        lemma_ring_arithmetic(h, w, size);
        lemma_ring_arithmetic(w, self.sw_tail as int, size);
        lemma_ring_arithmetic(h, self.sw_tail as int, size);
        let p = self.published_len() as int;
        assert forall|i: int| 0 <= i < self.unread() implies #[trigger] self.queued()[i] == (
        self.published() + self.staged())[i] by {
            lemma_ring_arithmetic(h, i, size);
            if i >= p {
                lemma_ring_arithmetic(w, i - p, size);
            }
        }
        assert(self.queued() =~= self.published() + self.staged());
    }
}

impl<T> RingState<T> {
    /// Full and empty. A well-formed ring never holds more than its
    /// capacity. It is full exactly when it holds as many elements as its
    /// capacity, and empty exactly when it holds none, so it is both only
    /// where the capacity is 0 and the one slot it owns is the spare one. A
    /// ring that is not full has room for a whole pair.
    pub proof fn lemma_full_and_empty(self)
        requires
            self.wf(),
        ensures
            self.unread() <= self.capacity(),
            self.unread() % 2 == 0,
            self.is_full() <==> self.unread() == self.capacity(),
            self.is_empty() <==> self.unread() == 0,
            self.is_full() && self.is_empty() <==> self.capacity() == 0,
            !self.is_full() ==> self.unread() + 2 <= self.capacity(),
            self.num_elems() == if self.is_empty() {
                0
            } else {
                self.buffer_size() - self.unread()
            },
    {
        let size = self.slots.len() as int;
        self.lemma_queued_is_published_then_staged();
        lemma_ring_arithmetic(self.head as int, self.sw_tail as int, size);
        lemma_ring_arithmetic(self.sw_tail as int, self.head as int, size);
        lemma_ring_arithmetic(self.sw_tail as int, 1, size);
    }

    /// How a push moves the indices of a well-formed ring with room.
    proof fn lemma_push_indices(self, a: T, b: T)
        requires
            self.wf(),
            !self.is_full(),
        ensures
            self.slots.len() >= 3,
            self.push(a, b).slots.len() == self.slots.len(),
            self.push(a, b).sw_tail < self.slots.len(),
            self.push(a, b).hw_tail < self.slots.len(),
            self.push(a, b).unread() == self.unread() + 2,
            self.unread() + 2 <= self.capacity(),
            self.unread() == self.published_len() + self.staged_len(),
            self.push(a, b).published_len() + self.push(a, b).staged_len() == self.unread() + 2,
            self.push(a, b).published_len() % 2 == 0,
            self.push(a, b).staged_len() % 2 == 0,
            match self.batch {
                None => self.push(a, b).staged_len() == 0,
                Some(n) => if self.staged_len() + 2 == n {
                    &&& self.push(a, b).staged_len() == 0
                    &&& self.push(a, b).hw_tail == advance(
                        self.hw_tail as int,
                        n as int,
                        self.slots.len() as int,
                    )
                } else {
                    &&& self.push(a, b).staged_len() == self.staged_len() + 2
                    &&& self.push(a, b).staged_len() < n
                    &&& self.push(a, b).hw_tail == self.hw_tail
                },
            },
            self.push(a, b).staged_len() == 0 ==> self.push(a, b).hw_tail == self.push(
                a,
                b,
            ).sw_tail,
            self.push(a, b).staged_len() != 0 ==> self.push(a, b).hw_tail == self.hw_tail,
    {
        let size = self.slots.len() as int;
        let h = self.head as int;
        let w = self.hw_tail as int;
        let t = self.sw_tail as int;
        let t2 = advance(t, 2, size);
        self.lemma_full_and_empty();
        self.lemma_queued_is_published_then_staged();
        let g = self.staged_len() as int;
        lemma_distance_grows(h, t, 2, size);
        lemma_distance_grows(w, t, 2, size);
        lemma_ring_arithmetic(t2, t2, size);
        assert(forward_distance(w, t2, size) == g + 2);
        if forward_distance(w, t2, size) != 0 {
            lemma_advance_inverts_distance(w, t2, size);
        }
    }

    /// What a push writes: the two slots at the producer's tail, which lie
    /// just behind the queue, and no other.
    proof fn lemma_push_slots(self, a: T, b: T)
        requires
            self.wf(),
            !self.is_full(),
        ensures
            self.push(a, b).slots[advance(
                self.head as int,
                self.unread() as int,
                self.slots.len() as int,
            )] == Some(a),
            self.push(a, b).slots[advance(
                self.head as int,
                self.unread() as int + 1,
                self.slots.len() as int,
            )] == Some(b),
            forall|i: int|
                0 <= i < self.unread() ==> self.push(a, b).slots[#[trigger] advance(
                    self.head as int,
                    i,
                    self.slots.len() as int,
                )] == self.slots[advance(self.head as int, i, self.slots.len() as int)],
    {
        let size = self.slots.len() as int;
        let h = self.head as int;
        let t = self.sw_tail as int;
        let u = self.unread() as int;
        self.lemma_full_and_empty();
        lemma_ring_arithmetic(h, t, size);
        lemma_ring_arithmetic(t, 1, size);
        lemma_ring_arithmetic(h, u, size);
        lemma_ring_arithmetic(h, u + 1, size);
        assert forall|i: int| 0 <= i < u implies self.push(a, b).slots[#[trigger] advance(
            h,
            i,
            size,
        )] == self.slots[advance(h, i, size)] by {
            lemma_ring_arithmetic(h, i, size);
        }
    }

    /// What a push does to a well-formed ring with room: the ring stays
    /// well-formed, the pair joins the queue at its end, and nothing else in
    /// the queue changes. Without batching the pair is published at once.
    /// With batching it is staged, until the staged elements make a whole
    /// batch: then all of them are published together, and the published
    /// tail has moved by exactly one batch.
    pub proof fn lemma_push(self, a: T, b: T)
        requires
            self.wf(),
            !self.is_full(),
        ensures
            self.push(a, b).wf(),
            self.push(a, b).queued() == self.queued() + seq![a, b],
            self.push(a, b).unread() == self.unread() + 2,
            match self.batch {
                None => {
                    &&& self.push(a, b).published() == self.published() + seq![a, b]
                    &&& self.push(a, b).staged() == Seq::<T>::empty()
                    &&& self.push(a, b).hw_tail == self.push(a, b).sw_tail
                },
                Some(n) => if self.staged_len() + 2 == n {
                    &&& self.push(a, b).published() == self.published() + self.staged() + seq![
                        a,
                        b,
                    ]
                    &&& self.push(a, b).staged() == Seq::<T>::empty()
                    &&& self.push(a, b).hw_tail == self.push(a, b).sw_tail
                    &&& self.push(a, b).hw_tail == advance(
                        self.hw_tail as int,
                        n as int,
                        self.slots.len() as int,
                    )
                } else {
                    &&& self.push(a, b).published() == self.published()
                    &&& self.push(a, b).staged() == self.staged() + seq![a, b]
                    &&& self.push(a, b).hw_tail == self.hw_tail
                },
            },
    {
        let size = self.slots.len() as int;
        let h = self.head as int;
        let next = self.push(a, b);
        let u = self.unread() as int;
        self.lemma_push_indices(a, b);
        self.lemma_push_slots(a, b);
        assert(next.wf()) by {
            assert forall|j: int|
                0 <= j < size && forward_distance(h, j, size) < u + 2 implies (
            #[trigger] next.slots[j]) is Some by {
                let i = forward_distance(h, j, size);
                lemma_advance_inverts_distance(h, j, size);
                if i < u {
                    assert(self.slots[j] is Some);
                    assert(next.slots[advance(h, i, size)] == self.slots[advance(h, i, size)]);
                }
            }
        }
        assert(next.queued() =~= self.queued() + seq![a, b]) by {
            assert forall|i: int| 0 <= i < u + 2 implies #[trigger] next.queued()[i] == (
            self.queued() + seq![a, b])[i] by {
                if i < u {
                    assert(next.slots[advance(h, i, size)] == self.slots[advance(h, i, size)]);
                }
            }
        }
        self.lemma_queued_is_published_then_staged();
        next.lemma_queued_is_published_then_staged();
        if next.staged_len() == 0 {
            assert(next.staged() =~= Seq::<T>::empty());
            assert(next.published() =~= next.queued());
            assert(self.published() + self.staged() + seq![a, b] =~= self.queued() + seq![a, b]);
            if self.batch is None {
                assert(self.staged() =~= Seq::<T>::empty());
                assert(self.published() + seq![a, b] =~= self.queued() + seq![a, b]);
            }
        } else {
            let p = self.published_len() as int;
            assert(next.published() =~= self.published()) by {
                assert forall|i: int| 0 <= i < p implies #[trigger] next.published()[i]
                    == self.published()[i] by {
                    assert(next.slots[advance(h, i, size)] == self.slots[advance(h, i, size)]);
                }
            }
            assert(next.staged() =~= self.staged() + seq![a, b]) by {
                assert(next.queued() == next.published() + next.staged());
                assert(self.queued() == self.published() + self.staged());
                assert forall|i: int| 0 <= i < next.staged_len() implies #[trigger] next.staged()[i]
                    == (self.staged() + seq![a, b])[i] by {
                    assert(next.staged()[i] == (next.published() + next.staged())[p + i]);
                    assert((self.queued() + seq![a, b])[p + i] == (self.staged() + seq![a, b])[i]);
                }
            }
        }
    }
}

impl<T> RingState<T> {
    /// What a resync does to a well-formed ring: the staged elements leave
    /// the queue, and the published ones stay as they are. A ring without
    /// batching has nothing staged and does not change at all.
    pub proof fn lemma_resync(self)
        requires
            self.wf(),
        ensures
            self.resync().wf(),
            self.resync().published() == self.published(),
            self.resync().queued() == self.published(),
            self.resync().staged() == Seq::<T>::empty(),
            self.resync().unread() == self.published_len(),
            self.staged_len() == 0 ==> self.resync() == self,
    {
        let size = self.slots.len() as int;
        let next = self.resync();
        self.lemma_queued_is_published_then_staged();
        lemma_ring_arithmetic(self.hw_tail as int, self.hw_tail as int, size);
        lemma_ring_arithmetic(self.hw_tail as int, self.sw_tail as int, size);
        assert(next.wf());
        next.lemma_queued_is_published_then_staged();
        assert(next.staged() =~= Seq::<T>::empty());
        assert(next.published() =~= self.published());
        assert(next.queued() =~= self.published());
    }

    /// What a pop does to a well-formed ring with a published pair: the ring
    /// stays well-formed, the pair handed out is the oldest one, and the
    /// rest of the queue stays as it is.
    pub proof fn lemma_pop(self)
        requires
            self.wf(),
            self.published_len() >= 2,
        ensures
            self.pop().wf(),
            self.front() == (self.published()[0], self.published()[1]),
            self.pop().published() == self.published().skip(2),
            self.pop().staged() == self.staged(),
            self.pop().queued() == self.queued().skip(2),
            self.pop().unread() + 2 == self.unread(),
    {
        let size = self.slots.len() as int;
        let h = self.head as int;
        let w = self.hw_tail as int;
        let t = self.sw_tail as int;
        let h2 = advance(h, 2, size);
        let next = self.pop();
        self.lemma_queued_is_published_then_staged();
        lemma_ring_arithmetic(h, 0, size);
        lemma_ring_arithmetic(h, 1, size);
        lemma_ring_arithmetic(h, 2, size);
        lemma_ring_arithmetic(h, w, size);
        lemma_ring_arithmetic(h, t, size);
        lemma_ring_arithmetic(w, t, size);
        lemma_ring_arithmetic(h2, w, size);
        lemma_ring_arithmetic(h2, t, size);
        assert(next.wf()) by {
            assert forall|j: int|
                0 <= j < size && forward_distance(h2, j, size) < next.published_len()
                    + next.staged_len() implies (#[trigger] next.slots[j]) is Some by {
                lemma_ring_arithmetic(h, j, size);
                lemma_ring_arithmetic(h2, j, size);
            }
        }
        assert(next.published() =~= self.published().skip(2)) by {
            assert forall|i: int| 0 <= i < next.published_len() implies #[trigger] next.published()[i]
                == self.published().skip(2)[i] by {
                lemma_ring_arithmetic(h, i + 2, size);
                lemma_ring_arithmetic(h2, i, size);
            }
        }
        assert(next.staged() =~= self.staged());
        next.lemma_queued_is_published_then_staged();
        assert(next.queued() =~= self.queued().skip(2));
    }
}

impl<T> RingState<T> {
    /// What an attempt to pop does to a well-formed ring. The storage and
    /// the published tail stay, and the producer's tail ends on the
    /// published one. Where a pair is published, it is the oldest pair that
    /// leaves; where none is, the head stays.
    pub proof fn lemma_try_pop(self)
        requires
            self.wf(),
        ensures
            self.try_pop().wf(),
            self.try_pop().slots == self.slots,
            self.try_pop().batch == self.batch,
            self.try_pop().hw_tail == self.hw_tail,
            self.try_pop().sw_tail == self.hw_tail,
            self.try_pop().staged_len() == 0,
            self.published_len() >= 2 ==> {
                &&& self.resync().front() == (self.published()[0], self.published()[1])
                &&& self.try_pop().published() == self.published().skip(2)
                &&& self.try_pop().published_len() == self.published_len() - 2
            },
            self.published_len() < 2 ==> {
                &&& self.published_len() == 0
                &&& self.try_pop().published() == self.published()
                &&& self.try_pop().head == self.head
                &&& self.head == self.hw_tail
            },
    {
        let size = self.slots.len() as int;
        self.lemma_resync();
        lemma_ring_arithmetic(self.hw_tail as int, self.hw_tail as int, size);
        lemma_ring_arithmetic(self.hw_tail as int, self.sw_tail as int, size);
        lemma_ring_arithmetic(self.head as int, self.hw_tail as int, size);
        if self.published_len() >= 2 {
            self.resync().lemma_pop();
        }
    }
}

} // verus!
