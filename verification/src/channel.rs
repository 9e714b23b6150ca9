//! The channel to one accelerator: a ring towards it, a ring back from it, a
//! control word, and the record of where the channel stands with the kernel.
//!
//! The kernel is not called from here. The two lifecycle functions decide
//! whether a call is due and say which; the driver layer that owns the
//! memory makes it.

use crate::error::{decimal, decimal_text, Error};
use crate::fifo::{rejection, CohortFifo};
use crate::ring::RingState;
use vstd::prelude::*;

verus! {

/// The back-off count that the accelerator is given at registration.
pub const BACKOFF_COUNTER_VAL: u64 = 240;

/// Where a channel stands with the kernel.
#[derive(Debug, Clone, Copy, PartialEq, Eq, Structural)]
pub enum Binding {
    /// Built, and not yet registered.
    Created,
    /// Registered with the kernel.
    Registered,
    /// Torn down, once and for all.
    Unregistered,
}

/// A call that the driver layer owes the kernel on behalf of a channel.
#[derive(Debug, Clone, Copy, PartialEq, Eq, Structural)]
pub enum KernelCall {
    /// Register the channel: the addresses of its two rings and of its
    /// control word, and this back-off count.
    Register { backoff: u64 },
    /// Unregister the channel.
    Unregister,
}

/// What a channel is at one moment.
pub struct ChannelState<T> {
    /// The number that the caller chose for the channel.
    pub id: u8,
    /// The ring that carries pairs to the accelerator.
    pub sender: RingState<T>,
    /// The ring that carries pairs back from the accelerator.
    pub receiver: RingState<T>,
    /// The control word.
    pub custom_data: u64,
    /// Where the channel stands with the kernel.
    pub binding: Binding,
}

/// A channel to one accelerator.
#[derive(Debug)]
pub struct Cohort<T: Copy> {
    id: u8,
    sender: CohortFifo<T>,
    receiver: CohortFifo<T>,
    custom_data: u64,
    binding: Binding,
}

impl<T: Copy> View for Cohort<T> {
    type V = ChannelState<T>;

    closed spec fn view(&self) -> ChannelState<T> {
        ChannelState {
            id: self.id,
            sender: self.sender@,
            receiver: self.receiver@,
            custom_data: self.custom_data,
            binding: self.binding,
        }
    }
}

impl<T: Copy> Cohort<T> {
    /// The invariant of a channel: both of its rings are well-formed.
    pub closed spec fn wf(&self) -> bool {
        &&& self.sender.wf()
        &&& self.receiver.wf()
    }

    /// In a well-formed channel both ring states are ones that the model
    /// allows.
    pub proof fn lemma_wf_rings(&self)
        requires
            self.wf(),
        ensures
            self@.sender.wf(),
            self@.receiver.wf(),
    {
    }

    /// Builds a channel with the given id, whose two rings each hold
    /// `capacity` elements and batch by `batch_size`. The kernel hears
    /// nothing of it yet.
    pub fn new(id: u8, capacity: usize, batch_size: usize) -> (r: Self)
        requires
            rejection(capacity, Some(batch_size)) is None,
        ensures
            r.wf(),
            r@ == (ChannelState {
                id,
                sender: RingState::<T>::fresh(capacity as nat, Some(batch_size as nat)),
                receiver: RingState::<T>::fresh(capacity as nat, Some(batch_size as nat)),
                custom_data: 0,
                binding: Binding::Created,
            }),
    {
        let sender: CohortFifo<T> = CohortFifo::new(capacity, Some(batch_size)).unwrap();
        let receiver: CohortFifo<T> = CohortFifo::new(capacity, Some(batch_size)).unwrap();
        Cohort { id, sender, receiver, custom_data: 0, binding: Binding::Created }
    }

    /// Builds a channel as `new` does and marks it registered. The call that
    /// comes back is the registration that the driver layer now owes the
    /// kernel.
    pub fn register(id: u8, capacity: usize, batch_size: usize) -> (r: (Self, KernelCall))
        requires
            rejection(capacity, Some(batch_size)) is None,
        ensures
            r.0.wf(),
            r.0@ == (ChannelState {
                id,
                sender: RingState::<T>::fresh(capacity as nat, Some(batch_size as nat)),
                receiver: RingState::<T>::fresh(capacity as nat, Some(batch_size as nat)),
                custom_data: 0,
                binding: Binding::Registered,
            }),
            r.1 == (KernelCall::Register { backoff: BACKOFF_COUNTER_VAL }),
    {
        let mut cohort: Cohort<T> = Cohort::new(id, capacity, batch_size);
        let call: Option<KernelCall> = cohort.cohort_mn_register();
        (cohort, call.unwrap())
    }

    /// Marks the channel registered, where it has never been, and hands out
    /// the registration that is then owed. A channel is registered once: on
    /// one that is registered or torn down this does nothing.
    pub fn cohort_mn_register(&mut self) -> (r: Option<KernelCall>)
        ensures
            final(self).wf() == old(self).wf(),
            old(self)@.binding == Binding::Created ==> {
                &&& r == Some(KernelCall::Register { backoff: BACKOFF_COUNTER_VAL })
                &&& final(self)@ == (ChannelState { binding: Binding::Registered, ..old(self)@ })
            },
            old(self)@.binding != Binding::Created ==> r.is_none() && final(self)@ == old(self)@,
    {
        match self.binding {
            Binding::Created => {
                self.binding = Binding::Registered;
                Some(KernelCall::Register { backoff: BACKOFF_COUNTER_VAL })
            },
            _ => None,
        }
    }

    /// Marks the channel torn down and hands out the call that is then
    /// owed. A channel is torn down once, whether or not it was ever
    /// registered: on one that is torn down already this does nothing.
    pub fn cohort_mn_unregister(&mut self) -> (r: Option<KernelCall>)
        ensures
            final(self).wf() == old(self).wf(),
            final(self)@ == (ChannelState { binding: Binding::Unregistered, ..old(self)@ }),
            r == if old(self)@.binding == Binding::Unregistered {
                None
            } else {
                Some(KernelCall::Unregister)
            },
    {
        match self.binding {
            Binding::Unregistered => None,
            _ => {
                self.binding = Binding::Unregistered;
                Some(KernelCall::Unregister)
            },
        }
    }
}

impl<T: Copy> Cohort<T> {
    /// Sends a pair to the accelerator, or reports `Full` and leaves the
    /// channel as it is.
    pub fn try_push(&mut self, elem1: &T, elem2: &T) -> (r: Result<(), Error>)
        requires
            old(self).wf(),
        ensures
            final(self).wf(),
            r == if old(self)@.sender.is_full() {
                Err::<(), Error>(Error::Full)
            } else {
                Ok::<(), Error>(())
            },
            final(self)@ == (ChannelState {
                sender: old(self)@.sender.try_push(*elem1, *elem2),
                ..old(self)@
            }),
    {
        self.sender.try_push(elem1, elem2)
    }

    /// Sends a pair to the accelerator, trying until there is room. Nobody
    /// else can drain the sending ring while this call holds the channel, so
    /// the ring must have room when it is called.
    pub fn push(&mut self, elem1: &T, elem2: &T)
        requires
            old(self).wf(),
            !old(self)@.sender.is_full(),
        ensures
            final(self).wf(),
            final(self)@ == (ChannelState {
                sender: old(self)@.sender.push(*elem1, *elem2),
                ..old(self)@
            }),
    {
        self.sender.push(elem1, elem2);
    }

    /// Receives the oldest published pair from the accelerator into `elem1`
    /// and `elem2`, or reports `Empty` and leaves both as they are.
    pub fn try_pop(&mut self, elem1: &mut T, elem2: &mut T) -> (r: Result<(), Error>)
        requires
            old(self).wf(),
        ensures
            final(self).wf(),
            r == if old(self)@.receiver.published_len() >= 2 {
                Ok::<(), Error>(())
            } else {
                Err::<(), Error>(Error::Empty)
            },
            final(self)@ == (ChannelState {
                receiver: old(self)@.receiver.try_pop(),
                ..old(self)@
            }),
            r is Ok ==> {
                &&& *final(elem1) == old(self)@.receiver.published()[0]
                &&& *final(elem2) == old(self)@.receiver.published()[1]
            },
            r is Err ==> {
                &&& *final(elem1) == *old(elem1)
                &&& *final(elem2) == *old(elem2)
            },
    {
        self.receiver.try_pop(elem1, elem2)
    }

    /// Receives the oldest published pair from the accelerator, trying until
    /// there is one. Nobody else can fill the receiving ring while this call
    /// holds the channel, so a pair must be published when it is called.
    pub fn pop(&mut self, elem1: &mut T, elem2: &mut T)
        requires
            old(self).wf(),
            old(self)@.receiver.published_len() >= 2,
        ensures
            final(self).wf(),
            final(self)@ == (ChannelState {
                receiver: old(self)@.receiver.resync().pop(),
                ..old(self)@
            }),
            *final(elem1) == old(self)@.receiver.published()[0],
            *final(elem2) == old(self)@.receiver.published()[1],
    {
        self.receiver.pop(elem1, elem2)
    }

    /// The ring that carries pairs back from the accelerator.
    pub fn receiver(&self) -> (r: &CohortFifo<T>)
        ensures
            r@ == self@.receiver,
            self.wf() ==> r.wf(),
    {
        &self.receiver
    }

    /// The ring that carries pairs to the accelerator.
    pub fn sender(&self) -> (r: &CohortFifo<T>)
        ensures
            r@ == self@.sender,
            self.wf() ==> r.wf(),
    {
        &self.sender
    }

    /// The control word.
    pub fn custom_data(&self) -> (r: &u64)
        ensures
            *r == self@.custom_data,
    {
        &self.custom_data
    }

    /// The number that the caller chose for the channel.
    pub fn id(&self) -> (r: u8)
        ensures
            r == self@.id,
    {
        self.id
    }

    /// Where the channel stands with the kernel.
    pub fn binding(&self) -> (r: Binding)
        ensures
            r == self@.binding,
    {
        self.binding
    }
}

impl<T: Copy> Cohort<T> {
    /// The sending ring, for the side that drains it. The channel is
    /// well-formed again when the ring is handed back well-formed.
    pub fn sender_mut(&mut self) -> (r: &mut CohortFifo<T>)
        ensures
            r@ == old(self)@.sender,
            old(self).wf() ==> r.wf(),
            final(self)@ == (ChannelState { sender: final(r)@, ..old(self)@ }),
            old(self).wf() && final(r).wf() ==> final(self).wf(),
    {
        &mut self.sender
    }

    /// The receiving ring, for the side that fills it. The channel is
    /// well-formed again when the ring is handed back well-formed.
    pub fn receiver_mut(&mut self) -> (r: &mut CohortFifo<T>)
        ensures
            r@ == old(self)@.receiver,
            old(self).wf() ==> r.wf(),
            final(self)@ == (ChannelState { receiver: final(r)@, ..old(self)@ }),
            old(self).wf() && final(r).wf() ==> final(self).wf(),
    {
        &mut self.receiver
    }
}

/// The text that `format!` writes for a value under `{:?}`. What it holds is
/// up to the `Debug` of `T`, so nothing is claimed of it.
#[verifier::external_body]
fn debug_text<T: core::fmt::Debug>(value: &T) -> String {
    format!("{:?}", value)
}

/// The characters of each text.
pub open spec fn texts_of(texts: Seq<String>) -> Seq<Seq<char>> {
    Seq::new(texts.len(), |i: int| texts[i]@)
}

/// The parts in order, with a comma and a space between neighbours.
pub open spec fn join(parts: Seq<Seq<char>>) -> Seq<char>
    decreases parts.len(),
{
    if parts.len() == 0 {
        Seq::empty()
    } else if parts.len() == 1 {
        parts[0]
    } else {
        join(parts.drop_last()) + ", "@ + parts.last()
    }
}

/// The batch size in words: the number, or `none` without batching.
pub open spec fn batch_text(batch: Option<nat>) -> Seq<char> {
    match batch {
        None => "none"@,
        Some(n) => decimal(n),
    }
}

/// A ring as text: its three indices and its batch size in base ten, then
/// its storage slot by slot, each slot written as `slot_texts` has it.
pub open spec fn ring_text<T>(state: RingState<T>, slot_texts: Seq<Seq<char>>) -> Seq<char> {
    "CohortFifo { head: "@ + decimal(state.head) + ", sw_tail: "@ + decimal(state.sw_tail)
        + ", hw_tail: "@ + decimal(state.hw_tail) + ", batch_size: "@ + batch_text(state.batch)
        + ", buffer: ["@ + join(slot_texts) + "] }"@
}

/// Whether the texts are texts of these slots: one for each slot, and a
/// dash for each slot that was never written. How a written slot reads is
/// up to its element's `Debug`.
pub open spec fn slot_texts_fit<T>(slots: Seq<Option<T>>, texts: Seq<Seq<char>>) -> bool {
    &&& texts.len() == slots.len()
    &&& forall|i: int| 0 <= i < slots.len() && slots[i] is None ==> #[trigger] texts[i] == "-"@
}

/// Whether `text` is the text of the ring, for some way in which its
/// elements write themselves.
pub open spec fn is_text_of<T>(text: Seq<char>, state: RingState<T>) -> bool {
    exists|slot_texts: Seq<Seq<char>>| #[trigger]
        slot_texts_fit(state.slots, slot_texts) && text == ring_text(state, slot_texts)
}

/// Joins the texts with a comma and a space.
fn join_texts(texts: &Vec<String>) -> (r: String)
    ensures
        r@ == join(texts_of(texts@)),
{
    let ghost parts = texts_of(texts@);
    let mut joined: String = String::new();
    let mut done: usize = 0;
    while done < texts.len()
        invariant
            done <= texts.len(),
            parts == texts_of(texts@),
            joined@ == join(parts.take(done as int)),
        decreases texts.len() - done,
    {
        if done > 0 {
            joined.append(", ");
        }
        joined.append(texts[done].as_str());
        proof {
            assert(parts.take(done + 1).drop_last() =~= parts.take(done as int));
            assert(parts.take(done + 1).last() == texts@[done as int]@);
            if done == 0 {
                assert(joined@ =~= texts@[0]@);
            }
        }
        done = done + 1;
    }
    proof {
        assert(parts.take(done as int) =~= parts);
    }
    joined
}

/// Writes a ring as text, given the text of each of its slots.
pub fn describe<T: Copy>(fifo: &CohortFifo<T>, slot_texts: &Vec<String>) -> (r: String)
    ensures
        r@ == ring_text(fifo@, texts_of(slot_texts@)),
{
    let mut text: String = String::from_str("CohortFifo { head: ");
    let head: String = decimal_text(fifo.head());
    text.append(head.as_str());
    text.append(", sw_tail: ");
    let sw_tail: String = decimal_text(fifo.sw_tail());
    text.append(sw_tail.as_str());
    text.append(", hw_tail: ");
    let hw_tail: String = decimal_text(fifo.hw_tail());
    text.append(hw_tail.as_str());
    text.append(", batch_size: ");
    match fifo.batch_size() {
        None => {
            text.append("none");
        },
        Some(n) => {
            let batch: String = decimal_text(n);
            text.append(batch.as_str());
        },
    }
    text.append(", buffer: [");
    let slots: String = join_texts(slot_texts);
    text.append(slots.as_str());
    text.append("] }");
    text
}

/// The text of each slot of a ring: a dash for a slot never written, and
/// for a written one what its element writes under `{:?}`.
fn slot_texts<T: Copy + core::fmt::Debug>(fifo: &CohortFifo<T>) -> (r: Vec<String>)
    ensures
        slot_texts_fit(fifo@.slots, texts_of(r@)),
{
    let slots: &[Option<T>] = fifo.buffer();
    let mut texts: Vec<String> = Vec::new();
    let mut done: usize = 0;
    while done < slots.len()
        invariant
            done <= slots.len(),
            slots@ == fifo@.slots,
            texts@.len() == done,
            forall|i: int| 0 <= i < done && slots@[i] is None ==> (#[trigger] texts@[i])@ == "-"@,
        decreases slots.len() - done,
    {
        let text: String = match slots[done] {
            Some(value) => debug_text(&value),
            None => String::from_str("-"),
        };
        texts.push(text);
        done = done + 1;
    }
    texts
}

/// Writes a ring as text, each element as it writes itself under `{:?}`.
fn ring_to_string<T: Copy + core::fmt::Debug>(fifo: &CohortFifo<T>) -> (r: String)
    ensures
        is_text_of(r@, fifo@),
{
    let texts: Vec<String> = slot_texts(fifo);
    let text: String = describe(fifo, &texts);
    assert(slot_texts_fit(fifo@.slots, texts_of(texts@)));
    text
}

impl<T: Copy + core::fmt::Debug> Cohort<T> {
    /// The receiving ring as text, for a person to read: its indices and
    /// batch size, then its storage, a dash for each slot never written.
    pub fn receiver_to_string(&self) -> (r: String)
        ensures
            is_text_of(r@, self@.receiver),
    {
        ring_to_string(&self.receiver)
    }

    /// The sending ring as text, for a person to read: its indices and
    /// batch size, then its storage, a dash for each slot never written.
    pub fn sender_to_string(&self) -> (r: String)
        ensures
            is_text_of(r@, self@.sender),
    {
        ring_to_string(&self.sender)
    }
}

} // verus!
