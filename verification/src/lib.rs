//! A transport between a process and a hardware accelerator: rings of fixed
//! capacity through which elements travel in pairs, and the channel that
//! pairs a ring towards the accelerator with one back from it.
//!
//! - [`ring`] is the model: what a ring is, and what each operation does to
//!   it.
//! - [`trace`] states what holds over whole runs of operations: first in,
//!   first out; the round trip; the bounds that batching keeps.
//! - [`fifo`] is the ring itself, each operation proved against the model.
//! - [`channel`] is the pair of rings with its lifecycle.
//! - [`error`] is what can go wrong.

pub mod channel;
pub mod error;
pub mod fifo;
pub mod ring;
pub mod trace;

pub use channel::{Binding, Cohort, KernelCall, BACKOFF_COUNTER_VAL};
