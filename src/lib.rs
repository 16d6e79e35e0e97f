//! A verified model of the submission / completion ring protocol used to
//! drive an asynchronous I/O interface.
//!
//! Each ring is a power-of-two array of fixed-size records with two shared
//! 32-bit indices, `head` and `tail`, that run over a logical infinite
//! sequence and select a slot by their low bits.
//!
//! - `ring`: index arithmetic: distances, wrap-around, slot selection.
//! - `squeue`: the producer side of the submission ring.
//! - `cqueue`: the consumer side of the completion ring.
//! - `dispatch`: arguments and results of the ring system calls.
//! - `laws`: properties that span several operations.

pub mod ring;
pub mod squeue;
pub mod cqueue;
pub mod dispatch;
pub mod laws;

