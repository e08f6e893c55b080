//! Core of a distributed validator: a cluster of operator nodes that jointly
//! control one staking key through a threshold signature scheme.
//!
//! The crate holds the verified logic of that core: the wire codec for
//! operator messages, the content-addressed block store, the block
//! synchronizer's bookkeeping, the HotStuff-style consensus rules with their
//! safety argument, the vote aggregator, the threshold-signing session, and
//! the validator client configuration. I/O, timers and task plumbing live in
//! the embedding application, which drives these state machines.

pub mod aggregator;
pub mod codec;
pub mod committee;
pub mod consensus;
pub mod digest;
pub mod errors;
pub mod messages;
pub mod parse;
pub mod safety;
pub mod signing;
pub mod store;
pub mod sync;

use vstd::prelude::*;

verus! {

/// Protocol version carried on every wire frame; peers drop mismatches.
pub const VERSION: u16 = 1;

/// Capacity of the bounded channels between the core's tasks.
pub const CHANNEL_CAPACITY: usize = 1000;

} // verus!
