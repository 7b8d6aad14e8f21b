//! Core logic of a blockchain node monitor: connection establishment with
//! bounded retries and failure classification, rate-limited polling,
//! bounded-memory deduplication of observed items, monotone block watching,
//! and non-blocking fan-out of discovered items to consumers.
//!
//! All network I/O lives outside this crate; the functions here are the pure
//! decision and bookkeeping kernel that a driver feeds with observed events.

pub mod blocks;
pub mod connector;
pub mod dedup;
pub mod fanout;
pub mod mempool;
pub mod rate;
pub mod selector;
pub mod textfmt;

use vstd::prelude::*;

verus! {

/// A 256-bit transaction identifier (hash), held as two 128-bit halves so
/// that equality is plain structural equality on integers.
#[derive(PartialEq, Eq, Structural, Clone, Copy, Debug)]
pub struct TxId {
    pub hi: u128,
    pub lo: u128,
}

} // verus!
