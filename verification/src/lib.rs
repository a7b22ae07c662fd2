//! Core of a polling bot: a resilient remote-call layer and a concurrent
//! dispatch engine.
//!
//! The remote transport, the JSON codec and the task runtime live outside this
//! crate; what is verified here is everything the bot decides:
//! how a remote call is retried and backed off, how a rate-limit hint is read
//! out of free text, which handlers an incoming event is routed to, what is
//! reported when a handler fails, and how a bounded number of concurrency
//! permits is accounted for.

use vstd::prelude::*;

pub mod backoff;
pub mod dispatch;
pub mod permits;
pub mod retry;
pub mod text;
pub mod types;
pub mod utils;

verus! {

/// Largest number of attempts a remote call makes by default.
pub const DEFAULT_MAX_ATTEMPTS: u32 = 5;

/// First exponential-backoff delay, in milliseconds.
pub const INITIAL_BACKOFF_MS: u64 = 500;

} // verus!
