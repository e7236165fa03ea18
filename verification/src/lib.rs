//! A worker registry with graceful, exactly-once shutdown.
//!
//! The registry maps queue names to workers and hands out borrow-scoped
//! handles. Removing a worker retires it: its terminal cleanup runs exactly
//! once, only after every outstanding handle has been released. This crate
//! verifies the coordination logic itself; the asynchronous shell that drives
//! it (atomic snapshot swaps, reference-counted wake-ups) lives outside the
//! verified core.

use vstd::prelude::*;

pub mod worker;
pub mod guard;
pub mod dispatcher;
pub mod laws;

verus! {

} // verus!
