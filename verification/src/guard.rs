//! The drain guard: a worker plus a count of outstanding borrows.
//!
//! Every successful lookup hands the caller a `BorrowHandle` and raises the
//! guard's outstanding count; releasing the handle lowers it again. Once the
//! registry has removed the guard's entry from the visible mapping, the count
//! reaching zero is the terminal condition under which the worker's cleanup
//! may run.

use vstd::prelude::*;
use crate::worker::Worker;

verus! {

/// A worker together with the number of lookup-issued borrows of it that are
/// still held. The guard's identity (`guard_id`) is what a handle refers
/// back to; it stays unique for the lifetime of a dispatcher.
#[derive(Clone, Copy)]
pub struct DrainGuard {
    pub guard_id: u64,
    pub worker: Worker,
    /// Handles issued for this guard and not yet released.
    pub outstanding: u64,
}

impl DrainGuard {
    pub fn new(guard_id: u64, worker: Worker) -> (g: DrainGuard)
        ensures
            g.guard_id == guard_id,
            g.worker == worker,
            g.outstanding == 0,
    {
        DrainGuard { guard_id, worker, outstanding: 0 }
    }
}

/// A borrow-scoped handle to a registered worker, issued by a successful
/// lookup. Holding it keeps the worker's terminal cleanup from running;
/// giving it back to the dispatcher releases the caller's share. The handle
/// cannot be duplicated or forged: the only way to raise a guard's
/// outstanding count is a lookup, and the only way to lower it is to give a
/// handle back.
pub struct BorrowHandle {
    pub(crate) guard_id: u64,
}

impl BorrowHandle {
    /// The identity of the guard this handle was issued from.
    pub closed spec fn id(self) -> u64 {
        self.guard_id
    }

    /// The identity a handle exposes is the one it carries.
    pub(crate) proof fn lemma_id_value(self)
        ensures
            self.id() == self.guard_id,
    {
    }
}

/// The wake-up decision a shared-ownership drain takes when one duplicate of
/// a guard is dropped: the retirement waiter must be woken either when the
/// dropped duplicate was the retirer's own emptied shell, or when the shared
/// strong count observed at drop time is exactly two — the retirer's kept
/// reference plus the duplicate now being dropped — since after this drop
/// the count will be one and the terminal condition may hold.
pub fn drop_wakes_retirer(shell_dropped: bool, strong_count: u64) -> (wake: bool)
    ensures
        wake == (shell_dropped || strong_count == 2),
{
    shell_dropped || strong_count == 2
}

} // verus!
