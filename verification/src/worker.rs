//! The registry's view of a worker: the calls the registry makes on it.
//!
//! Worker internals (task polling, execution, the gateway client) are
//! external collaborators. The registry only ever signals a drain and runs
//! the terminal cleanup, so its model of a worker records how often each of
//! those happened. The shutdown properties of the registry are stated over
//! these two counters.

use vstd::prelude::*;

verus! {

/// What the registry reads from a registration request: the queue name the
/// worker is to be registered under.
pub struct WorkerConfig {
    pub task_queue: String,
}

/// A worker as the registry sees it: a record of the lifecycle calls it has
/// received. A freshly constructed worker has received none.
#[derive(Clone, Copy)]
pub struct Worker {
    /// How many times the worker was signalled to drain (stop accepting new
    /// work and finish in-flight work).
    pub drain_signals: u64,
    /// How many times the worker's terminal cleanup ran. The registry
    /// guarantees this never exceeds one.
    pub finalize_calls: u64,
}

impl Worker {
    /// A worker that has not yet been signalled to drain or finalized, as a
    /// newly constructed worker must be.
    pub open spec fn fresh(self) -> bool {
        self.drain_signals == 0 && self.finalize_calls == 0
    }

    pub fn new() -> (w: Worker)
        ensures
            w.fresh(),
    {
        Worker { drain_signals: 0, finalize_calls: 0 }
    }
}

/// The one recoverable error of the registry: registering a second worker
/// under a name that already has one.
#[derive(Debug)]
pub enum WorkerRegistrationError {
    WorkerAlreadyRegisteredForQueue(String),
}

} // verus!
