//! The worker dispatcher: access to workers by task queue name, with
//! graceful, exactly-once shutdown.
//!
//! The dispatcher keeps three disjoint populations of workers:
//!   * `entries` — the visible mapping. Only these are found by `get`, and at
//!     most one worker is visible per queue name.
//!   * `retiring` — removed from the visible mapping by a shutdown, but with
//!     outstanding borrow handles still held somewhere. Their terminal
//!     cleanup has not run.
//!   * `done` — fully retired workers: drained exactly once and finalized
//!     exactly once, kept for inspection.
//!
//! A worker moves `entries -> done` directly when it is shut down with no
//! handle outstanding, and `entries -> retiring -> done` otherwise, the last
//! step taken by whichever `release` returns the final outstanding handle.

use vstd::prelude::*;
use crate::worker::{Worker, WorkerConfig, WorkerRegistrationError};
use crate::guard::{BorrowHandle, DrainGuard};

verus! {

/// One visible or retiring registration: a queue name and its drain guard.
pub struct Entry {
    pub name: String,
    pub guard: DrainGuard,
}

/// A fully retired worker, kept with the queue name it served and the
/// identity of the guard that carried it. No two retired records share a
/// guard identity: each guard retires at most once.
pub struct Retired {
    pub name: String,
    pub guard_id: u64,
    pub worker: Worker,
}

/// Some entry of `s` carries `name`.
pub open spec fn seq_has_name(s: Seq<Entry>, name: Seq<char>) -> bool {
    exists|i: int| 0 <= i < s.len() && s[i].name@ == name
}

/// Some entry of `s` carries the guard identity `id`.
pub open spec fn seq_has_id(s: Seq<Entry>, id: u64) -> bool {
    exists|i: int| 0 <= i < s.len() && s[i].guard.guard_id == id
}

/// No two entries of `s` share a queue name.
pub open spec fn names_unique(s: Seq<Entry>) -> bool {
    forall|i: int, j: int| 0 <= i < j < s.len() ==> s[i].name@ != s[j].name@
}

/// No two entries of `s` share a guard identity.
pub open spec fn ids_unique(s: Seq<Entry>) -> bool {
    forall|i: int, j: int|
        0 <= i < j < s.len() ==> s[i].guard.guard_id != s[j].guard.guard_id
}

/// No guard identity occurs both in `a` and in `b`.
pub open spec fn ids_disjoint(a: Seq<Entry>, b: Seq<Entry>) -> bool {
    forall|i: int, j: int|
        0 <= i < a.len() && 0 <= j < b.len()
            ==> a[i].guard.guard_id != b[j].guard.guard_id
}

/// Every guard identity in `s` is below `bound`.
pub open spec fn ids_below(s: Seq<Entry>, bound: u64) -> bool {
    forall|i: int| 0 <= i < s.len() ==> s[i].guard.guard_id < bound
}

/// Every visible worker is fresh: drained zero times, finalized zero times.
pub open spec fn entries_fresh(s: Seq<Entry>) -> bool {
    forall|i: int| 0 <= i < s.len() ==> s[i].guard.worker.fresh()
}

/// Every retiring worker was drained exactly once, has not been finalized,
/// and still has at least one handle outstanding (else it would already be
/// done).
pub open spec fn retiring_wf(s: Seq<Entry>) -> bool {
    forall|i: int|
        0 <= i < s.len()
            ==> s[i].guard.worker.drain_signals == 1
                && s[i].guard.worker.finalize_calls == 0
                && s[i].guard.outstanding > 0
}

/// Every finished worker was drained exactly once and finalized exactly
/// once.
pub open spec fn done_wf(s: Seq<Retired>) -> bool {
    forall|i: int|
        0 <= i < s.len()
            ==> s[i].worker.drain_signals == 1 && s[i].worker.finalize_calls == 1
}

/// Some retired record of `s` carries the guard identity `id`.
pub open spec fn done_has_id(s: Seq<Retired>, id: u64) -> bool {
    exists|i: int| 0 <= i < s.len() && s[i].guard_id == id
}

/// No two retired records of `s` share a guard identity.
pub open spec fn done_ids_unique(s: Seq<Retired>) -> bool {
    forall|i: int, j: int| 0 <= i < j < s.len() ==> s[i].guard_id != s[j].guard_id
}

/// Every guard identity in the retired records of `s` is below `bound`.
pub open spec fn done_ids_below(s: Seq<Retired>, bound: u64) -> bool {
    forall|i: int| 0 <= i < s.len() ==> s[i].guard_id < bound
}

/// No guard identity occurs both in a live entry of `a` and in a retired
/// record of `b`.
pub open spec fn live_done_disjoint(a: Seq<Entry>, b: Seq<Retired>) -> bool {
    forall|i: int, j: int|
        0 <= i < a.len() && 0 <= j < b.len()
            ==> a[i].guard.guard_id != b[j].guard_id
}

/// The record an entry leaves when a shutdown retires it at once: its
/// worker drained once more and finalized once more.
pub open spec fn retired_of(e: Entry) -> Retired {
    Retired {
        name: e.name,
        guard_id: e.guard.guard_id,
        worker: Worker {
            drain_signals: (e.guard.worker.drain_signals + 1) as u64,
            finalize_calls: (e.guard.worker.finalize_calls + 1) as u64,
        },
    }
}

/// The entry as a shutdown parks it while handles are still outstanding:
/// its worker drained once more, the rest untouched.
pub open spec fn parked_of(e: Entry) -> Entry {
    Entry {
        name: e.name,
        guard: DrainGuard {
            guard_id: e.guard.guard_id,
            outstanding: e.guard.outstanding,
            worker: Worker {
                drain_signals: (e.guard.worker.drain_signals + 1) as u64,
                finalize_calls: e.guard.worker.finalize_calls,
            },
        },
    }
}

/// The records that shutting down every entry of `s` finalizes at once:
/// those with no outstanding handle, retired, in order.
pub open spec fn finalize_now(s: Seq<Entry>) -> Seq<Retired>
    decreases s.len(),
{
    if s.len() == 0 {
        Seq::empty()
    } else if s.last().guard.outstanding == 0 {
        finalize_now(s.drop_last()).push(retired_of(s.last()))
    } else {
        finalize_now(s.drop_last())
    }
}

/// The entries that shutting down every entry of `s` parks instead: those
/// with handles still outstanding, drained, in order.
pub open spec fn park_now(s: Seq<Entry>) -> Seq<Entry>
    decreases s.len(),
{
    if s.len() == 0 {
        Seq::empty()
    } else if s.last().guard.outstanding > 0 {
        park_now(s.drop_last()).push(parked_of(s.last()))
    } else {
        park_now(s.drop_last())
    }
}

/// Allows access to workers by task queue name.
pub struct WorkerDispatcher {
    /// The visible mapping from queue names to drain guards.
    pub entries: Vec<Entry>,
    /// Removed from the visible mapping, awaiting release of the last
    /// outstanding handle.
    pub retiring: Vec<Entry>,
    /// Fully retired workers.
    pub done: Vec<Retired>,
    /// Source of fresh guard identities; all live guard identities are
    /// below it.
    pub next_id: u64,
}

impl WorkerDispatcher {
    /// The dispatcher's invariant: every public operation requires and
    /// preserves it.
    pub open spec fn wf(self) -> bool {
        &&& names_unique(self.entries@)
        &&& ids_unique(self.entries@)
        &&& ids_unique(self.retiring@)
        &&& ids_disjoint(self.entries@, self.retiring@)
        &&& ids_below(self.entries@, self.next_id)
        &&& ids_below(self.retiring@, self.next_id)
        &&& entries_fresh(self.entries@)
        &&& retiring_wf(self.retiring@)
        &&& done_wf(self.done@)
        &&& done_ids_unique(self.done@)
        &&& done_ids_below(self.done@, self.next_id)
        &&& live_done_disjoint(self.entries@, self.done@)
        &&& live_done_disjoint(self.retiring@, self.done@)
    }

    /// A worker is visible under `name`.
    pub open spec fn has_name(self, name: Seq<char>) -> bool {
        seq_has_name(self.entries@, name)
    }

    /// The handle refers to a guard that is still live: either a visible
    /// guard it was issued from (which then counts it as outstanding), or a
    /// retiring guard (whose outstanding count is positive by `wf`).
    pub open spec fn handle_live(self, h: BorrowHandle) -> bool {
        ||| exists|i: int|
                0 <= i < self.entries@.len()
                    && self.entries@[i].guard.guard_id == h.id()
                    && self.entries@[i].guard.outstanding > 0
        ||| seq_has_id(self.retiring@, h.id())
    }

    /// Every visible guard under `name` (there is at most one) has room to
    /// count one more outstanding handle.
    pub open spec fn can_issue(self, name: Seq<char>) -> bool {
        forall|i: int|
            0 <= i < self.entries@.len() && self.entries@[i].name@ == name
                ==> self.entries@[i].guard.outstanding < u64::MAX
    }

    pub fn new() -> (d: WorkerDispatcher)
        ensures
            d.wf(),
            d.entries@.len() == 0,
            d.retiring@.len() == 0,
            d.done@.len() == 0,
            d.next_id == 0,
    {
        WorkerDispatcher {
            entries: Vec::new(),
            retiring: Vec::new(),
            done: Vec::new(),
            next_id: 0,
        }
    }
}

/// The index of the entry of `v` named `name`, if any.
fn find_name(v: &Vec<Entry>, name: &String) -> (r: Option<usize>)
    ensures
        match r {
            Some(i) => i < v@.len() && v@[i as int].name@ == name@,
            None => !seq_has_name(v@, name@),
        },
{
    let mut i: usize = 0;
    while i < v.len()
        invariant
            i <= v@.len(),
            forall|j: int| 0 <= j < i ==> v@[j].name@ != name@,
        decreases v@.len() - i,
    {
        if v[i].name == *name {
            return Some(i);
        }
        i += 1;
    }
    None
}

impl WorkerDispatcher {
    /// Registers `worker` under the queue name `tq`. Fails, and changes
    /// nothing, if a worker is already visible under that name; the existing
    /// registration is never replaced. On success the worker becomes visible
    /// to `get` under `tq`, wrapped in a fresh drain guard with no
    /// outstanding handle.
    pub fn set_worker_for_task_queue(
        &mut self,
        tq: String,
        worker: Worker,
    ) -> (r: Result<(), WorkerRegistrationError>)
        requires
            old(self).wf(),
            worker.fresh(),
            old(self).next_id < u64::MAX,
        ensures
            final(self).wf(),
            old(self).has_name(tq@) ==> {
                &&& (r matches Err(WorkerRegistrationError::WorkerAlreadyRegisteredForQueue(n))
                    && n@ == tq@)
                &&& *final(self) == *old(self)
            },
            !old(self).has_name(tq@) ==> {
                &&& r is Ok
                &&& final(self).entries@.len() == old(self).entries@.len() + 1
                &&& (forall|j: int|
                    0 <= j < old(self).entries@.len()
                        ==> final(self).entries@[j] == old(self).entries@[j])
                &&& final(self).entries@.last().name@ == tq@
                &&& final(self).entries@.last().guard.guard_id == old(self).next_id
                &&& final(self).entries@.last().guard.outstanding == 0
                &&& final(self).entries@.last().guard.worker == worker
                &&& final(self).has_name(tq@)
                &&& final(self).next_id == old(self).next_id + 1
                &&& final(self).retiring@ == old(self).retiring@
                &&& final(self).done@ == old(self).done@
            },
            forall|n: Seq<char>|
                n != tq@ ==> final(self).has_name(n) == old(self).has_name(n),
    {
        if find_name(&self.entries, &tq).is_some() {
            return Err(WorkerRegistrationError::WorkerAlreadyRegisteredForQueue(tq));
        }
        let ghost tqv = tq@;
        let guard = DrainGuard::new(self.next_id, worker);
        self.next_id = self.next_id + 1;
        self.entries.push(Entry { name: tq, guard });
        proof {
            assert forall|n: Seq<char>| n != tqv implies
                self.has_name(n) == old(self).has_name(n) by {
                if old(self).has_name(n) {
                    let i = choose|i: int|
                        0 <= i < old(self).entries@.len()
                            && old(self).entries@[i].name@ == n;
                    assert(self.entries@[i].name@ == n);
                }
                if self.has_name(n) {
                    let i = choose|i: int|
                        0 <= i < self.entries@.len() && self.entries@[i].name@ == n;
                    assert(old(self).entries@[i].name@ == n);
                }
            }
        }
        Ok(())
    }

    /// Constructs a worker for `config` and registers it under the queue
    /// name the configuration carries. Same contract as
    /// [`Self::set_worker_for_task_queue`], keyed by `config.task_queue`.
    pub fn new_worker(
        &mut self,
        config: WorkerConfig,
    ) -> (r: Result<(), WorkerRegistrationError>)
        requires
            old(self).wf(),
            old(self).next_id < u64::MAX,
        ensures
            final(self).wf(),
            old(self).has_name(config.task_queue@) ==> {
                &&& (r matches Err(WorkerRegistrationError::WorkerAlreadyRegisteredForQueue(n))
                    && n@ == config.task_queue@)
                &&& *final(self) == *old(self)
            },
            !old(self).has_name(config.task_queue@) ==> {
                &&& r is Ok
                &&& final(self).entries@.len() == old(self).entries@.len() + 1
                &&& (forall|j: int|
                    0 <= j < old(self).entries@.len()
                        ==> final(self).entries@[j] == old(self).entries@[j])
                &&& final(self).entries@.last().name@ == config.task_queue@
                &&& final(self).entries@.last().guard.worker.fresh()
                &&& final(self).entries@.last().guard.outstanding == 0
                &&& final(self).has_name(config.task_queue@)
                &&& final(self).retiring@ == old(self).retiring@
                &&& final(self).done@ == old(self).done@
            },
            forall|n: Seq<char>|
                n != config.task_queue@
                    ==> final(self).has_name(n) == old(self).has_name(n),
    {
        let tq = config.task_queue.clone();
        let worker = Worker::new();
        self.set_worker_for_task_queue(tq, worker)
    }
}

/// The index of the entry of `v` whose guard has identity `id`, if any.
fn find_id(v: &Vec<Entry>, id: u64) -> (r: Option<usize>)
    ensures
        match r {
            Some(i) => i < v@.len() && v@[i as int].guard.guard_id == id,
            None => !seq_has_id(v@, id),
        },
{
    let mut i: usize = 0;
    while i < v.len()
        invariant
            i <= v@.len(),
            forall|j: int| 0 <= j < i ==> v@[j].guard.guard_id != id,
        decreases v@.len() - i,
    {
        if v[i].guard.guard_id == id {
            return Some(i);
        }
        i += 1;
    }
    None
}

impl WorkerDispatcher {
    /// Looks up the worker registered under `task_queue`. Returns a borrow
    /// handle, and counts it against the worker's guard, if and only if a
    /// worker is visible under that name; a worker that a shutdown has
    /// already removed is never found, however many earlier handles for it
    /// are still alive. No other state changes.
    pub fn get(&mut self, task_queue: &str) -> (r: Option<BorrowHandle>)
        requires
            old(self).wf(),
            old(self).can_issue(task_queue@),
        ensures
            final(self).wf(),
            r is Some <==> old(self).has_name(task_queue@),
            !old(self).has_name(task_queue@) ==> *final(self) == *old(self),
            old(self).has_name(task_queue@) ==> {
                &&& final(self).entries@.len() == old(self).entries@.len()
                &&& (forall|j: int|
                    0 <= j < old(self).entries@.len()
                        && old(self).entries@[j].name@ != task_queue@
                        ==> final(self).entries@[j] == old(self).entries@[j])
                &&& (forall|j: int|
                    0 <= j < old(self).entries@.len()
                        && old(self).entries@[j].name@ == task_queue@
                        ==> {
                            &&& final(self).entries@[j].name@ == task_queue@
                            &&& final(self).entries@[j].guard.guard_id
                                == old(self).entries@[j].guard.guard_id
                            &&& final(self).entries@[j].guard.worker
                                == old(self).entries@[j].guard.worker
                            &&& final(self).entries@[j].guard.outstanding
                                == old(self).entries@[j].guard.outstanding + 1
                            &&& (r matches Some(h)
                                && h.id() == old(self).entries@[j].guard.guard_id)
                        })
                &&& final(self).retiring@ == old(self).retiring@
                &&& final(self).done@ == old(self).done@
                &&& final(self).next_id == old(self).next_id
                &&& (r matches Some(h) && final(self).handle_live(h))
            },
            forall|n: Seq<char>| final(self).has_name(n) == old(self).has_name(n),
    {
        let name = task_queue.to_owned();
        match find_name(&self.entries, &name) {
            None => None,
            Some(i) => {
                let mut e = self.entries.remove(i);
                e.guard.outstanding = e.guard.outstanding + 1;
                let id = e.guard.guard_id;
                self.entries.insert(i, e);
                proof {
                    assert(self.entries@ =~= old(self).entries@.update(
                        i as int,
                        self.entries@[i as int],
                    ));
                    assert forall|n: Seq<char>|
                        self.has_name(n) == old(self).has_name(n) by {
                        if old(self).has_name(n) {
                            let k = choose|k: int|
                                0 <= k < old(self).entries@.len()
                                    && old(self).entries@[k].name@ == n;
                            assert(self.entries@[k].name@ == n);
                        }
                        if self.has_name(n) {
                            let k = choose|k: int|
                                0 <= k < self.entries@.len()
                                    && self.entries@[k].name@ == n;
                            assert(old(self).entries@[k].name@ == n);
                        }
                    }
                }
                let h = BorrowHandle { guard_id: id };
                proof {
                    h.lemma_id_value();
                }
                Some(h)
            },
        }
    }

    /// Gives a handle issued by `get` back to the dispatcher, releasing the
    /// caller's share of the worker. If the handle's guard is still visible,
    /// or retiring with further handles outstanding, the guard's count just
    /// drops by one. If the guard was retiring and this was its last
    /// outstanding handle, the terminal condition holds: the worker's
    /// cleanup runs, exactly once, and the worker moves to `done`.
    pub fn release(&mut self, h: BorrowHandle)
        requires
            old(self).wf(),
            old(self).handle_live(h),
        ensures
            final(self).wf(),
            final(self).next_id == old(self).next_id,
            forall|n: Seq<char>| final(self).has_name(n) == old(self).has_name(n),
            // the guard is still visible: its count drops by one
            seq_has_id(old(self).entries@, h.id()) ==> {
                &&& final(self).entries@.len() == old(self).entries@.len()
                &&& (forall|j: int|
                    0 <= j < old(self).entries@.len()
                        && old(self).entries@[j].guard.guard_id != h.id()
                        ==> final(self).entries@[j] == old(self).entries@[j])
                &&& (forall|j: int|
                    0 <= j < old(self).entries@.len()
                        && old(self).entries@[j].guard.guard_id == h.id()
                        ==> {
                            &&& final(self).entries@[j].name@
                                == old(self).entries@[j].name@
                            &&& final(self).entries@[j].guard.guard_id == h.id()
                            &&& final(self).entries@[j].guard.worker
                                == old(self).entries@[j].guard.worker
                            &&& final(self).entries@[j].guard.outstanding
                                == old(self).entries@[j].guard.outstanding - 1
                        })
                &&& final(self).retiring@ == old(self).retiring@
                &&& final(self).done@ == old(self).done@
            },
            // the guard is retiring and other handles are still out
            !seq_has_id(old(self).entries@, h.id()) ==> forall|i: int|
                #![trigger old(self).retiring@[i]]
                0 <= i < old(self).retiring@.len()
                    && old(self).retiring@[i].guard.guard_id == h.id()
                    && old(self).retiring@[i].guard.outstanding > 1
                    ==> {
                        &&& final(self).entries@ == old(self).entries@
                        &&& final(self).done@ == old(self).done@
                        &&& final(self).retiring@.len() == old(self).retiring@.len()
                        &&& (forall|j: int|
                            0 <= j < old(self).retiring@.len() && j != i
                                ==> final(self).retiring@[j] == old(self).retiring@[j])
                        &&& final(self).retiring@[i].name@
                            == old(self).retiring@[i].name@
                        &&& final(self).retiring@[i].guard.guard_id == h.id()
                        &&& final(self).retiring@[i].guard.worker
                            == old(self).retiring@[i].guard.worker
                        &&& final(self).retiring@[i].guard.outstanding
                            == old(self).retiring@[i].guard.outstanding - 1
                    },
            // the guard is retiring and this was its last handle: finalize
            !seq_has_id(old(self).entries@, h.id()) ==> forall|i: int|
                #![trigger old(self).retiring@[i]]
                0 <= i < old(self).retiring@.len()
                    && old(self).retiring@[i].guard.guard_id == h.id()
                    && old(self).retiring@[i].guard.outstanding == 1
                    ==> {
                        &&& final(self).entries@ == old(self).entries@
                        &&& final(self).retiring@ == old(self).retiring@.remove(i)
                        &&& final(self).done@.len() == old(self).done@.len() + 1
                        &&& (forall|j: int|
                            0 <= j < old(self).done@.len()
                                ==> final(self).done@[j] == old(self).done@[j])
                        &&& final(self).done@.last().name@
                            == old(self).retiring@[i].name@
                        &&& final(self).done@.last().guard_id == h.id()
                        &&& final(self).done@.last().worker.drain_signals
                            == old(self).retiring@[i].guard.worker.drain_signals
                        &&& final(self).done@.last().worker.finalize_calls
                            == old(self).retiring@[i].guard.worker.finalize_calls + 1
                    },
    {
        proof {
            h.lemma_id_value();
        }
        match find_id(&self.entries, h.guard_id) {
            Some(i) => {
                proof {
                    let oe = old(self).entries@;
                    assert(oe[i as int].guard.guard_id == h.id());
                    if seq_has_id(old(self).retiring@, h.id()) {
                        let j = choose|j: int|
                            0 <= j < old(self).retiring@.len()
                                && old(self).retiring@[j].guard.guard_id == h.id();
                        assert(oe[i as int].guard.guard_id
                            != old(self).retiring@[j].guard.guard_id);
                        assert(false);
                    }
                    let k = choose|k: int|
                        0 <= k < oe.len() && oe[k].guard.guard_id == h.id()
                            && oe[k].guard.outstanding > 0;
                    if k < i as int {
                        assert(oe[k].guard.guard_id != oe[i as int].guard.guard_id);
                    }
                    if k > i as int {
                        assert(oe[i as int].guard.guard_id != oe[k].guard.guard_id);
                    }
                    assert(k == i as int);
                }
                let mut e = self.entries.remove(i);
                e.guard.outstanding = e.guard.outstanding - 1;
                self.entries.insert(i, e);
                proof {
                    assert(self.entries@ =~= old(self).entries@.update(
                        i as int,
                        self.entries@[i as int],
                    ));
                    assert forall|n: Seq<char>|
                        self.has_name(n) == old(self).has_name(n) by {
                        if old(self).has_name(n) {
                            let k = choose|k: int|
                                0 <= k < old(self).entries@.len()
                                    && old(self).entries@[k].name@ == n;
                            assert(self.entries@[k].name@ == n);
                        }
                        if self.has_name(n) {
                            let k = choose|k: int|
                                0 <= k < self.entries@.len()
                                    && self.entries@[k].name@ == n;
                            assert(old(self).entries@[k].name@ == n);
                        }
                    }
                }
            },
            None => {
                let found = find_id(&self.retiring, h.guard_id);
                match found {
                    None => {
                        proof {
                            let k = choose|k: int|
                                0 <= k < old(self).entries@.len()
                                    && old(self).entries@[k].guard.guard_id == h.id()
                                    && old(self).entries@[k].guard.outstanding > 0;
                            assert(seq_has_id(old(self).entries@, h.id()));
                            assert(false);
                        }
                    },
                    Some(i) => {
                        proof {
                            assert forall|k: int|
                                0 <= k < self.retiring@.len()
                                    && self.retiring@[k].guard.guard_id == h.id()
                                implies k == i as int by {
                                if k < i as int {
                                    assert(self.retiring@[k].guard.guard_id
                                        != self.retiring@[i as int].guard.guard_id);
                                }
                                if k > i as int {
                                    assert(self.retiring@[i as int].guard.guard_id
                                        != self.retiring@[k].guard.guard_id);
                                }
                            }
                        }
                        if self.retiring[i].guard.outstanding == 1 {
                            let e = self.retiring.remove(i);
                            let mut w = e.guard.worker;
                            w.finalize_calls = w.finalize_calls + 1;
                            self.done.push(Retired {
                                name: e.name,
                                guard_id: e.guard.guard_id,
                                worker: w,
                            });
                        } else {
                            let mut e = self.retiring.remove(i);
                            e.guard.outstanding = e.guard.outstanding - 1;
                            self.retiring.insert(i, e);
                            proof {
                                assert(self.retiring@ =~= old(self).retiring@.update(
                                    i as int,
                                    self.retiring@[i as int],
                                ));
                            }
                        }
                    },
                }
            },
        }
    }

    /// Shuts down the worker registered under `task_queue`, if any: signals
    /// it to drain (exactly once), removes it from the visible mapping — so
    /// no later `get` can find it — and then retires it. If no handle is
    /// outstanding the terminal cleanup runs at once and the worker moves to
    /// `done`; otherwise the worker parks in `retiring`, its cleanup not yet
    /// run, until the last outstanding handle is released. On a name with no
    /// registered worker this is a no-op.
    pub fn shutdown_one(&mut self, task_queue: &str)
        requires
            old(self).wf(),
        ensures
            final(self).wf(),
            final(self).next_id == old(self).next_id,
            !old(self).has_name(task_queue@) ==> *final(self) == *old(self),
            !final(self).has_name(task_queue@),
            forall|n: Seq<char>|
                n != task_queue@ ==> final(self).has_name(n) == old(self).has_name(n),
            old(self).has_name(task_queue@) ==> forall|i: int|
                #![trigger old(self).entries@[i]]
                0 <= i < old(self).entries@.len()
                    && old(self).entries@[i].name@ == task_queue@
                    ==> {
                        &&& final(self).entries@ == old(self).entries@.remove(i)
                        &&& (old(self).entries@[i].guard.outstanding == 0 ==> {
                            &&& final(self).retiring@ == old(self).retiring@
                            &&& final(self).done@.len() == old(self).done@.len() + 1
                            &&& (forall|j: int|
                                0 <= j < old(self).done@.len()
                                    ==> final(self).done@[j] == old(self).done@[j])
                            &&& final(self).done@.last().name@ == task_queue@
                            &&& final(self).done@.last().guard_id
                                == old(self).entries@[i].guard.guard_id
                            &&& final(self).done@.last().worker.drain_signals
                                == old(self).entries@[i].guard.worker.drain_signals + 1
                            &&& final(self).done@.last().worker.finalize_calls
                                == old(self).entries@[i].guard.worker.finalize_calls + 1
                        })
                        &&& (old(self).entries@[i].guard.outstanding > 0 ==> {
                            &&& final(self).done@ == old(self).done@
                            &&& final(self).retiring@.len()
                                == old(self).retiring@.len() + 1
                            &&& (forall|j: int|
                                0 <= j < old(self).retiring@.len()
                                    ==> final(self).retiring@[j]
                                        == old(self).retiring@[j])
                            &&& final(self).retiring@.last().name@ == task_queue@
                            &&& final(self).retiring@.last().guard.guard_id
                                == old(self).entries@[i].guard.guard_id
                            &&& final(self).retiring@.last().guard.outstanding
                                == old(self).entries@[i].guard.outstanding
                            &&& final(self).retiring@.last().guard.worker.drain_signals
                                == old(self).entries@[i].guard.worker.drain_signals + 1
                            &&& final(self).retiring@.last().guard.worker.finalize_calls
                                == old(self).entries@[i].guard.worker.finalize_calls
                        })
                    },
    {
        let name = task_queue.to_owned();
        match find_name(&self.entries, &name) {
            None => {},
            Some(i) => {
                proof {
                    assert forall|k: int|
                        0 <= k < self.entries@.len()
                            && self.entries@[k].name@ == task_queue@
                        implies k == i as int by {
                        if k < i as int {
                            assert(self.entries@[k].name@
                                != self.entries@[i as int].name@);
                        }
                        if k > i as int {
                            assert(self.entries@[i as int].name@
                                != self.entries@[k].name@);
                        }
                    }
                }
                let mut e = self.entries.remove(i);
                e.guard.worker.drain_signals = e.guard.worker.drain_signals + 1;
                if e.guard.outstanding == 0 {
                    let mut w = e.guard.worker;
                    w.finalize_calls = w.finalize_calls + 1;
                    self.done.push(Retired {
                        name: e.name,
                        guard_id: e.guard.guard_id,
                        worker: w,
                    });
                } else {
                    self.retiring.push(e);
                }
                proof {
                    assert forall|n: Seq<char>| n != task_queue@ implies
                        self.has_name(n) == old(self).has_name(n) by {
                        if old(self).has_name(n) {
                            let k = choose|k: int|
                                0 <= k < old(self).entries@.len()
                                    && old(self).entries@[k].name@ == n;
                            if k < i as int {
                                assert(self.entries@[k].name@ == n);
                            } else {
                                assert(self.entries@[k - 1].name@ == n);
                            }
                        }
                        if self.has_name(n) {
                            let k = choose|k: int|
                                0 <= k < self.entries@.len()
                                    && self.entries@[k].name@ == n;
                            if k < i as int {
                                assert(old(self).entries@[k].name@ == n);
                            } else {
                                assert(old(self).entries@[k + 1].name@ == n);
                            }
                        }
                    }
                    assert(!self.has_name(task_queue@)) by {
                        if self.has_name(task_queue@) {
                            let k = choose|k: int|
                                0 <= k < self.entries@.len()
                                    && self.entries@[k].name@ == task_queue@;
                            if k < i as int {
                                assert(old(self).entries@[k].name@ == task_queue@);
                            } else {
                                assert(old(self).entries@[k + 1].name@ == task_queue@);
                            }
                            assert(false);
                        }
                    }
                }
            },
        }
    }

    /// Shuts down every currently registered worker: each is signalled to
    /// drain exactly once, the visible mapping is emptied — no `get` finds
    /// anything afterwards — and every removed worker is retired. Workers
    /// with no outstanding handle are finalized at once and appended to
    /// `done`, in registration order; the rest park in `retiring`, their
    /// cleanup deferred to the release of their last handle. Workers already
    /// retiring are not signalled again.
    pub fn shutdown_all(&mut self)
        requires
            old(self).wf(),
        ensures
            final(self).wf(),
            final(self).entries@.len() == 0,
            forall|n: Seq<char>| !final(self).has_name(n),
            final(self).next_id == old(self).next_id,
            final(self).done@ == old(self).done@ + finalize_now(old(self).entries@),
            final(self).retiring@ == old(self).retiring@ + park_now(old(self).entries@),
    {
        let ghost orig = old(self).entries@;
        // the drain-signal phase completes for every worker before any
        // retirement begins
        let mut i: usize = 0;
        while i < self.entries.len()
            invariant
                old(self).wf(),
                orig == old(self).entries@,
                i <= self.entries@.len(),
                self.entries@.len() == orig.len(),
                forall|j: int| 0 <= j < i ==> self.entries@[j] == parked_of(orig[j]),
                forall|j: int| i <= j < orig.len() ==> self.entries@[j] == orig[j],
                self.retiring@ == old(self).retiring@,
                self.done@ == old(self).done@,
                self.next_id == old(self).next_id,
            decreases self.entries@.len() - i,
        {
            let ghost prev = self.entries@;
            proof {
                assert(entries_fresh(orig));
                assert(prev[i as int] == orig[i as int]);
                assert(orig[i as int].guard.worker.fresh());
            }
            let mut e = self.entries.remove(i);
            e.guard.worker.drain_signals = e.guard.worker.drain_signals + 1;
            self.entries.insert(i, e);
            proof {
                assert(self.entries@ =~= prev.update(
                    i as int,
                    parked_of(orig[i as int]),
                ));
            }
            i += 1;
        }
        // one swap empties the visible mapping: no lookup finds anything
        // from here on
        let mut drained: Vec<Entry> = Vec::new();
        core::mem::swap(&mut self.entries, &mut drained);
        proof {
            assert(orig.take(0) =~= Seq::<Entry>::empty());
            assert(self.done@ =~= old(self).done@ + finalize_now(orig.take(0)));
            assert(self.retiring@ =~= old(self).retiring@ + park_now(orig.take(0)));
            assert forall|j: int| 0 <= j < drained@.len() implies
                !done_has_id(self.done@, drained@[j].guard.guard_id) by {
                assert(drained@[j] == parked_of(orig[j]));
                if done_has_id(self.done@, drained@[j].guard.guard_id) {
                    let m = choose|m: int|
                        0 <= m < self.done@.len()
                            && self.done@[m].guard_id
                                == drained@[j].guard.guard_id;
                    assert(orig[j].guard.guard_id != self.done@[m].guard_id);
                    assert(false);
                }
            }
        }
        // retire every removed worker
        while drained.len() > 0
            invariant
                old(self).wf(),
                orig == old(self).entries@,
                self.entries@.len() == 0,
                drained@.len() <= orig.len(),
                forall|j: int|
                    0 <= j < drained@.len()
                        ==> drained@[j]
                            == parked_of(orig[j + orig.len() - drained@.len()]),
                forall|j: int|
                    0 <= j < drained@.len()
                        ==> !seq_has_id(self.retiring@, drained@[j].guard.guard_id),
                self.done@ == old(self).done@
                    + finalize_now(orig.take(orig.len() - drained@.len())),
                self.retiring@ == old(self).retiring@
                    + park_now(orig.take(orig.len() - drained@.len())),
                self.next_id == old(self).next_id,
                ids_unique(self.retiring@),
                ids_below(self.retiring@, self.next_id),
                retiring_wf(self.retiring@),
                done_wf(self.done@),
                done_ids_unique(self.done@),
                done_ids_below(self.done@, self.next_id),
                live_done_disjoint(self.retiring@, self.done@),
                forall|j: int|
                    0 <= j < drained@.len()
                        ==> !done_has_id(self.done@, drained@[j].guard.guard_id),
            decreases drained@.len(),
        {
            let ghost k = orig.len() - drained@.len();
            let ghost prev = drained@;
            let ghost ret0 = self.retiring@;
            let ghost done0 = self.done@;
            let e = drained.remove(0);
            proof {
                assert(prev[0] == parked_of(orig[k]));
                assert forall|j: int| 0 <= j < drained@.len() implies
                    drained@[j] == parked_of(orig[j + k + 1]) by {
                    assert(prev[j + 1] == parked_of(orig[j + 1 + k]));
                }
                assert(orig.take(k + 1).drop_last() =~= orig.take(k));
                assert(orig.take(k + 1).last() == orig[k]);
                assert(entries_fresh(orig));
                assert(ids_unique(orig));
                assert(orig[k].guard.worker.fresh());
            }
            if e.guard.outstanding == 0 {
                let mut w = e.guard.worker;
                w.finalize_calls = w.finalize_calls + 1;
                self.done.push(Retired {
                    name: e.name,
                    guard_id: e.guard.guard_id,
                    worker: w,
                });
                proof {
                    assert(self.done@ =~= old(self).done@
                        + finalize_now(orig.take(k + 1)));
                    assert(self.retiring@ =~= old(self).retiring@
                        + park_now(orig.take(k + 1)));
                    assert forall|j: int| 0 <= j < drained@.len() implies
                        !seq_has_id(self.retiring@, drained@[j].guard.guard_id) by {
                        assert(drained@[j] == prev[j + 1]);
                        assert(!seq_has_id(ret0, prev[j + 1].guard.guard_id));
                    }
                    assert(e.guard.guard_id == prev[0].guard.guard_id);
                    assert(!done_has_id(done0, prev[0].guard.guard_id));
                    assert(done_ids_unique(self.done@)) by {
                        assert forall|m1: int, m2: int|
                            0 <= m1 < m2 < self.done@.len() implies
                            self.done@[m1].guard_id != self.done@[m2].guard_id by {
                            assert(self.done@[m1] == done0[m1]);
                            if m2 < self.done@.len() - 1 {
                                assert(self.done@[m2] == done0[m2]);
                            } else {
                                assert(self.done@[m2].guard_id == e.guard.guard_id);
                            }
                        }
                    }
                    assert(live_done_disjoint(self.retiring@, self.done@)) by {
                        assert(!seq_has_id(ret0, prev[0].guard.guard_id));
                        assert forall|m1: int, m2: int|
                            0 <= m1 < self.retiring@.len()
                                && 0 <= m2 < self.done@.len() implies
                            self.retiring@[m1].guard.guard_id
                                != self.done@[m2].guard_id by {
                            if m2 < self.done@.len() - 1 {
                                assert(self.done@[m2] == done0[m2]);
                            } else {
                                assert(self.done@[m2].guard_id == e.guard.guard_id);
                            }
                        }
                    }
                    assert forall|j: int| 0 <= j < drained@.len() implies
                        !done_has_id(self.done@, drained@[j].guard.guard_id) by {
                        assert(drained@[j] == prev[j + 1]);
                        assert(orig[k].guard.guard_id
                            != orig[j + k + 1].guard.guard_id);
                        assert(!done_has_id(done0, prev[j + 1].guard.guard_id));
                        if done_has_id(self.done@, drained@[j].guard.guard_id) {
                            let m = choose|m: int|
                                0 <= m < self.done@.len()
                                    && self.done@[m].guard_id
                                        == drained@[j].guard.guard_id;
                            if m < self.done@.len() - 1 {
                                assert(self.done@[m] == done0[m]);
                                assert(done_has_id(done0, drained@[j].guard.guard_id));
                            } else {
                                assert(self.done@[m].guard_id == e.guard.guard_id);
                            }
                            assert(false);
                        }
                    }
                }
            } else {
                self.retiring.push(e);
                proof {
                    assert(self.done@ =~= old(self).done@
                        + finalize_now(orig.take(k + 1)));
                    assert(self.retiring@ =~= old(self).retiring@
                        + park_now(orig.take(k + 1)));
                    assert(!seq_has_id(ret0, e.guard.guard_id));
                    assert(ids_unique(self.retiring@)) by {
                        assert forall|m1: int, m2: int|
                            0 <= m1 < m2 < self.retiring@.len() implies
                            self.retiring@[m1].guard.guard_id
                                != self.retiring@[m2].guard.guard_id by {
                            if m2 < self.retiring@.len() - 1 {
                                assert(self.retiring@[m1] == ret0[m1]);
                                assert(self.retiring@[m2] == ret0[m2]);
                            } else {
                                assert(self.retiring@[m1] == ret0[m1]);
                                assert(self.retiring@[m2] == e);
                            }
                        }
                    }
                    assert forall|j: int| 0 <= j < drained@.len() implies
                        !seq_has_id(self.retiring@, drained@[j].guard.guard_id) by {
                        assert(drained@[j] == prev[j + 1]);
                        assert(drained@[j].guard.guard_id
                            == parked_of(orig[j + k + 1]).guard.guard_id);
                        assert(orig[k].guard.guard_id
                            != orig[j + k + 1].guard.guard_id);
                        assert(!seq_has_id(ret0, prev[j + 1].guard.guard_id));
                        if seq_has_id(self.retiring@, drained@[j].guard.guard_id) {
                            let m = choose|m: int|
                                0 <= m < self.retiring@.len()
                                    && self.retiring@[m].guard.guard_id
                                        == drained@[j].guard.guard_id;
                            if m < self.retiring@.len() - 1 {
                                assert(self.retiring@[m] == ret0[m]);
                                assert(seq_has_id(ret0, drained@[j].guard.guard_id));
                            } else {
                                assert(self.retiring@[m] == e);
                            }
                            assert(false);
                        }
                    }
                    assert(e.guard.guard_id == prev[0].guard.guard_id);
                    assert(!done_has_id(done0, prev[0].guard.guard_id));
                    assert(live_done_disjoint(self.retiring@, self.done@)) by {
                        assert forall|m1: int, m2: int|
                            0 <= m1 < self.retiring@.len()
                                && 0 <= m2 < self.done@.len() implies
                            self.retiring@[m1].guard.guard_id
                                != self.done@[m2].guard_id by {
                            if m1 < self.retiring@.len() - 1 {
                                assert(self.retiring@[m1] == ret0[m1]);
                            } else {
                                assert(self.retiring@[m1].guard.guard_id
                                    == e.guard.guard_id);
                            }
                        }
                    }
                    assert forall|j: int| 0 <= j < drained@.len() implies
                        !done_has_id(self.done@, drained@[j].guard.guard_id) by {
                        assert(drained@[j] == prev[j + 1]);
                        assert(!done_has_id(done0, prev[j + 1].guard.guard_id));
                    }
                }
            }
        }
        proof {
            assert(orig.take(orig.len() as int) =~= orig);
        }
    }

    /// Dereferences a handle to the worker it borrows: the worker of the
    /// unique live guard the handle was issued from. Valid for as long as
    /// the handle is held, whether the guard is still visible or already
    /// retiring.
    pub fn worker_of(&self, h: &BorrowHandle) -> (w: &Worker)
        requires
            self.wf(),
            self.handle_live(*h),
        ensures
            forall|i: int|
                0 <= i < self.entries@.len()
                    && self.entries@[i].guard.guard_id == h.id()
                    ==> *w == self.entries@[i].guard.worker,
            forall|i: int|
                0 <= i < self.retiring@.len()
                    && self.retiring@[i].guard.guard_id == h.id()
                    ==> *w == self.retiring@[i].guard.worker,
    {
        proof {
            h.lemma_id_value();
        }
        match find_id(&self.entries, h.guard_id) {
            Some(i) => {
                proof {
                    assert forall|k: int|
                        0 <= k < self.entries@.len()
                            && self.entries@[k].guard.guard_id == h.id()
                        implies k == i as int by {
                        if k < i as int {
                            assert(self.entries@[k].guard.guard_id
                                != self.entries@[i as int].guard.guard_id);
                        }
                        if k > i as int {
                            assert(self.entries@[i as int].guard.guard_id
                                != self.entries@[k].guard.guard_id);
                        }
                    }
                    assert forall|k: int| 0 <= k < self.retiring@.len() implies
                        self.retiring@[k].guard.guard_id != h.id() by {
                        assert(self.entries@[i as int].guard.guard_id
                            != self.retiring@[k].guard.guard_id);
                    }
                }
                &self.entries[i].guard.worker
            },
            None => {
                match find_id(&self.retiring, h.guard_id) {
                    Some(i) => {
                        proof {
                            assert forall|k: int|
                                0 <= k < self.retiring@.len()
                                    && self.retiring@[k].guard.guard_id == h.id()
                                implies k == i as int by {
                                if k < i as int {
                                    assert(self.retiring@[k].guard.guard_id
                                        != self.retiring@[i as int].guard.guard_id);
                                }
                                if k > i as int {
                                    assert(self.retiring@[i as int].guard.guard_id
                                        != self.retiring@[k].guard.guard_id);
                                }
                            }
                        }
                        &self.retiring[i].guard.worker
                    },
                    None => {
                        proof {
                            let k = choose|k: int|
                                0 <= k < self.entries@.len()
                                    && self.entries@[k].guard.guard_id == h.id()
                                    && self.entries@[k].guard.outstanding > 0;
                            assert(seq_has_id(self.entries@, h.id()));
                            assert(false);
                        }
                        vstd::pervasive::unreached()
                    },
                }
            },
        }
    }
}

impl Default for WorkerDispatcher {
    fn default() -> (d: WorkerDispatcher)
        ensures
            d.wf(),
            d.entries@.len() == 0,
            d.retiring@.len() == 0,
            d.done@.len() == 0,
            d.next_id == 0,
    {
        WorkerDispatcher::new()
    }
}

} // verus!
