//! The registry's guarantees, stated and proved once over any well-formed
//! dispatcher state. Every public operation of
//! [`crate::dispatcher::WorkerDispatcher`] requires and ensures
//! well-formedness, so whatever holds of every well-formed state holds after
//! any sequence of operations, however they are interleaved.
//!
//! Two guarantees are stated directly on the operations rather than here.
//! Lookup visibility: `get` returns a handle if and only if a worker is
//! visible under the name (`r is Some <==> has_name`), registration makes
//! the name visible, and a shutdown makes it invisible at once, whatever
//! handles are still alive elsewhere. Idempotent shutdown: `shutdown_one`
//! of a name with no registered worker leaves the dispatcher untouched
//! (`*final(self) == *old(self)`).

use vstd::prelude::*;
use crate::dispatcher::{
    finalize_now, park_now, parked_of, retired_of, Entry, WorkerDispatcher,
};
use crate::guard::BorrowHandle;

verus! {

/// Uniqueness: at most one worker is ever visible under a given queue name.
/// Together with the contract of `set_worker_for_task_queue` — which
/// returns the conflict error and leaves the state untouched whenever the
/// name is already taken — no registration ever replaces a visible worker.
pub proof fn lemma_unique_visible(d: WorkerDispatcher, i: int, j: int)
    requires
        d.wf(),
        0 <= i < d.entries@.len(),
        0 <= j < d.entries@.len(),
        d.entries@[i].name@ == d.entries@[j].name@,
    ensures
        i == j,
{
}

/// Exactly-once finalize: in every reachable state, each fully retired
/// worker has had its terminal cleanup run exactly once — preceded by
/// exactly one drain signal — while no worker that is still visible or
/// still retiring has had it run at all. Since `release` is the only
/// operation that finalizes a retiring worker, and it does so only on the
/// release of the last outstanding handle, the cleanup of each worker runs
/// once, never twice, under any interleaving of lookups and shutdowns.
pub proof fn lemma_finalize_exactly_once(d: WorkerDispatcher)
    requires
        d.wf(),
    ensures
        forall|i: int|
            0 <= i < d.done@.len()
                ==> d.done@[i].worker.finalize_calls == 1
                    && d.done@[i].worker.drain_signals == 1,
        forall|i: int|
            0 <= i < d.entries@.len()
                ==> d.entries@[i].guard.worker.finalize_calls == 0,
        forall|i: int|
            0 <= i < d.retiring@.len()
                ==> d.retiring@[i].guard.worker.finalize_calls == 0,
        // per guard identity: at most one retired record, and none that is
        // still live
        forall|i: int, j: int|
            0 <= i < j < d.done@.len() ==> d.done@[i].guard_id != d.done@[j].guard_id,
        forall|i: int, j: int|
            0 <= i < d.entries@.len() && 0 <= j < d.done@.len()
                ==> d.entries@[i].guard.guard_id != d.done@[j].guard_id,
        forall|i: int, j: int|
            0 <= i < d.retiring@.len() && 0 <= j < d.done@.len()
                ==> d.retiring@[i].guard.guard_id != d.done@[j].guard_id,
{
}

/// No premature cleanup: while any issued handle for a worker is still
/// held, that worker's guard is live — visible or retiring — and its
/// terminal cleanup has not run. A handle can only stop being live through
/// `release`, so cleanup never runs before every handle is given back.
pub proof fn lemma_no_premature_cleanup(d: WorkerDispatcher, h: BorrowHandle, i: int)
    requires
        d.wf(),
        d.handle_live(h),
    ensures
        0 <= i < d.entries@.len() && d.entries@[i].guard.guard_id == h.id()
            ==> d.entries@[i].guard.worker.finalize_calls == 0,
        0 <= i < d.retiring@.len() && d.retiring@[i].guard.guard_id == h.id()
            ==> d.retiring@[i].guard.worker.finalize_calls == 0,
{
}

/// `shutdown_all` accounts for every previously visible entry: the entries
/// it retires at once and the entries it parks partition them.
pub proof fn lemma_shutdown_all_partitions(s: Seq<Entry>)
    ensures
        finalize_now(s).len() + park_now(s).len() == s.len(),
    decreases s.len(),
{
    if s.len() > 0 {
        lemma_shutdown_all_partitions(s.drop_last());
    }
}

/// What `shutdown_all` retires at once: exactly the entries with no
/// outstanding handle, each drained once more and finalized once more, and
/// nothing else.
pub proof fn lemma_finalize_now_accounts(s: Seq<Entry>)
    ensures
        forall|i: int|
            0 <= i < s.len() && s[i].guard.outstanding == 0
                ==> exists|j: int|
                    0 <= j < finalize_now(s).len()
                        && finalize_now(s)[j] == retired_of(s[i]),
        forall|j: int| #![trigger finalize_now(s)[j]]
            0 <= j < finalize_now(s).len()
                ==> exists|i: int|
                    0 <= i < s.len() && s[i].guard.outstanding == 0
                        && finalize_now(s)[j] == retired_of(s[i]),
    decreases s.len(),
{
    if s.len() > 0 {
        let t = s.drop_last();
        lemma_finalize_now_accounts(t);
        assert forall|i: int|
            0 <= i < s.len() && s[i].guard.outstanding == 0 implies exists|j: int|
                0 <= j < finalize_now(s).len()
                    && finalize_now(s)[j] == retired_of(s[i]) by {
            if i < s.len() - 1 {
                assert(t[i] == s[i]);
                let j = choose|j: int|
                    0 <= j < finalize_now(t).len()
                        && finalize_now(t)[j] == retired_of(t[i]);
                assert(finalize_now(s)[j] == retired_of(s[i]));
            } else {
                let j = finalize_now(s).len() - 1;
                assert(finalize_now(s)[j] == retired_of(s[i]));
            }
        }
        assert forall|j: int| #![trigger finalize_now(s)[j]]
            0 <= j < finalize_now(s).len() implies exists|i: int|
                0 <= i < s.len() && s[i].guard.outstanding == 0
                    && finalize_now(s)[j] == retired_of(s[i]) by {
            if j < finalize_now(t).len() {
                let i = choose|i: int|
                    0 <= i < t.len() && t[i].guard.outstanding == 0
                        && finalize_now(t)[j] == retired_of(t[i]);
                assert(s[i] == t[i]);
                assert(finalize_now(s)[j] == retired_of(s[i]));
            } else {
                let i = s.len() - 1;
                assert(finalize_now(s)[j] == retired_of(s[i]));
            }
        }
    }
}

/// What `shutdown_all` parks: exactly the entries with handles still out,
/// each drained once more, its outstanding count and guard identity intact,
/// its cleanup not run — and nothing else.
pub proof fn lemma_park_now_accounts(s: Seq<Entry>)
    ensures
        forall|i: int|
            0 <= i < s.len() && s[i].guard.outstanding > 0
                ==> exists|j: int|
                    0 <= j < park_now(s).len()
                        && park_now(s)[j] == parked_of(s[i]),
        forall|j: int| #![trigger park_now(s)[j]]
            0 <= j < park_now(s).len()
                ==> exists|i: int|
                    0 <= i < s.len() && s[i].guard.outstanding > 0
                        && park_now(s)[j] == parked_of(s[i]),
    decreases s.len(),
{
    if s.len() > 0 {
        let t = s.drop_last();
        lemma_park_now_accounts(t);
        assert forall|i: int|
            0 <= i < s.len() && s[i].guard.outstanding > 0 implies exists|j: int|
                0 <= j < park_now(s).len() && park_now(s)[j] == parked_of(s[i]) by {
            if i < s.len() - 1 {
                assert(t[i] == s[i]);
                let j = choose|j: int|
                    0 <= j < park_now(t).len() && park_now(t)[j] == parked_of(t[i]);
                assert(park_now(s)[j] == parked_of(s[i]));
            } else {
                let j = park_now(s).len() - 1;
                assert(park_now(s)[j] == parked_of(s[i]));
            }
        }
        assert forall|j: int| #![trigger park_now(s)[j]]
            0 <= j < park_now(s).len() implies exists|i: int|
                0 <= i < s.len() && s[i].guard.outstanding > 0
                    && park_now(s)[j] == parked_of(s[i]) by {
            if j < park_now(t).len() {
                let i = choose|i: int|
                    0 <= i < t.len() && t[i].guard.outstanding > 0
                        && park_now(t)[j] == parked_of(t[i]);
                assert(s[i] == t[i]);
                assert(park_now(s)[j] == parked_of(s[i]));
            } else {
                let i = s.len() - 1;
                assert(park_now(s)[j] == parked_of(s[i]));
            }
        }
    }
}

} // verus!
