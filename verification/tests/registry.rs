//! Lifecycle tests for the worker dispatcher: registration, lookup,
//! shutdown of one queue, and the handle-release protocol.

use worker_registry::dispatcher::WorkerDispatcher;
use worker_registry::worker::{Worker, WorkerConfig, WorkerRegistrationError};

#[test]
fn register_then_lookup_succeeds() {
    let mut d = WorkerDispatcher::new();
    let r = d.set_worker_for_task_queue("alpha".to_string(), Worker::new());
    assert!(r.is_ok());
    let h = d.get("alpha");
    assert!(h.is_some());
    assert!(d.get("beta").is_none());
    d.release(h.unwrap());
}

#[test]
fn duplicate_registration_rejected() {
    let mut d = WorkerDispatcher::new();
    assert!(d.set_worker_for_task_queue("alpha".to_string(), Worker::new()).is_ok());
    let r = d.set_worker_for_task_queue("alpha".to_string(), Worker::new());
    match r {
        Err(WorkerRegistrationError::WorkerAlreadyRegisteredForQueue(n)) => {
            assert_eq!(n, "alpha");
        }
        Ok(()) => panic!("second registration for the same queue must fail"),
    }
    // the existing registration is untouched
    assert_eq!(d.entries.len(), 1);
    let h = d.get("alpha");
    assert!(h.is_some());
    d.release(h.unwrap());
}

#[test]
fn distinct_names_coexist() {
    let mut d = WorkerDispatcher::new();
    assert!(d.set_worker_for_task_queue("a".to_string(), Worker::new()).is_ok());
    assert!(d.set_worker_for_task_queue("b".to_string(), Worker::new()).is_ok());
    assert_eq!(d.entries.len(), 2);
    let ha = d.get("a");
    let hb = d.get("b");
    assert!(ha.is_some());
    assert!(hb.is_some());
    d.release(ha.unwrap());
    d.release(hb.unwrap());
}

#[test]
fn shutdown_of_unregistered_queue_is_noop() {
    let mut d = WorkerDispatcher::new();
    d.shutdown_one("ghost");
    assert_eq!(d.entries.len(), 0);
    assert_eq!(d.retiring.len(), 0);
    assert_eq!(d.done.len(), 0);

    assert!(d.set_worker_for_task_queue("alpha".to_string(), Worker::new()).is_ok());
    d.shutdown_one("ghost");
    assert_eq!(d.entries.len(), 1);
    assert_eq!(d.retiring.len(), 0);
    assert_eq!(d.done.len(), 0);
    let h = d.get("alpha");
    assert!(h.is_some());
    d.release(h.unwrap());
}

#[test]
fn shutdown_without_handles_finalizes_at_once() {
    let mut d = WorkerDispatcher::new();
    assert!(d.set_worker_for_task_queue("q".to_string(), Worker::new()).is_ok());
    d.shutdown_one("q");
    assert_eq!(d.entries.len(), 0);
    assert_eq!(d.retiring.len(), 0);
    assert_eq!(d.done.len(), 1);
    assert_eq!(d.done[0].name, "q");
    assert_eq!(d.done[0].worker.drain_signals, 1);
    assert_eq!(d.done[0].worker.finalize_calls, 1);
    assert!(d.get("q").is_none());
}

#[test]
fn cleanup_waits_for_every_handle() {
    let mut d = WorkerDispatcher::new();
    assert!(d.set_worker_for_task_queue("q".to_string(), Worker::new()).is_ok());
    let h1 = d.get("q").unwrap();
    let h2 = d.get("q").unwrap();
    let h3 = d.get("q").unwrap();

    d.shutdown_one("q");
    // removed from the visible mapping at once ...
    assert!(d.get("q").is_none());
    // ... but not finalized: three handles are still held
    assert_eq!(d.retiring.len(), 1);
    assert_eq!(d.done.len(), 0);
    assert_eq!(d.retiring[0].guard.worker.drain_signals, 1);
    assert_eq!(d.retiring[0].guard.worker.finalize_calls, 0);
    assert_eq!(d.retiring[0].guard.outstanding, 3);

    d.release(h1);
    assert_eq!(d.done.len(), 0);
    d.release(h2);
    assert_eq!(d.done.len(), 0);
    // the worker is still reachable through the last handle
    assert_eq!(d.worker_of(&h3).finalize_calls, 0);
    assert_eq!(d.worker_of(&h3).drain_signals, 1);

    d.release(h3);
    // the last release runs the terminal cleanup, exactly once
    assert_eq!(d.retiring.len(), 0);
    assert_eq!(d.done.len(), 1);
    assert_eq!(d.done[0].name, "q");
    assert_eq!(d.done[0].worker.finalize_calls, 1);
    assert_eq!(d.done[0].worker.drain_signals, 1);
}

#[test]
fn scenario_register_lookup_drop_shutdown() {
    let mut d = WorkerDispatcher::new();
    assert!(d.set_worker_for_task_queue("A".to_string(), Worker::new()).is_ok());

    let h = d.get("A");
    assert!(h.is_some());
    let h = h.unwrap();
    // the handle is usable: it reaches the worker, which is untouched so far
    assert_eq!(d.worker_of(&h).drain_signals, 0);
    assert_eq!(d.worker_of(&h).finalize_calls, 0);

    d.release(h);
    d.shutdown_one("A");

    // drain signal then terminal cleanup, each exactly once
    assert_eq!(d.done.len(), 1);
    assert_eq!(d.done[0].name, "A");
    assert_eq!(d.done[0].worker.drain_signals, 1);
    assert_eq!(d.done[0].worker.finalize_calls, 1);
    assert!(d.get("A").is_none());
}

#[test]
fn release_of_visible_handle_only_lowers_the_count() {
    let mut d = WorkerDispatcher::new();
    assert!(d.set_worker_for_task_queue("q".to_string(), Worker::new()).is_ok());
    let h1 = d.get("q").unwrap();
    let h2 = d.get("q").unwrap();
    assert_eq!(d.entries[0].guard.outstanding, 2);
    d.release(h1);
    assert_eq!(d.entries[0].guard.outstanding, 1);
    // the worker stays registered and untouched
    assert_eq!(d.done.len(), 0);
    assert_eq!(d.worker_of(&h2).drain_signals, 0);
    d.release(h2);
    assert_eq!(d.entries[0].guard.outstanding, 0);
}

#[test]
fn reregistration_after_shutdown_succeeds() {
    let mut d = WorkerDispatcher::new();
    assert!(d.set_worker_for_task_queue("q".to_string(), Worker::new()).is_ok());
    d.shutdown_one("q");
    assert!(d.get("q").is_none());
    // the name is free again
    assert!(d.set_worker_for_task_queue("q".to_string(), Worker::new()).is_ok());
    let h = d.get("q");
    assert!(h.is_some());
    d.release(h.unwrap());
    d.shutdown_one("q");
    assert_eq!(d.done.len(), 2);
    assert_eq!(d.done[0].worker.finalize_calls, 1);
    assert_eq!(d.done[1].worker.finalize_calls, 1);
    // two distinct workers retired under the same name, each exactly once
    assert_ne!(d.done[0].guard_id, d.done[1].guard_id);
}

#[test]
fn name_stays_absent_while_old_worker_retires() {
    let mut d = WorkerDispatcher::new();
    assert!(d.set_worker_for_task_queue("q".to_string(), Worker::new()).is_ok());
    let h = d.get("q").unwrap();
    d.shutdown_one("q");
    // the old worker is mid-drain; the name is absent from the mapping
    assert!(d.get("q").is_none());
    // a new worker may take the name while the old one still drains
    assert!(d.set_worker_for_task_queue("q".to_string(), Worker::new()).is_ok());
    let h2 = d.get("q").unwrap();
    // the two handles reach different workers
    assert_eq!(d.worker_of(&h).drain_signals, 1);
    assert_eq!(d.worker_of(&h2).drain_signals, 0);
    d.release(h);
    assert_eq!(d.done.len(), 1);
    d.release(h2);
    assert_eq!(d.done.len(), 1);
}

#[test]
fn new_worker_registers_under_config_queue() {
    let mut d = WorkerDispatcher::new();
    let cfg = WorkerConfig { task_queue: "cfg".to_string() };
    assert!(d.new_worker(cfg).is_ok());
    let h = d.get("cfg");
    assert!(h.is_some());
    d.release(h.unwrap());
    let cfg2 = WorkerConfig { task_queue: "cfg".to_string() };
    match d.new_worker(cfg2) {
        Err(WorkerRegistrationError::WorkerAlreadyRegisteredForQueue(n)) => {
            assert_eq!(n, "cfg");
        }
        Ok(()) => panic!("duplicate queue name must be rejected"),
    }
}

#[test]
fn many_interleaved_lookups_race_one_shutdown() {
    let mut d = WorkerDispatcher::new();
    assert!(d.set_worker_for_task_queue("q".to_string(), Worker::new()).is_ok());

    // fifty handles issued before the shutdown, released in an arbitrary
    // interleaving around it: cleanup runs exactly once, at the very last
    // release, never earlier
    let mut held = Vec::new();
    for _ in 0..50 {
        held.push(d.get("q").unwrap());
    }
    // some borrowers finish before the shutdown arrives
    for _ in 0..20 {
        d.release(held.pop().unwrap());
    }
    d.shutdown_one("q");
    assert!(d.get("q").is_none());
    while let Some(h) = held.pop() {
        assert_eq!(d.done.len(), 0);
        assert_eq!(d.worker_of(&h).finalize_calls, 0);
        d.release(h);
    }
    assert_eq!(d.done.len(), 1);
    assert_eq!(d.done[0].worker.finalize_calls, 1);
    assert_eq!(d.done[0].worker.drain_signals, 1);
}

#[test]
fn dispatchers_are_independent() {
    let mut d1 = WorkerDispatcher::new();
    let mut d2 = WorkerDispatcher::default();
    assert!(d1.set_worker_for_task_queue("q".to_string(), Worker::new()).is_ok());
    assert!(d2.get("q").is_none());
    assert!(d2.set_worker_for_task_queue("q".to_string(), Worker::new()).is_ok());
    d1.shutdown_one("q");
    let h2 = d2.get("q");
    assert!(h2.is_some());
    d2.release(h2.unwrap());
    assert_eq!(d1.done.len(), 1);
    assert_eq!(d2.done.len(), 0);
}
