//! Tests for draining the whole registry at once, and for the wake-up
//! decision the drop path of a shared drain takes.

use worker_registry::dispatcher::WorkerDispatcher;
use worker_registry::guard::drop_wakes_retirer;
use worker_registry::worker::Worker;

#[test]
fn shutdown_all_drains_everything() {
    let mut d = WorkerDispatcher::new();
    assert!(d.set_worker_for_task_queue("a".to_string(), Worker::new()).is_ok());
    assert!(d.set_worker_for_task_queue("b".to_string(), Worker::new()).is_ok());
    assert!(d.set_worker_for_task_queue("c".to_string(), Worker::new()).is_ok());

    d.shutdown_all();

    assert_eq!(d.entries.len(), 0);
    assert!(d.get("a").is_none());
    assert!(d.get("b").is_none());
    assert!(d.get("c").is_none());
    // no handle was out: every worker is fully retired, in order, with
    // exactly one drain signal and exactly one terminal cleanup each
    assert_eq!(d.retiring.len(), 0);
    assert_eq!(d.done.len(), 3);
    let names: Vec<&str> = d.done.iter().map(|r| r.name.as_str()).collect();
    assert_eq!(names, vec!["a", "b", "c"]);
    for r in &d.done {
        assert_eq!(r.worker.drain_signals, 1);
        assert_eq!(r.worker.finalize_calls, 1);
    }
}

#[test]
fn shutdown_all_parks_workers_with_live_handles() {
    let mut d = WorkerDispatcher::new();
    assert!(d.set_worker_for_task_queue("a".to_string(), Worker::new()).is_ok());
    assert!(d.set_worker_for_task_queue("b".to_string(), Worker::new()).is_ok());
    assert!(d.set_worker_for_task_queue("c".to_string(), Worker::new()).is_ok());
    let hb = d.get("b").unwrap();

    d.shutdown_all();

    assert_eq!(d.entries.len(), 0);
    assert!(d.get("b").is_none());
    // "a" and "c" retire at once; "b" parks behind its outstanding handle
    assert_eq!(d.done.len(), 2);
    assert_eq!(d.done[0].name, "a");
    assert_eq!(d.done[1].name, "c");
    assert_eq!(d.retiring.len(), 1);
    assert_eq!(d.retiring[0].name, "b");
    assert_eq!(d.retiring[0].guard.worker.drain_signals, 1);
    assert_eq!(d.retiring[0].guard.worker.finalize_calls, 0);

    d.release(hb);
    assert_eq!(d.retiring.len(), 0);
    assert_eq!(d.done.len(), 3);
    assert_eq!(d.done[2].name, "b");
    assert_eq!(d.done[2].worker.drain_signals, 1);
    assert_eq!(d.done[2].worker.finalize_calls, 1);
}

#[test]
fn shutdown_all_of_many_workers_retires_each_exactly_once() {
    let mut d = WorkerDispatcher::new();
    for i in 0..12 {
        let name = format!("queue-{}", i);
        assert!(d.set_worker_for_task_queue(name, Worker::new()).is_ok());
    }
    d.shutdown_all();
    assert_eq!(d.entries.len(), 0);
    assert_eq!(d.retiring.len(), 0);
    assert_eq!(d.done.len(), 12);
    for i in 0..12 {
        assert_eq!(d.done[i].name, format!("queue-{}", i));
        assert_eq!(d.done[i].worker.drain_signals, 1);
        assert_eq!(d.done[i].worker.finalize_calls, 1);
        assert!(d.get(&format!("queue-{}", i)).is_none());
    }
}

#[test]
fn shutdown_all_of_empty_registry_is_noop() {
    let mut d = WorkerDispatcher::new();
    d.shutdown_all();
    assert_eq!(d.entries.len(), 0);
    assert_eq!(d.retiring.len(), 0);
    assert_eq!(d.done.len(), 0);
}

#[test]
fn drop_wake_decision() {
    // dropping the retirer's emptied shell always wakes the retirer
    assert!(drop_wakes_retirer(true, 0));
    assert!(drop_wakes_retirer(true, 5));
    // dropping an ordinary duplicate wakes it only when the observed count
    // is exactly two: the retirer's kept reference plus this duplicate
    assert!(drop_wakes_retirer(false, 2));
    assert!(!drop_wakes_retirer(false, 1));
    assert!(!drop_wakes_retirer(false, 3));
}
