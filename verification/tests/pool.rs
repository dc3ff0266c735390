//! The worker pool model and the shutdown lifecycle.
use formrelay::pool::{lifecycle_step, Lifecycle, LifecycleEvent, WorkerPool};

#[test]
fn fifo_order_kept() {
    let mut pool = WorkerPool::new(4);
    pool.execute(10);
    pool.execute(20);
    pool.execute(30);
    assert_eq!(pool.take_job(), Some(10));
    assert_eq!(pool.take_job(), Some(20));
    assert_eq!(pool.take_job(), Some(30));
    assert_eq!(pool.take_job(), None);
}

#[test]
fn more_jobs_than_workers_all_complete() {
    // A pool of size N accepts N + 1 submissions without refusing any, and
    // every job is handed out exactly once.
    let workers = 3;
    let mut pool = WorkerPool::new(workers);
    for j in 0..(workers as u64 + 1) {
        pool.execute(j);
    }
    let mut seen = Vec::new();
    while let Some(j) = pool.take_job() {
        assert!(!seen.contains(&j), "a job must not run twice");
        seen.push(j);
    }
    assert_eq!(seen, vec![0, 1, 2, 3], "no job may be lost");
}

#[test]
fn shutdown_stops_accepting_but_drains() {
    // After the flag is set no new connection is accepted, but a job
    // already enqueued is still handed out and completes.
    let mut pool = WorkerPool::new(2);
    pool.execute(7);
    assert!(pool.accepts_connections());
    pool.request_shutdown();
    assert!(!pool.accepts_connections());
    assert_eq!(pool.take_job(), Some(7));
    assert_eq!(pool.take_job(), None);
}

#[test]
fn lifecycle_transitions() {
    let s = Lifecycle::Running;
    let s = lifecycle_step(s, LifecycleEvent::Signal);
    assert_eq!(s, Lifecycle::Draining);
    let s = lifecycle_step(s, LifecycleEvent::AcceptLoopExit);
    assert_eq!(s, Lifecycle::Stopped);
}

#[test]
fn lifecycle_ignores_other_events() {
    assert_eq!(
        lifecycle_step(Lifecycle::Running, LifecycleEvent::AcceptLoopExit),
        Lifecycle::Running
    );
    assert_eq!(
        lifecycle_step(Lifecycle::Stopped, LifecycleEvent::Signal),
        Lifecycle::Stopped
    );
    assert_eq!(
        lifecycle_step(Lifecycle::Draining, LifecycleEvent::Signal),
        Lifecycle::Draining
    );
}
