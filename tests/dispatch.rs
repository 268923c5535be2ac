use rust_web_server::dispatch::Dispatcher;
use rust_web_server::model::{Decision, WorkerState};
use std::sync::atomic::{AtomicUsize, Ordering};
use std::sync::Arc;

type Job = Box<dyn FnOnce() + Send + 'static>;

fn expect_run<T>(d: Decision<T>) -> T {
    match d {
        Decision::Run(job) => job,
        Decision::Wait => panic!("expected a job, got Wait"),
        Decision::Exit => panic!("expected a job, got Exit"),
    }
}

#[test]
fn new_pool_has_size_idle_workers() {
    for size in [1usize, 2, 4, 7] {
        let d: Dispatcher<u32> = Dispatcher::new(size);
        assert_eq!(d.size(), size);
        assert!(d.is_open());
        assert_eq!(d.pending(), 0);
        for w in 0..size {
            assert_eq!(d.state(w), WorkerState::Idle);
        }
    }
}

#[test]
fn idle_worker_waits_while_nothing_is_queued() {
    let mut d: Dispatcher<u32> = Dispatcher::new(2);
    assert!(matches!(d.take(0), Decision::Wait));
    assert_eq!(d.state(0), WorkerState::Idle);
    assert_eq!(d.pending(), 0);
}

#[test]
fn single_worker_runs_jobs_one_after_another() {
    let mut d: Dispatcher<&'static str> = Dispatcher::new(1);
    let mut log: Vec<&'static str> = Vec::new();
    assert!(d.submit("A").is_ok());
    assert!(d.submit("B").is_ok());
    let a = expect_run(d.take(0));
    assert_eq!(d.state(0), WorkerState::Busy);
    // B stays queued while the only worker runs A.
    assert_eq!(d.pending(), 1);
    log.push(a);
    d.finish(0, false);
    let b = expect_run(d.take(0));
    log.push(b);
    d.finish(0, false);
    assert_eq!(log, vec!["A", "B"]);
}

#[test]
fn back_to_back_jobs_go_to_two_workers() {
    let mut d: Dispatcher<u32> = Dispatcher::new(2);
    assert!(d.submit(10).is_ok());
    assert!(d.submit(20).is_ok());
    assert_eq!(expect_run(d.take(0)), 10);
    assert_eq!(expect_run(d.take(1)), 20);
    assert_eq!(d.state(0), WorkerState::Busy);
    assert_eq!(d.state(1), WorkerState::Busy);
    assert_eq!(d.pending(), 0);
}

#[test]
fn hundred_jobs_on_four_workers_each_run_once() {
    let counter = Arc::new(AtomicUsize::new(0));
    let mut d: Dispatcher<Job> = Dispatcher::new(4);
    for _ in 0..100 {
        let c = Arc::clone(&counter);
        let job: Job = Box::new(move || {
            c.fetch_add(1, Ordering::SeqCst);
        });
        assert!(d.submit(job).is_ok());
    }
    d.close();
    let mut stopped = [false; 4];
    let mut w = 0usize;
    while stopped.iter().any(|s| !s) {
        if !stopped[w] {
            match d.take(w) {
                Decision::Run(job) => {
                    job();
                    d.finish(w, false);
                }
                Decision::Wait => panic!("a closed pool never asks to wait"),
                Decision::Exit => stopped[w] = true,
            }
        }
        w = (w + 1) % 4;
    }
    assert_eq!(counter.load(Ordering::SeqCst), 100);
    for w in 0..4 {
        assert_eq!(d.state(w), WorkerState::Stopped);
    }
}

#[test]
fn close_refuses_new_jobs_but_drains_queued_ones() {
    let mut d: Dispatcher<u32> = Dispatcher::new(1);
    assert!(d.submit(1).is_ok());
    d.close();
    assert!(!d.is_open());
    assert_eq!(d.submit(2), Err(2));
    assert_eq!(expect_run(d.take(0)), 1);
    d.finish(0, false);
    assert!(matches!(d.take(0), Decision::Exit));
    assert_eq!(d.state(0), WorkerState::Stopped);
}

#[test]
fn failed_job_loses_only_its_worker() {
    let mut d: Dispatcher<u32> = Dispatcher::new(3);
    assert!(d.submit(1).is_ok());
    assert_eq!(expect_run(d.take(0)), 1);
    d.finish(0, true);
    assert_eq!(d.state(0), WorkerState::Lost);
    assert_eq!(d.state(1), WorkerState::Idle);
    assert_eq!(d.state(2), WorkerState::Idle);
    assert!(d.submit(2).is_ok());
    assert!(d.submit(3).is_ok());
    assert_eq!(expect_run(d.take(1)), 2);
    assert_eq!(expect_run(d.take(2)), 3);
    d.finish(1, false);
    d.finish(2, false);
    assert_eq!(d.state(1), WorkerState::Idle);
    assert_eq!(d.state(2), WorkerState::Idle);
}

#[test]
fn submit_refused_once_every_worker_is_lost() {
    let mut d: Dispatcher<u32> = Dispatcher::new(1);
    assert!(d.submit(5).is_ok());
    assert_eq!(expect_run(d.take(0)), 5);
    d.finish(0, true);
    assert!(d.is_open());
    assert_eq!(d.submit(6), Err(6));
    assert_eq!(d.pending(), 0);
}
