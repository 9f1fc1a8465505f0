use message_hub::pool::{Dispatch, PoolError, PoolState, WorkerState};

/// Runs every queued task, handing work to the workers in turn, and
/// returns how many tasks ran.
fn drain(pool: &mut PoolState, counter: &mut Vec<u64>) -> u64 {
    let mut ran = 0;
    loop {
        let mut progressed = false;
        for w in 0..pool.size() {
            if pool.worker_state(w) != WorkerState::Idle {
                continue;
            }
            if let Dispatch::Run(t) = pool.claim(w) {
                counter.push(t);
                pool.finish(w, true);
                ran += 1;
                progressed = true;
            }
        }
        if !progressed {
            return ran;
        }
    }
}

#[test]
fn four_workers_run_eight_tasks_once_each() {
    let mut pool = PoolState::new(4);
    let mut counter = Vec::new();
    for expected in 0..8 {
        assert_eq!(pool.submit(), Ok(expected));
    }
    assert_eq!(drain(&mut pool, &mut counter), 8);
    assert_eq!(pool.shutdown(), Ok(()));
    for w in 0..4 {
        assert_eq!(pool.claim(w), Dispatch::Exit);
        assert_eq!(pool.worker_state(w), WorkerState::Stopped);
    }
    assert!(pool.all_stopped());
    assert_eq!(counter.len(), 8);
    assert_eq!(counter, (0..8).collect::<Vec<u64>>());
    assert_eq!(pool.succeeded(), 8);
    assert_eq!(pool.submitted(), 8);
}

#[test]
fn tasks_are_dispatched_in_submission_order() {
    let mut pool = PoolState::new(2);
    for _ in 0..3 {
        pool.submit().unwrap();
    }
    assert_eq!(pool.claim(1), Dispatch::Run(0));
    assert_eq!(pool.claim(0), Dispatch::Run(1));
    assert_eq!(pool.worker_state(1), WorkerState::Executing(0));
    pool.finish(0, true);
    assert_eq!(pool.claim(0), Dispatch::Run(2));
    assert!(!pool.is_idle());
    pool.finish(0, false);
    pool.finish(1, true);
    assert!(pool.is_idle());
    assert_eq!((pool.succeeded(), pool.failed()), (2, 1));
}

#[test]
fn empty_queue_tells_worker_to_wait() {
    let mut pool = PoolState::new(1);
    assert!(pool.is_idle());
    assert_eq!(pool.claim(0), Dispatch::Wait);
    assert_eq!(pool.worker_state(0), WorkerState::Idle);
}

#[test]
fn zero_tasks_then_teardown() {
    let mut pool = PoolState::new(3);
    assert_eq!(pool.shutdown(), Ok(()));
    assert!(!pool.all_stopped());
    for w in 0..3 {
        assert_eq!(pool.claim(w), Dispatch::Exit);
    }
    assert!(pool.all_stopped());
    assert_eq!(pool.succeeded() + pool.failed(), 0);
}

#[test]
fn teardown_signals_queue_behind_pending_tasks() {
    let mut pool = PoolState::new(2);
    pool.submit().unwrap();
    pool.submit().unwrap();
    pool.submit().unwrap();
    pool.shutdown().unwrap();
    assert_eq!(pool.claim(0), Dispatch::Run(0));
    assert_eq!(pool.claim(1), Dispatch::Run(1));
    pool.finish(1, true);
    assert_eq!(pool.claim(1), Dispatch::Run(2));
    pool.finish(0, true);
    assert_eq!(pool.claim(0), Dispatch::Exit);
    pool.finish(1, true);
    assert_eq!(pool.claim(1), Dispatch::Exit);
    assert!(pool.all_stopped());
    assert_eq!(pool.succeeded(), 3);
}

#[test]
fn submissions_after_teardown_and_second_teardown_are_refused() {
    let mut pool = PoolState::new(2);
    pool.shutdown().unwrap();
    assert_eq!(pool.submit(), Err(PoolError::Closed));
    assert_eq!(pool.shutdown(), Err(PoolError::Closed));
    assert_eq!(pool.submitted(), 0);
}

#[test]
fn many_sizes_and_counts_run_every_task() {
    for n in 1..6usize {
        for k in 0..20u64 {
            let mut pool = PoolState::new(n);
            let mut ran = Vec::new();
            for _ in 0..k {
                pool.submit().unwrap();
            }
            assert_eq!(drain(&mut pool, &mut ran), k);
            ran.sort();
            assert_eq!(ran, (0..k).collect::<Vec<u64>>());
            assert!(pool.is_idle());
            assert_eq!(pool.succeeded(), k);
        }
    }
}
