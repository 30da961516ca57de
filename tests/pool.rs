use worker_pool::{Message, PoolCreationError, ThreadPool, WorkerState};

/// Runs every worker's loop, one message at a time and in id order, until no
/// idle worker finds anything to receive. Each job received is passed to
/// `run`, and the worker then completes it.
fn drive(pool: &mut ThreadPool<u32>, run: &mut dyn FnMut(usize, u32)) {
    loop {
        let mut progressed = false;
        for id in 0..pool.size() {
            if pool.worker_state(id) != WorkerState::Idle {
                continue;
            }
            match pool.receive(id) {
                Some(Message::NewJob(job)) => {
                    run(id, job);
                    pool.complete(id);
                    progressed = true;
                }
                Some(Message::Terminate) => progressed = true,
                None => {}
            }
        }
        if !progressed {
            return;
        }
    }
}

fn all_stopped(pool: &ThreadPool<u32>) -> bool {
    (0..pool.size()).all(|id| pool.worker_state(id) == WorkerState::Stopped)
}

#[test]
fn zero_size_is_a_creation_error() {
    let r = ThreadPool::<u32>::new(0);
    assert!(r.is_err());
    let e = r.err().unwrap();
    assert!(!e.description().is_empty());
    assert_eq!(e.description(), "Cannot create a thread pool with 0 threads.");
}

#[test]
fn creation_error_message() {
    let e = PoolCreationError::new();
    assert_eq!(e.description(), "Cannot create a thread pool with 0 threads.");
}

#[test]
fn positive_size_gives_that_many_idle_workers() {
    for n in [1usize, 2, 4, 17] {
        let pool = ThreadPool::<u32>::new(n).ok().unwrap();
        assert_eq!(pool.size(), n);
        for id in 0..n {
            assert_eq!(pool.worker_state(id), WorkerState::Idle);
        }
        assert!(!pool.is_closing());
        assert!(pool.has_receiver());
    }
}

#[test]
fn ten_counting_jobs_on_four_workers() {
    let mut pool = ThreadPool::<u32>::new(4).ok().unwrap();
    for i in 0..10u32 {
        pool.execute(i);
    }
    let mut counter = 0u32;
    drive(&mut pool, &mut |_, _| counter += 1);
    pool.shutdown();
    drive(&mut pool, &mut |_, _| counter += 1);
    assert!(all_stopped(&pool));
    assert_eq!(counter, 10);
}

#[test]
fn jobs_submitted_before_shutdown_all_run_first() {
    let mut pool = ThreadPool::<u32>::new(3).ok().unwrap();
    for i in 0..7u32 {
        pool.execute(i);
    }
    pool.shutdown();
    assert!(pool.is_closing());
    let mut seen = Vec::new();
    drive(&mut pool, &mut |_, job| seen.push(job));
    assert_eq!(seen, vec![0, 1, 2, 3, 4, 5, 6]);
    assert!(all_stopped(&pool));
}

#[test]
fn queue_hands_out_jobs_in_submission_order() {
    let mut pool = ThreadPool::<u32>::new(3).ok().unwrap();
    pool.execute(10);
    pool.execute(20);
    pool.execute(30);
    assert!(matches!(pool.receive(2), Some(Message::NewJob(10))));
    assert!(matches!(pool.receive(0), Some(Message::NewJob(20))));
    assert!(matches!(pool.receive(1), Some(Message::NewJob(30))));
}

#[test]
fn a_busy_worker_is_not_given_a_second_job() {
    let mut pool = ThreadPool::<u32>::new(2).ok().unwrap();
    pool.execute(1);
    pool.execute(2);
    assert!(matches!(pool.receive(0), Some(Message::NewJob(1))));
    assert_eq!(pool.worker_state(0), WorkerState::Busy);
    assert!(matches!(pool.receive(1), Some(Message::NewJob(2))));
    assert_eq!(pool.worker_state(1), WorkerState::Busy);
    pool.complete(0);
    assert_eq!(pool.worker_state(0), WorkerState::Idle);
    assert_eq!(pool.worker_state(1), WorkerState::Busy);
}

#[test]
fn slow_and_instant_jobs_both_finish_before_teardown_ends() {
    let mut pool = ThreadPool::<u32>::new(2).ok().unwrap();
    pool.execute(100);
    pool.execute(0);
    assert!(matches!(pool.receive(0), Some(Message::NewJob(100))));
    assert!(matches!(pool.receive(1), Some(Message::NewJob(0))));
    pool.complete(1);
    pool.shutdown();
    assert!(matches!(pool.receive(1), Some(Message::Terminate)));
    assert!(!all_stopped(&pool));
    pool.complete(0);
    assert!(matches!(pool.receive(0), Some(Message::Terminate)));
    assert!(all_stopped(&pool));
}

#[test]
fn empty_queue_gives_nothing_and_changes_nothing() {
    let mut pool = ThreadPool::<u32>::new(2).ok().unwrap();
    assert!(pool.receive(0).is_none());
    assert_eq!(pool.worker_state(0), WorkerState::Idle);
    assert!(!pool.is_closing());
}

#[test]
fn faulted_sole_worker_leaves_no_receiver() {
    let mut pool = ThreadPool::<u32>::new(1).ok().unwrap();
    pool.execute(1);
    assert!(matches!(pool.receive(0), Some(Message::NewJob(1))));
    pool.fault(0);
    assert_eq!(pool.worker_state(0), WorkerState::Faulted);
    assert!(!pool.has_receiver());
}

#[test]
fn a_fault_affects_only_its_own_worker() {
    let mut pool = ThreadPool::<u32>::new(2).ok().unwrap();
    pool.execute(1);
    pool.execute(2);
    pool.execute(3);
    assert!(matches!(pool.receive(0), Some(Message::NewJob(1))));
    pool.fault(0);
    assert_eq!(pool.worker_state(1), WorkerState::Idle);
    assert!(pool.has_receiver());
    assert!(matches!(pool.receive(1), Some(Message::NewJob(2))));
    pool.complete(1);
    assert!(matches!(pool.receive(1), Some(Message::NewJob(3))));
    pool.complete(1);
    pool.shutdown();
    assert!(matches!(pool.receive(1), Some(Message::Terminate)));
    assert_eq!(pool.worker_state(0), WorkerState::Faulted);
    assert_eq!(pool.worker_state(1), WorkerState::Stopped);
}

#[test]
fn shutdown_sends_one_signal_per_worker() {
    let mut pool = ThreadPool::<u32>::new(3).ok().unwrap();
    pool.shutdown();
    for id in 0..3 {
        assert!(matches!(pool.receive(id), Some(Message::Terminate)));
    }
    assert!(all_stopped(&pool));
}
