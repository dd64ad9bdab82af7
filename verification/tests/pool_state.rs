use bounded_async_worker_pool::{Dispatch, PermitChange, WorkerPoolError, WorkerPoolState};

/// Accepts one submission and puts it into the channel; returns its id.
fn submit(state: &mut WorkerPoolState) -> Option<u64> {
    state.accept_submission().unwrap();
    state.try_send()
}

/// Runs dispatch steps until the dispatcher idles or finishes; returns the
/// ids started.
fn dispatch_all(state: &mut WorkerPoolState) -> (Vec<u64>, Dispatch) {
    let mut started = Vec::new();
    loop {
        match state.dispatch() {
            Dispatch::Start(id) => started.push(id),
            other => return (started, other),
        }
    }
}

#[test]
fn new_pool_is_empty() {
    let state = WorkerPoolState::new(5);
    let m = state.metrics();
    assert_eq!((m.active, m.queued, m.completed), (0, 0, 0));
    assert_eq!(state.max_size(), 5);
    assert_eq!(state.channel_capacity(), 10);
    assert_eq!(state.available_permits(), 5);
    assert_eq!(state.retiring_permits(), 0);
    assert!(!state.is_shutdown());
}

#[test]
fn single_job_runs_and_completes() {
    let mut state = WorkerPoolState::new(5);
    assert_eq!(submit(&mut state), Some(0));
    assert_eq!(state.metrics().queued, 1);
    assert_eq!(state.dispatch(), Dispatch::Start(0));
    assert_eq!(state.metrics().queued, 0);
    assert_eq!(state.metrics().active, 1);
    state.job_finished();
    assert_eq!(state.metrics().active, 0);
    assert_eq!(state.metrics().completed, 1);
    state.initiate_shutdown();
    assert_eq!(state.dispatch(), Dispatch::Finished);
}

#[test]
fn shutdown_refuses_submissions() {
    let mut state = WorkerPoolState::new(5);
    state.initiate_shutdown();
    assert!(state.is_shutdown());
    assert_eq!(state.accept_submission(), Err(WorkerPoolError::ShutDown));
    assert_eq!(state.metrics().queued, 0);
    assert_eq!(state.dispatch(), Dispatch::Finished);
}

#[test]
fn error_message() {
    assert_eq!(WorkerPoolError::ShutDown.message(), "Worker pool has been shut down");
}

#[test]
fn jobs_start_in_submission_order() {
    // One permit: the jobs run one after another, in the order sent.
    let mut state = WorkerPoolState::new(1);
    for i in 0..2u64 {
        assert_eq!(submit(&mut state), Some(i));
    }
    let mut order = Vec::new();
    let mut next = 2u64;
    while order.len() < 10 {
        let (started, _) = dispatch_all(&mut state);
        assert!(started.len() <= 1);
        order.extend(started);
        if next < 10 {
            if let Some(id) = submit(&mut state) {
                assert_eq!(id, next);
                next += 1;
            }
        }
        if state.metrics().active == 1 {
            state.job_finished();
        }
    }
    assert_eq!(order, vec![0, 1, 2, 3, 4, 5, 6, 7, 8, 9]);
}

#[test]
fn concurrency_never_exceeds_pool_size() {
    let mut state = WorkerPoolState::new(5);
    let mut max_active = 0;
    for _ in 0..20 {
        state.accept_submission().unwrap();
        while state.try_send().is_none() {
            // channel full: the dispatcher runs and one job completes
            let _ = dispatch_all(&mut state);
            max_active = max_active.max(state.metrics().active);
            state.job_finished();
        }
    }
    state.initiate_shutdown();
    loop {
        match state.dispatch() {
            Dispatch::Finished => break,
            Dispatch::Start(_) => max_active = max_active.max(state.metrics().active),
            Dispatch::Idle => state.job_finished(),
        }
    }
    assert_eq!(state.metrics().completed, 20);
    assert!(max_active <= 5, "Max concurrent jobs exceeded pool size: {}", max_active);
    assert_eq!(max_active, 5);
}

#[test]
fn full_channel_makes_sender_wait() {
    let mut state = WorkerPoolState::new(2);
    for i in 0..4u64 {
        assert_eq!(submit(&mut state), Some(i));
    }
    // the channel holds 4 jobs: the fifth submitter waits
    state.accept_submission().unwrap();
    assert_eq!(state.try_send(), None);
    assert_eq!(state.unsent_submissions(), 1);
    assert_eq!(state.metrics().queued, 5);
    // the dispatcher starts 2 jobs and holds a third, waiting for a permit
    let (started, next) = dispatch_all(&mut state);
    assert_eq!(started, vec![0, 1]);
    assert_eq!(next, Dispatch::Idle);
    assert_eq!(state.metrics().queued, 2);
    assert_eq!(state.try_send(), Some(4));
    assert_eq!(state.unsent_submissions(), 0);
}

#[test]
fn metrics_follow_a_job() {
    let mut state = WorkerPoolState::new(2);
    submit(&mut state);
    assert_eq!(state.dispatch(), Dispatch::Start(0));
    let m = state.metrics();
    assert_eq!(m.active, 1);
    assert_eq!(m.completed, 0);
    state.job_finished();
    let m = state.metrics();
    assert_eq!(m.active, 0);
    assert_eq!(m.completed, 1);
}

#[test]
fn resize_increase_adds_permits() {
    let mut state = WorkerPoolState::new(2);
    assert_eq!(state.resize(5), PermitChange::Added(3));
    assert_eq!(state.max_size(), 5);
    assert_eq!(state.available_permits(), 5);
    assert_eq!(state.channel_capacity(), 4);
    for _ in 0..4 {
        submit(&mut state);
    }
    let (started, _) = dispatch_all(&mut state);
    assert_eq!(started.len(), 4);
    for _ in 0..4 {
        submit(&mut state);
    }
    let (started, _) = dispatch_all(&mut state);
    assert_eq!(started.len(), 1);
    assert_eq!(state.metrics().active, 5);
}

#[test]
fn resize_decrease_withdraws_permits() {
    let mut state = WorkerPoolState::new(5);
    assert_eq!(state.resize(2), PermitChange::Removed(3));
    assert_eq!(state.max_size(), 2);
    assert_eq!(state.available_permits(), 2);
    assert_eq!(state.retiring_permits(), 0);
}

#[test]
fn resize_decrease_waits_for_running_jobs() {
    let mut state = WorkerPoolState::new(5);
    for _ in 0..7 {
        submit(&mut state);
    }
    let (started, _) = dispatch_all(&mut state);
    assert_eq!(started, vec![0, 1, 2, 3, 4]);
    // the dispatcher holds job 5 and waits for a permit
    assert!(state.dispatcher_waiting());
    assert_eq!(state.resize(2), PermitChange::Removed(3));
    assert_eq!(state.retiring_permits(), 3);
    assert_eq!(state.waiting_requests(), 2);
    // the dispatcher asked first: the first permit released is its
    state.job_finished();
    let (started, _) = dispatch_all(&mut state);
    assert_eq!(started, vec![5]);
    // now the withdrawal is ahead of the dispatcher, which holds job 6
    state.job_finished();
    let (started, _) = dispatch_all(&mut state);
    assert!(started.is_empty());
    assert_eq!(state.retiring_permits(), 2);
    state.job_finished();
    let (started, _) = dispatch_all(&mut state);
    assert_eq!(started, vec![6]);
    state.job_finished();
    state.job_finished();
    assert_eq!(state.retiring_permits(), 0);
    assert_eq!(state.metrics().active, 2);
    assert_eq!(state.available_permits(), 0);
    state.job_finished();
    assert_eq!(state.available_permits(), 1);
}

#[test]
fn waiting_dispatcher_is_served_before_a_shrink() {
    let mut state = WorkerPoolState::new(2);
    for _ in 0..3 {
        submit(&mut state);
    }
    let (started, next) = dispatch_all(&mut state);
    assert_eq!(started, vec![0, 1]);
    assert_eq!(next, Dispatch::Idle);
    assert_eq!(state.resize(1), PermitChange::Removed(1));
    state.job_finished();
    assert_eq!(state.dispatch(), Dispatch::Start(2));
    assert_eq!(state.retiring_permits(), 1);
    state.job_finished();
    assert_eq!(state.retiring_permits(), 0);
    assert_eq!(state.available_permits(), 0);
}

#[test]
fn growth_goes_to_the_oldest_requests() {
    let mut state = WorkerPoolState::new(3);
    for _ in 0..4 {
        submit(&mut state);
    }
    let _ = dispatch_all(&mut state);
    // queue: dispatcher (for job 3), then a withdrawal of 2
    assert_eq!(state.resize(1), PermitChange::Removed(2));
    assert_eq!(state.waiting_requests(), 2);
    // one new permit goes to the dispatcher, the next to the withdrawal
    assert_eq!(state.resize(3), PermitChange::Added(2));
    assert!(!state.dispatcher_waiting());
    assert_eq!(state.retiring_permits(), 1);
    assert_eq!(state.dispatch(), Dispatch::Start(3));
    assert_eq!(state.metrics().active, 4);
}

#[test]
fn semaphore_limit_on_added_permits() {
    let state = WorkerPoolState::new(2);
    assert!(state.can_add_permits(0));
    assert!(state.can_add_permits(bounded_async_worker_pool::MAX_PERMITS - 2));
    assert!(!state.can_add_permits(bounded_async_worker_pool::MAX_PERMITS - 1));
}

#[test]
fn resize_grow_then_shrink_restores_permits() {
    let mut state = WorkerPoolState::new(3);
    for _ in 0..3 {
        submit(&mut state);
    }
    let _ = dispatch_all(&mut state);
    assert_eq!(state.resize(1), PermitChange::Removed(2));
    assert_eq!(state.retiring_permits(), 2);
    assert_eq!(state.resize(4), PermitChange::Added(3));
    assert_eq!(state.retiring_permits(), 0);
    assert_eq!(state.available_permits(), 1);
    assert_eq!(state.resize(1), PermitChange::Removed(3));
    assert_eq!(state.retiring_permits(), 2);
    assert_eq!(state.available_permits(), 0);
    assert_eq!(state.resize(1), PermitChange::Unchanged);
}

#[test]
fn graceful_shutdown_drains_every_job() {
    let mut state = WorkerPoolState::new(5);
    for _ in 0..10 {
        submit(&mut state);
    }
    state.initiate_shutdown();
    let mut steps = 0;
    loop {
        match state.dispatch() {
            Dispatch::Finished => break,
            Dispatch::Start(_) => {}
            Dispatch::Idle => state.job_finished(),
        }
        steps += 1;
        assert!(steps < 100);
    }
    assert_eq!(state.metrics().completed, 10);
    assert_eq!(state.metrics().active, 0);
    assert_eq!(state.available_permits(), 5);
}

#[test]
fn empty_pool_finishes_at_once() {
    let mut state = WorkerPoolState::new(5);
    assert_eq!(state.dispatch(), Dispatch::Idle);
    state.initiate_shutdown();
    assert_eq!(state.dispatch(), Dispatch::Finished);
}

#[test]
fn panicked_job_releases_its_permit() {
    let mut state = WorkerPoolState::new(1);
    submit(&mut state);
    submit(&mut state);
    assert_eq!(state.dispatch(), Dispatch::Start(0));
    assert_eq!(state.dispatch(), Dispatch::Idle);
    state.job_failed();
    assert_eq!(state.failed_jobs(), 1);
    assert_eq!(state.metrics().completed, 0);
    assert_eq!(state.dispatch(), Dispatch::Start(1));
    state.job_finished();
    state.initiate_shutdown();
    assert_eq!(state.dispatch(), Dispatch::Finished);
    assert_eq!(state.metrics().completed, 1);
}

#[test]
fn stress_thousand_jobs() {
    let mut state = WorkerPoolState::new(10);
    let mut sent = 0;
    let mut max_active = 0;
    while sent < 1000 {
        state.accept_submission().unwrap();
        while state.try_send().is_none() {
            let _ = dispatch_all(&mut state);
            max_active = max_active.max(state.metrics().active);
            state.job_finished();
        }
        sent += 1;
    }
    state.initiate_shutdown();
    loop {
        match state.dispatch() {
            Dispatch::Finished => break,
            Dispatch::Start(_) => max_active = max_active.max(state.metrics().active),
            Dispatch::Idle => state.job_finished(),
        }
    }
    assert_eq!(state.metrics().completed, 1000);
    assert!(max_active <= 10);
    assert_eq!(state.sent_jobs(), 1000);
}

#[test]
fn only_shutdown_sets_the_flag_and_counts_only_grow() {
    let mut state = WorkerPoolState::new(2);
    let mut last_completed = 0;
    for _ in 0..5 {
        submit(&mut state);
        assert!(!state.is_shutdown());
        let _ = dispatch_all(&mut state);
        assert!(!state.is_shutdown());
        state.resize(3);
        state.resize(1);
        assert!(!state.is_shutdown());
        if state.metrics().active > 0 {
            state.job_finished();
        }
        assert!(state.metrics().completed >= last_completed);
        last_completed = state.metrics().completed;
    }
    assert!(!state.is_shutdown());
    state.initiate_shutdown();
    assert!(state.is_shutdown());
}
