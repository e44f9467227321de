use scratch_server::pool::PoolModel;
use scratch_server::pool::RecvOutcome;
use scratch_server::pool::WorkerPhase;
use scratch_server::PoolCreationError;

fn all_spawned(size: usize) -> Vec<bool> {
    vec![true; size]
}

// Drives the pool protocol after the channel closed: workers take turns
// acquiring the lock, receiving, and running, until each one has observed
// the closed signal. Returns the jobs in delivery order.
fn drain(pool: &mut PoolModel) -> Vec<u64> {
    let mut order: Vec<u64> = Vec::new();
    loop {
        let mut progressed = false;
        for w in 0..pool.workers.len() {
            if matches!(pool.workers[w].phase, WorkerPhase::Waiting) {
                pool.acquire(w);
                match pool.receive(w) {
                    RecvOutcome::Job(j) => {
                        order.push(j);
                        pool.finish(w);
                    }
                    RecvOutcome::Closed => {}
                }
                progressed = true;
            }
        }
        if !progressed {
            break;
        }
    }
    order
}

#[test]
fn build_zero_is_invalid_size() {
    let spawn_ok: Vec<bool> = Vec::new();
    let built: Result<PoolModel, PoolCreationError> = PoolModel::build(0, &spawn_ok);
    assert!(built.is_err());
}

#[test]
fn build_spawns_at_most_the_requested_workers() {
    let pool = PoolModel::build(4, &all_spawned(4)).unwrap();
    assert_eq!(pool.workers.len(), 4);
    for (k, w) in pool.workers.iter().enumerate() {
        assert_eq!(w.id, k);
        assert!(w.handle_present);
        assert!(matches!(w.phase, WorkerPhase::Waiting));
    }

    // A failed spawn is silently omitted; the pool still comes up.
    let pool = PoolModel::build(4, &vec![true, false, true, false]).unwrap();
    assert_eq!(pool.workers.len(), 2);
    assert_eq!(pool.workers[0].id, 0);
    assert_eq!(pool.workers[1].id, 2);
}

#[test]
fn pool_error_has_a_message() {
    let err = PoolCreationError;
    assert_eq!(
        err.message(),
        "Failed to create a ThreadPool. Poolsize should be gte 1."
    );
}

#[test]
fn jobs_are_received_in_submission_order() {
    let mut pool = PoolModel::build(2, &all_spawned(2)).unwrap();
    let j1 = pool.execute();
    let j2 = pool.execute();
    assert!(j1 < j2);

    pool.acquire(1);
    match pool.receive(1) {
        RecvOutcome::Job(j) => assert_eq!(j, j1),
        RecvOutcome::Closed => panic!("channel still open"),
    }
    // The first job is still running on worker 1; the next receive, by
    // whichever worker, yields the later submission.
    pool.acquire(0);
    match pool.receive(0) {
        RecvOutcome::Job(j) => assert_eq!(j, j2),
        RecvOutcome::Closed => panic!("channel still open"),
    }
}

#[test]
fn lock_is_not_held_while_a_job_runs() {
    let mut pool = PoolModel::build(2, &all_spawned(2)).unwrap();
    pool.execute();
    pool.acquire(0);
    assert_eq!(pool.lock_holder, Some(0));
    match pool.receive(0) {
        RecvOutcome::Job(_) => {}
        RecvOutcome::Closed => panic!("channel still open"),
    }
    // Worker 0 is mid-job and the receiver mutex is free again, so the job
    // itself (or any other worker) can take it without deadlock.
    assert!(matches!(pool.workers[0].phase, WorkerPhase::Running(_)));
    assert_eq!(pool.lock_holder, None);
    pool.acquire(1);
    assert_eq!(pool.lock_holder, Some(1));
}

// One hundred jobs on a four-worker pool: after shutdown each job was
// executed by exactly one worker, exactly once, and nothing is left queued.
#[test]
fn hundred_jobs_all_execute_exactly_once() {
    let mut pool = PoolModel::build(4, &all_spawned(4)).unwrap();
    let mut submitted: Vec<u64> = Vec::new();
    for _ in 0..100 {
        submitted.push(pool.execute());
    }
    pool.close();
    let order = drain(&mut pool);

    assert_eq!(order, submitted);
    assert!(pool.queue.is_empty());
    let mut executed: Vec<u64> = Vec::new();
    for w in &pool.workers {
        assert!(matches!(w.phase, WorkerPhase::Finished));
        executed.extend(w.executed.iter().copied());
    }
    assert_eq!(executed.len(), 100);
    executed.sort();
    executed.dedup();
    assert_eq!(executed.len(), 100);
}

// Shutdown drains: jobs still queued when the channel closes are all
// delivered and executed before the workers exit and are joined.
#[test]
fn shutdown_drains_queued_jobs_then_joins() {
    let mut pool = PoolModel::build(2, &all_spawned(2)).unwrap();
    for _ in 0..10 {
        pool.execute();
    }
    pool.close();
    let order = drain(&mut pool);
    assert_eq!(order.len(), 10);
    assert_eq!(pool.delivered, pool.submitted);

    for w in 0..pool.workers.len() {
        pool.join_worker(w);
    }
    for w in &pool.workers {
        assert!(!w.handle_present);
    }
}

// The destructor's sequence: close the channel, drain every worker, join
// each exactly once — even with a job mid-flight when shutdown begins.
#[test]
fn shutdown_executes_everything_and_joins_once() {
    let mut pool = PoolModel::build(3, &all_spawned(3)).unwrap();
    for _ in 0..20 {
        pool.execute();
    }
    // One job is already running when shutdown begins.
    pool.acquire(0);
    assert!(matches!(pool.receive(0), RecvOutcome::Job(0)));

    pool.shutdown();

    assert!(pool.queue.is_empty());
    assert_eq!(pool.delivered, pool.submitted);
    let mut total = 0;
    for w in &pool.workers {
        assert!(matches!(w.phase, WorkerPhase::Finished));
        assert!(!w.handle_present);
        total += w.executed.len();
    }
    assert_eq!(total, 20);
}
