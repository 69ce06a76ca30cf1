use rust_multithread_server::pool::{PoolError, ThreadPool, WorkerAction, WorkerState};

fn run_next(pool: &mut ThreadPool, worker: usize) -> Option<u64> {
    match pool.worker_step(worker) {
        WorkerAction::Run { job } => {
            let done = pool.complete(worker);
            assert_eq!(done, job);
            Some(job)
        }
        WorkerAction::Wait => None,
        WorkerAction::Exit => None,
    }
}

#[test]
fn pool_spawns_exactly_n_workers() {
    let pool = ThreadPool::new(4);
    assert_eq!(pool.workers.len(), 4);
    assert!(pool.workers.iter().all(|w| matches!(w, WorkerState::Running)));
    assert!(!pool.closed);
    assert!(pool.queue.is_empty());
}

#[test]
fn all_workers_run_concurrently_and_the_extra_job_stays_queued() {
    let mut pool = ThreadPool::new(3);
    for id in 1..=4u64 {
        pool.execute(id).unwrap();
    }
    for w in 0..3usize {
        let action = pool.worker_step(w);
        assert!(matches!(action, WorkerAction::Run { job } if job == (w as u64) + 1));
        assert!(matches!(pool.workers[w], WorkerState::Executing { job } if job == (w as u64) + 1));
    }
    assert_eq!(pool.queue, vec![4]);
    let done = pool.complete(0);
    assert_eq!(done, 1);
    let action = pool.worker_step(0);
    assert!(matches!(action, WorkerAction::Run { job: 4 }));
    assert!(pool.queue.is_empty());
}

#[test]
fn jobs_run_exactly_once_in_submission_order() {
    let mut pool = ThreadPool::new(2);
    for id in 0..100u64 {
        pool.execute(id).unwrap();
    }
    let mut seen: Vec<u64> = Vec::new();
    let mut w: usize = 0;
    while let Some(job) = run_next(&mut pool, w) {
        seen.push(job);
        w = (w + 1) % 2;
    }
    assert_eq!(seen, (0..100u64).collect::<Vec<u64>>());
    assert_eq!(pool.completed, (0..100u64).collect::<Vec<u64>>());
}

#[test]
fn waiting_worker_changes_nothing_while_submission_is_open() {
    let mut pool = ThreadPool::new(1);
    let action = pool.worker_step(0);
    assert!(matches!(action, WorkerAction::Wait));
    assert!(matches!(pool.workers[0], WorkerState::Running));
    assert!(!pool.closed);
}

#[test]
fn shutdown_rejects_new_jobs_and_finishes_in_flight_ones() {
    let mut pool = ThreadPool::new(2);
    pool.execute(7).unwrap();
    pool.execute(8).unwrap();
    pool.execute(9).unwrap();
    let a0 = pool.worker_step(0);
    let a1 = pool.worker_step(1);
    assert!(matches!(a0, WorkerAction::Run { job: 7 }));
    assert!(matches!(a1, WorkerAction::Run { job: 8 }));

    pool.shutdown();
    assert_eq!(pool.execute(99), Err(PoolError::ShutDown));
    assert_eq!(pool.queue, vec![9]);

    assert_eq!(pool.complete(0), 7);
    assert_eq!(pool.complete(1), 8);
    assert!(matches!(pool.worker_step(0), WorkerAction::Run { job: 9 }));
    assert_eq!(pool.complete(0), 9);

    assert!(matches!(pool.worker_step(0), WorkerAction::Exit));
    assert!(matches!(pool.worker_step(1), WorkerAction::Exit));
    assert!(pool.workers.iter().all(|w| matches!(w, WorkerState::Terminated)));
    assert!(pool.queue.is_empty());
    assert_eq!(pool.completed, vec![7, 8, 9]);
}

#[test]
fn stress_many_jobs_each_runs_exactly_once() {
    let size: usize = 4;
    let total: u64 = 10_000;
    let mut pool = ThreadPool::new(size);
    for id in 0..total {
        pool.execute(id).unwrap();
    }
    pool.shutdown();
    let mut active: Vec<usize> = (0..size).collect();
    let mut turn: usize = 0;
    while !active.is_empty() {
        let w = active[turn % active.len()];
        match pool.worker_step(w) {
            WorkerAction::Run { job } => {
                let done = pool.complete(w);
                assert_eq!(done, job);
                turn += 1;
            }
            WorkerAction::Exit => {
                active.retain(|x| *x != w);
            }
            WorkerAction::Wait => panic!("worker told to wait after shutdown"),
        }
    }
    assert!(pool.workers.iter().all(|w| matches!(w, WorkerState::Terminated)));
    assert_eq!(pool.completed.len() as u64, total);
    let mut seen = vec![false; total as usize];
    for job in &pool.completed {
        assert!(!seen[*job as usize], "job ran twice");
        seen[*job as usize] = true;
    }
    assert!(seen.iter().all(|b| *b), "a job was lost");
}
