use crag_web::threadpool::{PoolError, Step, WorkerPool};

fn run(step: Step<u32>) -> u32 {
    match step {
        Step::Run(job) => job,
        other => panic!("no job: {other:?}"),
    }
}

#[test]
fn a_pool_needs_a_worker() {
    assert_eq!(
        WorkerPool::<u32>::build(0).err(),
        Some(PoolError::InvalidPoolSize)
    );
    let pool = WorkerPool::<u32>::build(3).unwrap();
    assert_eq!(pool.size(), 3);
    assert_eq!(pool.running(), 0);
    assert_eq!(pool.pending(), 0);
    assert!(!pool.is_closed());
}

#[test]
fn jobs_run_oldest_first() {
    let mut pool = WorkerPool::build(2).unwrap();
    for job in [10u32, 20, 30] {
        assert_eq!(pool.execute(job), Ok(()));
    }
    assert_eq!(pool.pending(), 3);
    assert_eq!(run(pool.take()), 10);
    assert_eq!(run(pool.take()), 20);
    assert_eq!(pool.running(), 2);
    assert_eq!(pool.pending(), 1);
}

#[test]
fn no_more_jobs_run_than_there_are_workers() {
    let workers = 3;
    let jobs = 10u32;
    let mut pool = WorkerPool::build(workers).unwrap();
    for job in 0..jobs {
        pool.execute(job).unwrap();
    }
    let mut ran = Vec::new();
    // Every worker asks at once, again and again.
    while ran.len() < jobs as usize {
        let mut taken = 0;
        for _ in 0..workers + 2 {
            match pool.take() {
                Step::Run(job) => {
                    ran.push(job);
                    taken += 1;
                }
                Step::Wait => {}
                Step::Exit => panic!("the pool is open"),
            }
            assert!(pool.running() <= workers);
        }
        assert!(taken <= workers);
        assert_eq!(pool.running(), taken);
        for _ in 0..taken {
            pool.finish();
        }
        assert_eq!(pool.running(), 0);
    }
    assert_eq!(ran, (0..jobs).collect::<Vec<u32>>());
    assert_eq!(pool.pending(), 0);
    assert!(matches!(pool.take(), Step::Wait));
}

#[test]
fn a_closed_pool_drains_and_lets_its_workers_go() {
    let mut pool = WorkerPool::build(1).unwrap();
    pool.execute(1u32).unwrap();
    pool.execute(2u32).unwrap();
    pool.close();
    assert!(pool.is_closed());
    assert_eq!(pool.execute(3u32), Err(3));
    assert_eq!(pool.pending(), 2);
    assert_eq!(run(pool.take()), 1);
    // The one worker is busy: nobody else gets the second job.
    assert!(matches!(pool.take(), Step::Wait));
    pool.finish();
    assert_eq!(run(pool.take()), 2);
    pool.finish();
    assert!(matches!(pool.take(), Step::Exit));
    assert_eq!(pool.running(), 0);
}

#[test]
fn an_idle_open_pool_makes_its_workers_wait() {
    let mut pool = WorkerPool::<u32>::build(2).unwrap();
    assert!(matches!(pool.take(), Step::Wait));
    pool.finish();
    assert_eq!(pool.running(), 0);
    pool.close();
    assert!(matches!(pool.take(), Step::Exit));
}
