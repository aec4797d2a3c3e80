use rust_http_server::{PoolCore, PoolError};

#[test]
fn create_zero_fails() {
    let err = match PoolCore::create(0) {
        Err(e) => e,
        Ok(_) => panic!("a zero-sized pool must be refused"),
    };
    assert_eq!(err, PoolError::InvalidPoolSize);
}

#[test]
fn create_accepts_positive_sizes() {
    assert!(PoolCore::create(1).is_ok());
    assert!(PoolCore::create(4).is_ok());
}

#[test]
fn submit_after_shutdown_fails_and_job_is_never_queued() {
    let mut pool = PoolCore::create(1).unwrap();
    pool.shutdown();
    let err = pool.submit(7).unwrap_err();
    assert_eq!(err, PoolError::PoolClosed);
    assert_eq!(pool.pending_count(), 0);
    assert_eq!(pool.take_next(), None);
}

#[test]
fn jobs_queued_before_shutdown_are_still_delivered() {
    let mut pool = PoolCore::create(1).unwrap();
    pool.submit(1).unwrap();
    pool.submit(2).unwrap();
    pool.submit(3).unwrap();
    pool.shutdown();
    assert_eq!(pool.pending_count(), 3);
    assert_eq!(pool.take_next(), Some(1));
    assert_eq!(pool.take_next(), Some(2));
    assert_eq!(pool.take_next(), Some(3));
    assert_eq!(pool.take_next(), None);
}

#[test]
fn every_job_is_delivered_exactly_once_in_order() {
    let mut pool = PoolCore::create(3).unwrap();
    for t in 0..10 {
        pool.submit(t).unwrap();
    }
    let mut seen = Vec::new();
    while let Some(t) = pool.take_next() {
        seen.push(t);
    }
    assert_eq!(seen, (0..10).collect::<Vec<usize>>());
    assert_eq!(pool.take_next(), None);
}

#[test]
fn five_jobs_increment_counter_to_five() {
    let mut pool = PoolCore::create(2).unwrap();
    for t in 0..5 {
        pool.submit(t).unwrap();
    }
    pool.shutdown();
    let mut counter: usize = 0;
    while let Some(_t) = pool.take_next() {
        counter += 1;
    }
    assert_eq!(counter, 5);
}

#[test]
fn shutdown_is_idempotent() {
    let mut pool = PoolCore::create(2).unwrap();
    pool.submit(9).unwrap();
    pool.shutdown();
    pool.shutdown();
    assert!(!pool.accepting());
    assert_eq!(pool.pending_count(), 1);
    assert_eq!(pool.take_next(), Some(9));
}

#[test]
fn worker_exit_condition() {
    let mut pool = PoolCore::create(1).unwrap();
    pool.submit(4).unwrap();
    assert!(!pool.worker_should_exit());
    pool.shutdown();
    assert!(!pool.worker_should_exit());
    assert_eq!(pool.take_next(), Some(4));
    assert!(pool.worker_should_exit());
}
