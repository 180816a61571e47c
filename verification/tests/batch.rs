use simsweep::batch::{BatchAggregator, PermitPool, RunError};

#[test]
fn bounded_pool_never_exceeds_its_capacity() {
    let mut pool = PermitPool::new(Some(2));
    let mut holders: usize = 0;
    // an instrumented counter under the permit: it rises only on a
    // successful acquire and never passes the capacity
    for round in 0..10 {
        if pool.try_acquire() {
            holders += 1;
        }
        assert!(holders <= 2);
        if round % 3 == 2 && holders > 0 {
            pool.release();
            holders -= 1;
        }
    }
}

#[test]
fn bounded_pool_refuses_an_acquire_at_capacity() {
    let mut pool = PermitPool::new(Some(2));
    assert!(pool.try_acquire());
    assert!(pool.try_acquire());
    assert!(!pool.try_acquire());
    pool.release();
    assert!(pool.try_acquire());
    assert!(!pool.try_acquire());
}

#[test]
fn zero_capacity_pool_refuses_every_acquire() {
    let mut pool = PermitPool::new(Some(0));
    assert!(!pool.try_acquire());
    assert!(!pool.try_acquire());
}

#[test]
fn unbounded_pool_grants_every_acquire() {
    let mut pool = PermitPool::new(None);
    for _ in 0..5 {
        assert!(pool.try_acquire());
    }
}

fn err(msg: &str) -> Result<(), RunError> {
    Err(RunError { message: String::from(msg) })
}

#[test]
fn aggregator_collects_exactly_the_failures() {
    let mut agg = BatchAggregator::new();
    agg.record(Ok(()));
    agg.record(err("first"));
    agg.record(Ok(()));
    agg.record(err("second"));
    agg.record(err("third"));
    // five runs recorded, three failed: exactly three errors, in order
    assert_eq!(agg.error_count(), 3);
    let errors = agg.into_result().unwrap_err();
    let messages: Vec<&str> = errors.iter().map(|e| e.message.as_str()).collect();
    assert_eq!(messages, vec!["first", "second", "third"]);
}

#[test]
fn aggregator_reports_success_when_no_run_failed() {
    let mut agg = BatchAggregator::new();
    for _ in 0..4 {
        agg.record(Ok(()));
    }
    assert_eq!(agg.error_count(), 0);
    assert!(agg.into_result().is_ok());
}

#[test]
fn a_failure_does_not_stop_later_recordings() {
    let mut agg = BatchAggregator::new();
    agg.record(err("early"));
    for _ in 0..3 {
        agg.record(Ok(()));
    }
    agg.record(err("late"));
    assert_eq!(agg.error_count(), 2);
}

#[test]
fn empty_batch_succeeds() {
    let agg = BatchAggregator::new();
    assert!(agg.into_result().is_ok());
}
