use symphrs::pool::{effective_pool_size, FixedJob, Job, JobResult, ThreadPool};

fn observed_pairs(pool: &ThreadPool<FixedJob>) -> Vec<(String, String)> {
    let mut pairs = Vec::new();
    for result in pool.observed_results() {
        pairs.push((result.request.clone(), result.response.clone()));
    }
    pairs
}

#[test]
fn construction_coerces_size_to_at_least_one() {
    assert_eq!(1, effective_pool_size(0));
    assert_eq!(1, effective_pool_size(1));
    assert_eq!(4, effective_pool_size(4));

    let zero: ThreadPool<FixedJob> = ThreadPool::new(0).unwrap();
    assert_eq!(1, zero.worker_count());
    assert_eq!(1, zero.watcher_count());

    let one: ThreadPool<FixedJob> = ThreadPool::new(1).unwrap();
    assert_eq!(1, one.worker_count());
    assert_eq!(1, one.watcher_count());

    let four: ThreadPool<FixedJob> = ThreadPool::new(4).unwrap();
    assert_eq!(4, four.worker_count());
    assert_eq!(4, four.watcher_count());
}

#[test]
fn job_result_holds_both_descriptors() {
    let result = JobResult::new("req".to_string(), "resp".to_string());
    assert_eq!("req", result.request.as_str());
    assert_eq!("resp", result.response.as_str());
}

#[test]
fn fixed_job_runs_to_its_result() {
    let job = FixedJob::new("r1".to_string(), "ok1".to_string());
    let result = job.run();
    assert_eq!("r1", result.request.as_str());
    assert_eq!("ok1", result.response.as_str());
}

#[test]
fn each_job_is_executed_and_observed_exactly_once() {
    let mut pool: ThreadPool<FixedJob> = ThreadPool::new(2).unwrap();
    pool.execute(FixedJob::new("a".to_string(), "1".to_string()));
    pool.execute(FixedJob::new("b".to_string(), "2".to_string()));
    pool.execute(FixedJob::new("c".to_string(), "3".to_string()));
    pool.shutdown();

    let pairs = observed_pairs(&pool);
    assert_eq!(3, pairs.len());
    for expected in [("a", "1"), ("b", "2"), ("c", "3")] {
        let count = pairs
            .iter()
            .filter(|(req, resp)| req == expected.0 && resp == expected.1)
            .count();
        assert_eq!(1, count);
    }
}

#[test]
fn five_jobs_on_two_workers_all_observed_once() {
    let mut pool: ThreadPool<FixedJob> = ThreadPool::new(2).unwrap();
    for i in 0..5 {
        pool.execute(FixedJob::new(format!("r{}", i), format!("ok{}", i)));
    }
    pool.shutdown();

    let pairs = observed_pairs(&pool);
    assert_eq!(5, pairs.len());
    for i in 0..5 {
        let expected = (format!("r{}", i), format!("ok{}", i));
        let count = pairs.iter().filter(|pair| **pair == expected).count();
        assert_eq!(1, count, "result {} must be observed exactly once", i);
    }
}

#[test]
fn completion_order_is_not_assumed() {
    // A slow job submitted before a fast one may finish in either order;
    // only the set of observed results is asserted.
    let mut pool: ThreadPool<FixedJob> = ThreadPool::new(2).unwrap();
    pool.execute(FixedJob::new("slow".to_string(), "s".to_string()));
    pool.execute(FixedJob::new("fast".to_string(), "f".to_string()));
    pool.shutdown();

    let pairs = observed_pairs(&pool);
    assert_eq!(2, pairs.len());
    assert!(pairs.contains(&("slow".to_string(), "s".to_string())));
    assert!(pairs.contains(&("fast".to_string(), "f".to_string())));
}

#[test]
fn single_worker_serializes_jobs() {
    let mut pool: ThreadPool<FixedJob> = ThreadPool::new(1).unwrap();
    pool.execute(FixedJob::new("slow".to_string(), "s".to_string()));
    pool.execute(FixedJob::new("fast".to_string(), "f".to_string()));
    pool.shutdown();

    let pairs = observed_pairs(&pool);
    assert_eq!(2, pairs.len());
    let slow_at = pairs.iter().position(|(req, _)| req == "slow").unwrap();
    let fast_at = pairs.iter().position(|(req, _)| req == "fast").unwrap();
    assert!(slow_at < fast_at, "the second job's result must not come first");
}

#[test]
fn shutdown_signals_each_worker_once() {
    let mut pool: ThreadPool<FixedJob> = ThreadPool::new(2).unwrap();
    assert_eq!(0, pool.pending_work_count());
    pool.worker_pool.signal_shutdown();
    assert_eq!(2, pool.pending_work_count());
    pool.run_pending_work();
    assert_eq!(0, pool.pending_work_count());
    assert!(pool.worker_pool.workers.iter().all(|w| w.stopped));
    assert!(pool.worker_pool.workers.iter().all(|w| !w.joined));
    pool.worker_pool.join_all();
    assert!(pool.worker_pool.workers.iter().all(|w| w.joined));
}

#[test]
fn shutdown_is_safe_to_repeat() {
    let mut pool: ThreadPool<FixedJob> = ThreadPool::new(2).unwrap();
    pool.execute(FixedJob::new("only".to_string(), "once".to_string()));
    pool.shutdown();
    assert_eq!(1, pool.observed_results().len());
    assert_eq!(0, pool.pending_work_count());
    assert_eq!(0, pool.pending_result_count());

    pool.shutdown();
    assert_eq!(1, pool.observed_results().len());
    assert_eq!(0, pool.pending_work_count());
    assert_eq!(0, pool.pending_result_count());
    assert_eq!(2, pool.worker_count());
    assert_eq!(2, pool.watcher_count());
}

#[test]
fn no_result_is_dropped_by_shutdown() {
    let mut pool: ThreadPool<FixedJob> = ThreadPool::new(3).unwrap();
    for i in 0..7 {
        pool.execute(FixedJob::new(format!("r{}", i), format!("ok{}", i)));
    }
    // Release the pool right after the submissions: every result must be
    // observed before shutdown returns.
    pool.shutdown();
    assert_eq!(7, pool.observed_results().len());
}

#[test]
fn worker_and_watcher_steps_move_one_item() {
    let mut pool: ThreadPool<FixedJob> = ThreadPool::new(1).unwrap();
    pool.execute(FixedJob::new("x".to_string(), "y".to_string()));
    assert_eq!(1, pool.pending_work_count());
    assert_eq!(0, pool.pending_result_count());

    assert!(pool.step_worker());
    assert_eq!(0, pool.pending_work_count());
    assert_eq!(1, pool.pending_result_count());
    assert_eq!(0, pool.observed_results().len());

    assert!(pool.step_watcher());
    assert_eq!(0, pool.pending_result_count());
    assert_eq!(1, pool.observed_results().len());
    assert_eq!("x", pool.observed_results()[0].request.as_str());

    assert!(!pool.step_worker());
    assert!(!pool.step_watcher());
}

#[test]
fn watcher_delay_is_configurable_and_defaults_to_zero() {
    let mut pool: ThreadPool<FixedJob> = ThreadPool::new(1).unwrap();
    assert_eq!(0, pool.watcher_pool.delay_millis);
    pool.set_watcher_delay_millis(250);
    assert_eq!(250, pool.watcher_pool.delay_millis);
}
