use xs::pool::ActiveJobs;

#[test]
fn quiescence_after_all_jobs() {
    let mut jobs = ActiveJobs::new();
    assert!(jobs.is_idle());
    let n = 8;
    for _ in 0..n {
        jobs.job_taken();
    }
    assert_eq!(jobs.count, n);
    for k in 0..n {
        let wake = jobs.job_finished();
        assert_eq!(wake, k == n - 1);
    }
    assert!(jobs.is_idle());
}

#[test]
fn interleaved_jobs_wake_at_zero_only() {
    let mut jobs = ActiveJobs::new();
    jobs.job_taken();
    jobs.job_taken();
    assert!(!jobs.job_finished());
    jobs.job_taken();
    assert!(!jobs.job_finished());
    assert!(!jobs.is_idle());
    assert!(jobs.job_finished());
}
