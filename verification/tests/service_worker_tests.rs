use script::init_service_workers;
use script::serviceworkerjob::{JobKind, JobQueue, JobResult};

#[test]
fn second_job_for_a_scope_waits_for_the_first_to_settle() {
    let mut mgr = init_service_workers();
    let started = mgr.submit_job(1, 10, JobKind::Register, 100);
    assert!(started);
    // submitted before the first resolves: must not start
    let started = mgr.submit_job(1, 11, JobKind::Register, 101);
    assert!(!started);
    // once the first settles, the second starts at once
    let next = mgr.job_completed(1, JobResult::Resolved);
    assert_eq!(next, Some(11));
    let next = mgr.job_completed(1, JobResult::Resolved);
    assert_eq!(next, None);
}

#[test]
fn scopes_proceed_independently() {
    let mut mgr = init_service_workers();
    assert!(mgr.submit_job(1, 10, JobKind::Register, 100));
    // a different scope is not serialized behind scope 1
    assert!(mgr.submit_job(2, 20, JobKind::Register, 100));
    assert!(!mgr.submit_job(1, 11, JobKind::Update, 100));
    assert_eq!(mgr.job_completed(2, JobResult::Resolved), None);
    assert_eq!(mgr.job_completed(1, JobResult::Resolved), Some(11));
}

#[test]
fn a_rejected_job_still_advances_the_queue() {
    let mut mgr = init_service_workers();
    assert!(mgr.submit_job(1, 10, JobKind::Register, 100));
    assert!(!mgr.submit_job(1, 11, JobKind::Unregister, 100));
    let next = mgr.job_completed(1, JobResult::Rejected(3));
    assert_eq!(next, Some(11));
}

#[test]
fn jobs_settle_in_submission_order() {
    let mut q = JobQueue::new(5);
    assert!(q.submit(1, JobKind::Register, 100));
    assert!(!q.submit(2, JobKind::Update, 100));
    assert!(!q.submit(3, JobKind::Unregister, 100));
    assert_eq!(q.complete(JobResult::Resolved), Some(2));
    assert_eq!(q.complete(JobResult::Rejected(9)), Some(3));
    assert_eq!(q.complete(JobResult::Resolved), None);
    // a new job after everything settled starts at once
    assert!(q.submit(4, JobKind::Register, 100));
}
