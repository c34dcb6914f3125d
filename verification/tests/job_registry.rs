use compute_core::registry::{Error, Event, JobStatus, JobStore};

fn new_store() -> JobStore {
    JobStore::new(100, 10)
}

#[test]
fn submit_job_works() {
    let mut store = new_store();

    let metadata = vec![1, 2, 3, 4];
    let dependencies = vec![];
    let deadline = 100;

    assert!(store.submit_job(1, metadata.clone(), dependencies, deadline, 1).is_ok());

    // Check job was created
    let job = store.jobs(0).unwrap();
    assert_eq!(job.owner, 1);
    assert_eq!(job.metadata, metadata);
    assert_eq!(job.deadline, 100);
    assert_eq!(job.status, JobStatus::Pending);

    // Check event
    assert!(store.deposited_events().contains(&Event::JobSubmitted { job_id: 0, owner: 1 }));
}

#[test]
fn submit_job_with_past_deadline_fails() {
    let mut store = new_store();

    let metadata = vec![1, 2, 3, 4];
    let dependencies = vec![];
    let deadline = 5; // Past deadline

    assert_eq!(
        store.submit_job(1, metadata, dependencies, deadline, 10),
        Err(Error::DeadlineInPast)
    );
}

#[test]
fn submit_job_with_invalid_dependency_fails() {
    let mut store = new_store();

    let metadata = vec![1, 2, 3, 4];
    let dependencies = vec![999]; // Non-existent job
    let deadline = 100;

    assert_eq!(
        store.submit_job(1, metadata, dependencies, deadline, 1),
        Err(Error::DependencyNotFound)
    );
}

#[test]
fn update_job_status_works() {
    let mut store = new_store();

    // Submit job
    assert!(store.submit_job(1, vec![1, 2, 3], vec![], 100, 1).is_ok());

    // Update to InProgress
    assert!(store.update_job_status(1, 0, JobStatus::InProgress, 1).is_ok());

    let job = store.jobs(0).unwrap();
    assert_eq!(job.status, JobStatus::InProgress);

    // Check event
    assert!(store.deposited_events().contains(&Event::JobStatusUpdated {
        job_id: 0,
        old_status: JobStatus::Pending,
        new_status: JobStatus::InProgress,
    }));
}

#[test]
fn update_job_status_unauthorized_fails() {
    let mut store = new_store();

    // Submit job as user 1
    assert!(store.submit_job(1, vec![1, 2, 3], vec![], 100, 1).is_ok());

    // Try to update as user 2
    assert_eq!(
        store.update_job_status(2, 0, JobStatus::InProgress, 1),
        Err(Error::NotAuthorized)
    );
}

#[test]
fn invalid_status_transition_fails() {
    let mut store = new_store();

    // Submit job
    assert!(store.submit_job(1, vec![1, 2, 3], vec![], 100, 1).is_ok());

    // Try invalid transition: Pending -> Completed (must go through InProgress)
    assert_eq!(
        store.update_job_status(1, 0, JobStatus::Completed, 1),
        Err(Error::InvalidStatusTransition)
    );
}

#[test]
fn job_with_dependencies_works() {
    let mut store = new_store();

    // Submit first job
    assert!(store.submit_job(1, vec![1], vec![], 100, 1).is_ok());

    // Submit second job depending on first
    assert!(store.submit_job(1, vec![2], vec![0], 100, 1).is_ok());

    let job = store.jobs(1).unwrap();
    assert_eq!(job.dependencies, vec![0]);
}

#[test]
fn remove_job_works() {
    let mut store = new_store();

    // Submit and complete job
    assert!(store.submit_job(1, vec![1, 2, 3], vec![], 100, 1).is_ok());
    assert!(store.update_job_status(1, 0, JobStatus::InProgress, 1).is_ok());
    assert!(store.update_job_status(1, 0, JobStatus::Completed, 1).is_ok());

    // Remove job
    assert!(store.remove_job(1, 0).is_ok());

    // Check job is removed
    assert!(store.jobs(0).is_none());

    // Check event
    assert!(store.deposited_events().contains(&Event::JobRemoved { job_id: 0 }));
}

#[test]
fn are_dependencies_met_works() {
    let mut store = new_store();

    // Submit first job
    assert!(store.submit_job(1, vec![1], vec![], 100, 1).is_ok());

    // Submit second job depending on first
    assert!(store.submit_job(1, vec![2], vec![0], 100, 1).is_ok());

    // Dependencies not met yet
    assert!(!store.are_dependencies_met(1));

    // Complete first job
    assert!(store.update_job_status(1, 0, JobStatus::InProgress, 1).is_ok());
    assert!(store.update_job_status(1, 0, JobStatus::Completed, 1).is_ok());

    // Dependencies now met
    assert!(store.are_dependencies_met(1));
}

#[test]
fn get_ready_jobs_works() {
    let mut store = new_store();

    // Submit first job
    assert!(store.submit_job(1, vec![1], vec![], 100, 1).is_ok());

    // Submit second job depending on first
    assert!(store.submit_job(1, vec![2], vec![0], 100, 1).is_ok());

    // Only first job is ready
    let ready = store.get_ready_jobs();
    assert_eq!(ready, vec![0]);

    // Complete first job
    assert!(store.update_job_status(1, 0, JobStatus::InProgress, 1).is_ok());
    assert!(store.update_job_status(1, 0, JobStatus::Completed, 1).is_ok());

    // Now second job is ready
    let ready = store.get_ready_jobs();
    assert_eq!(ready, vec![1]);
}

#[test]
fn submit_job_with_too_many_dependencies_fails() {
    let mut store = new_store();

    // Seed eleven jobs so the dependency ids exist
    for _ in 0..11 {
        assert!(store.submit_job(1, vec![], vec![], 100, 1).is_ok());
    }
    let next_before = store.next_job_id();

    let deps: Vec<u64> = (0..11).collect();
    assert_eq!(
        store.submit_job(1, vec![1], deps, 100, 1),
        Err(Error::TooManyDependencies)
    );

    // Job counter unchanged
    assert_eq!(store.next_job_id(), next_before);
}

#[test]
fn submit_job_with_oversized_metadata_fails() {
    let mut store = new_store();

    assert_eq!(
        store.submit_job(1, vec![0u8; 257], vec![], 100, 1),
        Err(Error::MetadataTooLarge)
    );
    assert!(store.submit_job(1, vec![0u8; 256], vec![], 100, 1).is_ok());
}

#[test]
fn submit_job_beyond_account_cap_fails() {
    let mut store = JobStore::new(2, 10);

    assert!(store.submit_job(1, vec![], vec![], 100, 1).is_ok());
    assert!(store.submit_job(1, vec![], vec![], 100, 1).is_ok());
    assert_eq!(
        store.submit_job(1, vec![], vec![], 100, 1),
        Err(Error::MaxJobsReached)
    );
    // Another account is unaffected
    assert!(store.submit_job(2, vec![], vec![], 100, 1).is_ok());
}

#[test]
fn submit_job_beyond_dependency_depth_fails() {
    let mut store = JobStore::new(100, 2);

    // Jobs 0, 1, 2 forming a chain: 2 depends on 1 depends on 0
    assert!(store.submit_job(1, vec![], vec![], 100, 1).is_ok());
    assert!(store.submit_job(1, vec![], vec![0], 100, 1).is_ok());
    assert!(store.submit_job(1, vec![], vec![1], 100, 1).is_ok());

    // A job depending on 2 would walk below it to depth two, at the bound
    assert_eq!(
        store.submit_job(1, vec![], vec![2], 100, 1),
        Err(Error::MaxDependencyDepthExceeded)
    );
    // Depending on 1 still fits
    assert!(store.submit_job(1, vec![], vec![1], 100, 1).is_ok());
}

#[test]
fn update_job_status_on_missing_job_fails() {
    let mut store = new_store();
    assert_eq!(
        store.update_job_status(1, 7, JobStatus::InProgress, 1),
        Err(Error::JobNotFound)
    );
}

#[test]
fn remove_job_refusals_leave_job_intact() {
    let mut store = new_store();

    assert!(store.submit_job(1, vec![9], vec![], 100, 1).is_ok());

    // Not terminal yet
    assert_eq!(store.remove_job(1, 0), Err(Error::InvalidStatusTransition));
    // Not the owner
    assert_eq!(store.remove_job(2, 0), Err(Error::NotAuthorized));
    // Missing job
    assert_eq!(store.remove_job(1, 42), Err(Error::JobNotFound));

    // The job and both indexes are untouched
    let job = store.jobs(0).unwrap();
    assert_eq!(job.status, JobStatus::Pending);
    assert_eq!(job.metadata, vec![9]);
    assert_eq!(store.account_jobs(1), vec![0]);
    assert_eq!(store.jobs_by_status(JobStatus::Pending), vec![0]);
}

#[test]
fn job_ids_strictly_increase_across_removal() {
    let mut store = new_store();

    let a = store.submit_job(1, vec![], vec![], 100, 1).unwrap();
    let b = store.submit_job(1, vec![], vec![], 100, 1).unwrap();
    assert!(b > a);

    // Retire and remove the first job; its id is never reused
    assert!(store.update_job_status(1, a, JobStatus::Failed, 2).is_ok());
    assert!(store.remove_job(1, a).is_ok());

    let c = store.submit_job(1, vec![], vec![], 100, 2).unwrap();
    assert!(c > b);
}

#[test]
fn completion_height_recorded_once() {
    let mut store = new_store();

    assert!(store.submit_job(1, vec![], vec![], 100, 1).is_ok());
    assert!(store.update_job_status(1, 0, JobStatus::InProgress, 2).is_ok());
    assert!(store.update_job_status(1, 0, JobStatus::Completed, 3).is_ok());
    assert_eq!(store.jobs(0).unwrap().completed_at, Some(3));

    // The Completed -> Verified step keeps the first completion height
    assert!(store.update_job_status(1, 0, JobStatus::Verified, 9).is_ok());
    assert_eq!(store.jobs(0).unwrap().completed_at, Some(3));
}

#[test]
fn status_index_follows_transitions() {
    let mut store = new_store();

    assert!(store.submit_job(1, vec![], vec![], 100, 1).is_ok());
    assert!(store.submit_job(1, vec![], vec![], 100, 1).is_ok());
    assert_eq!(store.jobs_by_status(JobStatus::Pending), vec![0, 1]);

    assert!(store.update_job_status(1, 0, JobStatus::InProgress, 1).is_ok());
    assert_eq!(store.jobs_by_status(JobStatus::Pending), vec![1]);
    assert_eq!(store.jobs_by_status(JobStatus::InProgress), vec![0]);

    assert!(store.update_job_status(1, 0, JobStatus::Failed, 1).is_ok());
    assert_eq!(store.jobs_by_status(JobStatus::InProgress), Vec::<u64>::new());
    assert_eq!(store.jobs_by_status(JobStatus::Failed), vec![0]);
}

#[test]
fn from_u8_round_trip() {
    assert_eq!(JobStatus::from_u8(0), Ok(JobStatus::Pending));
    assert_eq!(JobStatus::from_u8(1), Ok(JobStatus::InProgress));
    assert_eq!(JobStatus::from_u8(2), Ok(JobStatus::Completed));
    assert_eq!(JobStatus::from_u8(3), Ok(JobStatus::Verified));
    assert_eq!(JobStatus::from_u8(4), Ok(JobStatus::Failed));
    assert_eq!(JobStatus::from_u8(5), Err(()));
    assert_eq!(JobStatus::from_u8(255), Err(()));
}

#[test]
fn extensions_carry_deployment_identity() {
    let ext = compute_core::Extensions::new(String::from("rococo-local"), 2000);
    assert_eq!(ext.relay_chain, "rococo-local");
    assert_eq!(ext.para_id, 2000);
}
