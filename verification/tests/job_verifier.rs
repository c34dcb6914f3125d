use compute_core::job_verifier::{Error, Event, ProofType, VerificationGate};
use compute_core::registry::{JobStatus, JobStore};

fn new_store() -> JobStore {
    JobStore::new(100, 10)
}

fn new_gate() -> VerificationGate {
    VerificationGate::new(10240)
}

fn submit_started_job(store: &mut JobStore) {
    assert!(store.submit_job(1, vec![1, 2, 3], vec![], 100, 1).is_ok());
    assert!(store.update_job_status(1, 0, JobStatus::InProgress, 1).is_ok());
}

#[test]
fn submit_proof_works() {
    let mut store = new_store();
    let mut gate = new_gate();
    submit_started_job(&mut store);

    // Submit proof
    let result_hash = vec![1u8; 32];
    let proof_data = vec![0u8; 64];

    assert!(gate
        .submit_proof(1, 0, result_hash.clone(), ProofType::Signature, proof_data, &store, 1)
        .is_ok());

    // Check result was stored
    let result = gate.job_results(0).unwrap();
    assert_eq!(result.result_hash, result_hash);
    assert!(!result.verified);

    // Check event
    assert!(gate.deposited_events().contains(&Event::ProofSubmitted { job_id: 0 }));
}

#[test]
fn submit_proof_for_nonexistent_job_fails() {
    let store = new_store();
    let mut gate = new_gate();

    let result_hash = vec![1u8; 32];
    let proof_data = vec![0u8; 64];

    assert_eq!(
        gate.submit_proof(1, 999, result_hash, ProofType::Signature, proof_data, &store, 1),
        Err(Error::JobNotFound)
    );
}

#[test]
fn submit_proof_for_pending_job_fails() {
    let mut store = new_store();
    let mut gate = new_gate();

    // Submit a job but don't start it
    assert!(store.submit_job(1, vec![1, 2, 3], vec![], 100, 1).is_ok());

    let result_hash = vec![1u8; 32];
    let proof_data = vec![0u8; 64];

    assert_eq!(
        gate.submit_proof(1, 0, result_hash, ProofType::Signature, proof_data, &store, 1),
        Err(Error::InvalidJobStatus)
    );
}

#[test]
fn verify_proof_works() {
    let mut store = new_store();
    let mut gate = new_gate();
    submit_started_job(&mut store);

    let result_hash = vec![1u8; 32];
    let proof_data = vec![0u8; 64];

    assert!(gate
        .submit_proof(1, 0, result_hash, ProofType::Signature, proof_data, &store, 1)
        .is_ok());

    // Verify proof
    assert!(gate.verify_proof(1, 0, &mut store, 1).is_ok());

    // Check result is verified
    let result = gate.job_results(0).unwrap();
    assert!(result.verified);

    // Check event
    assert!(gate.deposited_events().contains(&Event::JobVerified { job_id: 0 }));
}

#[test]
fn verify_already_verified_proof_fails() {
    let mut store = new_store();
    let mut gate = new_gate();
    submit_started_job(&mut store);

    let result_hash = vec![1u8; 32];
    let proof_data = vec![0u8; 64];

    assert!(gate
        .submit_proof(1, 0, result_hash, ProofType::Signature, proof_data, &store, 1)
        .is_ok());
    assert!(gate.verify_proof(1, 0, &mut store, 1).is_ok());

    // Try to verify again
    assert_eq!(gate.verify_proof(1, 0, &mut store, 1), Err(Error::AlreadyVerified));
}

#[test]
fn hash_proof_verification_works() {
    let mut store = new_store();
    let mut gate = new_gate();
    submit_started_job(&mut store);

    // Create proof data and its hash
    let proof_data = b"test result data".to_vec();
    let result_hash = sp_crypto_hashing::blake2_256(&proof_data).to_vec();

    // Submit with hash proof type
    assert!(gate
        .submit_proof(1, 0, result_hash, ProofType::Hash, proof_data, &store, 1)
        .is_ok());

    // Verify - should succeed because hash matches
    assert!(gate.verify_proof(1, 0, &mut store, 1).is_ok());

    let result = gate.job_results(0).unwrap();
    assert!(result.verified);
}

#[test]
fn mark_verified_by_root_works() {
    let mut store = new_store();
    let mut gate = new_gate();
    submit_started_job(&mut store);

    let result_hash = vec![1u8; 32];
    let proof_data = vec![0u8; 64];

    assert!(gate
        .submit_proof(1, 0, result_hash, ProofType::Signature, proof_data, &store, 1)
        .is_ok());

    // Mark as verified through the privileged entry
    assert!(gate.mark_verified(0, &mut store, 1).is_ok());

    let result = gate.job_results(0).unwrap();
    assert!(result.verified);
}

#[test]
fn verification_statistics_tracked() {
    let mut store = new_store();
    let mut gate = new_gate();
    submit_started_job(&mut store);

    let result_hash = vec![1u8; 32];
    let proof_data = vec![0u8; 64];

    assert!(gate
        .submit_proof(1, 0, result_hash, ProofType::Signature, proof_data, &store, 1)
        .is_ok());

    let stats = gate.get_stats();
    assert_eq!(stats.total_proofs_submitted, 1);
    assert_eq!(stats.total_proofs_verified, 0);

    assert!(gate.verify_proof(1, 0, &mut store, 1).is_ok());

    let stats = gate.get_stats();
    assert_eq!(stats.total_proofs_verified, 1);
}

#[test]
fn is_verified_helper_works() {
    let mut store = new_store();
    let mut gate = new_gate();

    // Job doesn't exist
    assert!(!gate.is_verified(0));

    submit_started_job(&mut store);

    let result_hash = vec![1u8; 32];
    let proof_data = vec![0u8; 64];

    assert!(gate
        .submit_proof(1, 0, result_hash, ProofType::Signature, proof_data, &store, 1)
        .is_ok());

    // Not yet verified
    assert!(!gate.is_verified(0));

    assert!(gate.verify_proof(1, 0, &mut store, 1).is_ok());

    // Now verified
    assert!(gate.is_verified(0));
}

#[test]
fn hash_proof_flips_on_a_single_byte() {
    let mut store = new_store();
    let mut gate = new_gate();
    submit_started_job(&mut store);

    let proof_data = b"test result data".to_vec();
    let result_hash = sp_crypto_hashing::blake2_256(&proof_data).to_vec();

    // Flip one byte of the proof before submitting
    let mut tampered = proof_data.clone();
    tampered[0] ^= 1;

    assert!(gate
        .submit_proof(1, 0, result_hash.clone(), ProofType::Hash, tampered, &store, 1)
        .is_ok());
    assert_eq!(gate.verify_proof(1, 0, &mut store, 1), Err(Error::InvalidProof));
    assert!(!gate.is_verified(0));
    assert_eq!(gate.get_stats().total_proofs_failed, 1);

    // Resubmitting the untampered bytes makes the same verification succeed
    assert!(gate
        .submit_proof(1, 0, result_hash, ProofType::Hash, proof_data, &store, 1)
        .is_ok());
    assert!(gate.verify_proof(1, 0, &mut store, 1).is_ok());
}

#[test]
fn undersized_signature_proof_rejected() {
    let mut store = new_store();
    let mut gate = new_gate();
    submit_started_job(&mut store);

    assert!(gate
        .submit_proof(1, 0, vec![1u8; 32], ProofType::Signature, vec![0u8; 63], &store, 1)
        .is_ok());
    assert_eq!(gate.verify_proof(1, 0, &mut store, 1), Err(Error::InvalidProof));
    assert!(gate
        .deposited_events()
        .contains(&Event::VerificationFailed { job_id: 0 }));
}

#[test]
fn empty_merkle_proof_rejected() {
    let mut store = new_store();
    let mut gate = new_gate();
    submit_started_job(&mut store);

    assert!(gate
        .submit_proof(1, 0, vec![1u8; 32], ProofType::MerkleRoot, vec![], &store, 1)
        .is_ok());
    assert_eq!(gate.verify_proof(1, 0, &mut store, 1), Err(Error::InvalidProof));

    assert!(gate
        .submit_proof(1, 0, vec![1u8; 32], ProofType::MerkleRoot, vec![7], &store, 1)
        .is_ok());
    assert!(gate.verify_proof(1, 0, &mut store, 1).is_ok());
}

#[test]
fn oversized_proof_rejected() {
    let mut store = new_store();
    let mut gate = VerificationGate::new(8);
    submit_started_job(&mut store);

    assert_eq!(
        gate.submit_proof(1, 0, vec![1u8; 32], ProofType::Signature, vec![0u8; 9], &store, 1),
        Err(Error::ProofTooLarge)
    );
    assert!(gate.job_results(0).is_none());
}

#[test]
fn verifying_in_progress_job_keeps_status() {
    let mut store = new_store();
    let mut gate = new_gate();
    submit_started_job(&mut store);

    // Verify while the job is still InProgress: the result is marked
    // verified, the job's status stays put
    assert!(gate
        .submit_proof(1, 0, vec![1u8; 32], ProofType::Signature, vec![0u8; 64], &store, 1)
        .is_ok());
    assert!(gate.verify_proof(1, 0, &mut store, 1).is_ok());
    assert!(gate.is_verified(0));
    assert_eq!(store.jobs(0).unwrap().status, JobStatus::InProgress);
}

#[test]
fn verifying_completed_job_advances_it() {
    let mut store = new_store();
    let mut gate = new_gate();
    submit_started_job(&mut store);

    assert!(gate
        .submit_proof(1, 0, vec![1u8; 32], ProofType::Signature, vec![0u8; 64], &store, 1)
        .is_ok());
    assert!(store.update_job_status(1, 0, JobStatus::Completed, 2).is_ok());
    assert!(gate.verify_proof(1, 0, &mut store, 3).is_ok());
    assert_eq!(store.jobs(0).unwrap().status, JobStatus::Verified);
    // Completion height kept from the Completed step
    assert_eq!(store.jobs(0).unwrap().completed_at, Some(2));
}
