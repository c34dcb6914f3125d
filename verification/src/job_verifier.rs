//! The proof checker: per-job proof submissions and verification
//! outcomes, gating a job's step to Verified.

use vstd::prelude::*;
use std::collections::HashMap;
use crate::common::{bytes_eq, counter_inc, sat_inc};
use crate::hashing::{blake2_256, blake2_256_of};
use crate::registry::{
    apply_transition, owner_transition_outcome, JobStatus, JobStore, StoreView,
};

verus! {

broadcast use vstd::std_specs::hash::group_hash_axioms;

/// Declared kind of a submitted proof, deciding how it is checked.
#[derive(Clone, Copy, Debug, PartialEq, Eq, Structural)]
pub enum ProofType {
    /// A detached signature over the result.
    Signature,
    /// A Merkle inclusion path for the result.
    MerkleRoot,
    /// The proof bytes themselves, bound to the result hash by content
    /// hashing.
    Hash,
}

/// The recorded outcome of proof submission for one job.
#[derive(Clone, Debug)]
pub struct JobResult {
    /// Declared hash of the computation result.
    pub result_hash: Vec<u8>,
    /// Scheme the proof is to be checked under.
    pub proof_type: ProofType,
    /// Block height at which the proof was submitted.
    pub submitted_at: u64,
    /// Set once verification succeeds; never reset.
    pub verified: bool,
}

/// Running verification counters.
#[derive(Clone, Copy, Debug, PartialEq, Eq, Structural)]
pub struct VerificationStatistics {
    pub total_proofs_submitted: u64,
    pub total_proofs_verified: u64,
    pub total_proofs_failed: u64,
}

impl Default for VerificationStatistics {
    /// All counters start at zero.
    fn default() -> (r: Self)
        ensures
            r.total_proofs_submitted == 0,
            r.total_proofs_verified == 0,
            r.total_proofs_failed == 0,
    {
        VerificationStatistics {
            total_proofs_submitted: 0,
            total_proofs_verified: 0,
            total_proofs_failed: 0,
        }
    }
}

/// Why a proof-checking operation was refused.
#[derive(Clone, Copy, Debug, PartialEq, Eq, Structural)]
pub enum Error {
    JobNotFound,
    AlreadyVerified,
    InvalidProof,
    ProofTooLarge,
    InvalidJobStatus,
    NotAuthorized,
    ResultHashMismatch,
}

/// Notifications the proof checker hands to its collaborators, in the order they
/// were raised.
#[derive(Clone, Copy, Debug, PartialEq, Eq, Structural)]
pub enum Event {
    ProofSubmitted { job_id: u64 },
    JobVerified { job_id: u64 },
    VerificationFailed { job_id: u64 },
    ProofStored { job_id: u64, proof_size: u64 },
}

/// The proof checker's state as contracts see it.
#[verifier::ext_equal]
pub ghost struct GateView {
    pub results: Map<u64, JobResult>,
    pub proofs: Map<u64, Vec<u8>>,
    pub stats: VerificationStatistics,
    pub events: Seq<Event>,
    pub max_proof_size: usize,
}

/// Whether a proof is accepted under the declared scheme. The signature and
/// Merkle checks are structural placeholders — undersized or empty proofs
/// are rejected — while the hash scheme is fully specified: the content hash
/// of the proof bytes must equal the stored result hash, byte for byte.
pub open spec fn scheme_accepts(pt: ProofType, result_hash: Seq<u8>, proof: Seq<u8>) -> bool {
    match pt {
        ProofType::Signature => proof.len() >= 64,
        ProofType::MerkleRoot => proof.len() > 0,
        ProofType::Hash => blake2_256_of(proof) == result_hash,
    }
}

/// Why a proof submission is refused, examined in order: the job must exist
/// and be InProgress or Completed, the existing result (if any) must not be
/// verified yet, and the proof must fit the configured bound.
pub open spec fn submit_proof_outcome(
    g: GateView,
    s: StoreView,
    job_id: u64,
    proof_len: nat,
) -> Option<Error> {
    if !s.jobs.contains_key(job_id) {
        Some(Error::JobNotFound)
    } else if !(s.jobs[job_id].status is InProgress || s.jobs[job_id].status is Completed) {
        Some(Error::InvalidJobStatus)
    } else if g.results.contains_key(job_id) && g.results[job_id].verified {
        Some(Error::AlreadyVerified)
    } else if proof_len > g.max_proof_size {
        Some(Error::ProofTooLarge)
    } else {
        None
    }
}

/// Why a verification request is refused, examined in order; `None` when the
/// proof is accepted.
pub open spec fn verify_outcome(g: GateView, s: StoreView, job_id: u64) -> Option<Error> {
    if !s.jobs.contains_key(job_id) {
        Some(Error::JobNotFound)
    } else if !g.results.contains_key(job_id) {
        Some(Error::JobNotFound)
    } else if g.results[job_id].verified {
        Some(Error::AlreadyVerified)
    } else if !g.proofs.contains_key(job_id) {
        Some(Error::InvalidProof)
    } else if !scheme_accepts(
        g.results[job_id].proof_type,
        g.results[job_id].result_hash@,
        g.proofs[job_id]@,
    ) {
        Some(Error::InvalidProof)
    } else {
        None
    }
}

/// A verification request that got as far as running the scheme check, and
/// the check rejected the proof: the one refusal that still counts and
/// reports a failure.
pub open spec fn verify_rejects(g: GateView, s: StoreView, job_id: u64) -> bool {
    &&& s.jobs.contains_key(job_id)
    &&& g.results.contains_key(job_id)
    &&& !g.results[job_id].verified
    &&& g.proofs.contains_key(job_id)
    &&& !scheme_accepts(
        g.results[job_id].proof_type,
        g.results[job_id].result_hash@,
        g.proofs[job_id]@,
    )
}

/// The store after the proof checker requests the step to Verified with the owner's
/// authority: carried out when the table permits it (the job is Completed),
/// silently left alone otherwise — in particular when the job is still
/// InProgress, a settled choice that keeps proof checking reachable from
/// that status.
pub open spec fn store_after_verified_request(s: StoreView, job_id: u64, now: u64) -> StoreView {
    if owner_transition_outcome(s, job_id, JobStatus::Verified) is None {
        apply_transition(s, job_id, JobStatus::Verified, now)
    } else {
        s
    }
}

/// The proof checker's state after a result is marked verified and counted.
pub open spec fn gate_after_verified(g: GateView, job_id: u64) -> GateView {
    GateView {
        results: g.results.insert(job_id, JobResult { verified: true, ..g.results[job_id] }),
        stats: VerificationStatistics {
            total_proofs_verified: sat_inc(g.stats.total_proofs_verified),
            ..g.stats
        },
        events: g.events.push(Event::JobVerified { job_id }),
        ..g
    }
}

/// Proof submissions and verification outcomes, keyed by job id.
pub struct VerificationGate {
    results: HashMap<u64, JobResult>,
    proofs: HashMap<u64, Vec<u8>>,
    stats: VerificationStatistics,
    deposited: Vec<Event>,
    max_proof_size: usize,
}

impl View for VerificationGate {
    type V = GateView;

    closed spec fn view(&self) -> GateView {
        GateView {
            results: self.results@,
            proofs: self.proofs@,
            stats: self.stats,
            events: self.deposited@,
            max_proof_size: self.max_proof_size,
        }
    }
}

impl VerificationGate {
    /// A result exists exactly where a proof blob does: the two are stored
    /// alongside each other.
    pub open spec fn wf(&self) -> bool {
        forall|id: u64| #[trigger] self@.results.contains_key(id) <==> #[trigger] self@
            .proofs.contains_key(id)
    }

    /// An empty proof checker with the given proof size bound.
    pub fn new(max_proof_size: usize) -> (r: VerificationGate)
        ensures
            r.wf(),
            r@.results == Map::<u64, JobResult>::empty(),
            r@.proofs == Map::<u64, Vec<u8>>::empty(),
            r@.stats == (VerificationStatistics {
                total_proofs_submitted: 0,
                total_proofs_verified: 0,
                total_proofs_failed: 0,
            }),
            r@.events == Seq::<Event>::empty(),
            r@.max_proof_size == max_proof_size,
    {
        VerificationGate {
            results: HashMap::new(),
            proofs: HashMap::new(),
            stats: VerificationStatistics {
                total_proofs_submitted: 0,
                total_proofs_verified: 0,
                total_proofs_failed: 0,
            },
            deposited: Vec::new(),
            max_proof_size,
        }
    }

    /// Records a proof for a job that is InProgress or Completed, replacing
    /// any unverified earlier submission; the declared result hash, scheme,
    /// and proof blob are stored together and the submission counter steps.
    pub fn submit_proof(
        &mut self,
        submitter: u64,
        job_id: u64,
        result_hash: Vec<u8>,
        proof_type: ProofType,
        proof_data: Vec<u8>,
        store: &JobStore,
        now: u64,
    ) -> (r: Result<(), Error>)
        requires
            old(self).wf(),
        ensures
            final(self).wf(),
            match r {
                Ok(()) => {
                    let g0 = old(self)@;
                    let g1 = final(self)@;
                    &&& submit_proof_outcome(g0, store@, job_id, proof_data@.len()) is None
                    &&& g1.proofs == g0.proofs.insert(job_id, proof_data)
                    &&& g1.results == g0.results.insert(
                        job_id,
                        JobResult { result_hash, proof_type, submitted_at: now, verified: false },
                    )
                    &&& g1.stats == (VerificationStatistics {
                        total_proofs_submitted: sat_inc(g0.stats.total_proofs_submitted),
                        ..g0.stats
                    })
                    &&& g1.events == g0.events.push(Event::ProofSubmitted { job_id }).push(
                        Event::ProofStored { job_id, proof_size: proof_data@.len() as u64 },
                    )
                    &&& g1.max_proof_size == g0.max_proof_size
                },
                Err(e) => submit_proof_outcome(old(self)@, store@, job_id, proof_data@.len())
                    == Some(e) && final(self)@ == old(self)@,
            },
    {
        let _ = submitter;
        let job = match store.jobs(job_id) {
            None => {
                return Err(Error::JobNotFound);
            },
            Some(j) => j,
        };
        if !matches!(job.status, JobStatus::InProgress | JobStatus::Completed) {
            return Err(Error::InvalidJobStatus);
        }
        if let Some(result) = self.results.get(&job_id) {
            if result.verified {
                return Err(Error::AlreadyVerified);
            }
        }
        if proof_data.len() > self.max_proof_size {
            return Err(Error::ProofTooLarge);
        }
        let proof_size = proof_data.len() as u64;
        self.proofs.insert(job_id, proof_data);
        self.results.insert(
            job_id,
            JobResult { result_hash, proof_type, submitted_at: now, verified: false },
        );
        self.stats.total_proofs_submitted = counter_inc(self.stats.total_proofs_submitted);
        self.deposited.push(Event::ProofSubmitted { job_id });
        self.deposited.push(Event::ProofStored { job_id, proof_size });
        proof {
            assert(self@.results.contains_key(job_id));
            assert(self@.proofs.contains_key(job_id));
            assert forall|id: u64| id != job_id implies (#[trigger] self@.results.contains_key(id)
                == #[trigger] self@.proofs.contains_key(id)) by {
                assert(old(self)@.results.contains_key(id) == old(self)@.proofs.contains_key(id));
            }
        }
        Ok(())
    }

    /// Checks the stored proof under its declared scheme. On acceptance the
    /// result is marked verified — one way, never reset — and the job's step
    /// to Verified is requested with the owner's own authority; verifying a
    /// job that is still InProgress leaves the job's status untouched. On
    /// rejection only the failure counter and log move and the result is not
    /// mutated.
    pub fn verify_proof(&mut self, verifier: u64, job_id: u64, store: &mut JobStore, now: u64) -> (r:
        Result<(), Error>)
        requires
            old(self).wf(),
            old(store).wf(),
        ensures
            final(self).wf(),
            final(store).wf(),
            match r {
                Ok(()) => {
                    &&& verify_outcome(old(self)@, old(store)@, job_id) is None
                    &&& final(self)@ == gate_after_verified(old(self)@, job_id)
                    &&& final(store)@ == store_after_verified_request(old(store)@, job_id, now)
                },
                Err(e) => {
                    &&& verify_outcome(old(self)@, old(store)@, job_id) == Some(e)
                    &&& final(store)@ == old(store)@
                    &&& final(self)@ == if verify_rejects(old(self)@, old(store)@, job_id) {
                        GateView {
                            stats: VerificationStatistics {
                                total_proofs_failed: sat_inc(
                                    old(self)@.stats.total_proofs_failed,
                                ),
                                ..old(self)@.stats
                            },
                            events: old(self)@.events.push(
                                Event::VerificationFailed { job_id },
                            ),
                            ..old(self)@
                        }
                    } else {
                        old(self)@
                    }
                },
            },
    {
        let _ = verifier;
        let ghost g0 = self@;
        if store.jobs(job_id).is_none() {
            return Err(Error::JobNotFound);
        }
        let (already_verified, found) = match self.results.get(&job_id) {
            None => (false, false),
            Some(result) => (result.verified, true),
        };
        if !found {
            return Err(Error::JobNotFound);
        }
        if already_verified {
            return Err(Error::AlreadyVerified);
        }
        let accepted = {
            let result = match self.results.get(&job_id) {
                None => {
                    proof {
                        assert(false);
                    }
                    return Err(Error::JobNotFound);
                },
                Some(r) => r,
            };
            let proof_data = match self.proofs.get(&job_id) {
                None => {
                    return Err(Error::InvalidProof);
                },
                Some(p) => p,
            };
            match result.proof_type {
                ProofType::Signature => proof_data.len() >= 64,
                ProofType::MerkleRoot => proof_data.len() > 0,
                ProofType::Hash => {
                    let computed = blake2_256(proof_data.as_slice());
                    bytes_eq(&computed, &result.result_hash)
                },
            }
        };
        if accepted {
            let mut result = match self.results.remove(&job_id) {
                None => {
                    proof {
                        assert(false);
                    }
                    return Err(Error::JobNotFound);
                },
                Some(r) => r,
            };
            result.verified = true;
            self.results.insert(job_id, result);
            let _ = store.transition_for_owner(job_id, JobStatus::Verified, now);
            self.stats.total_proofs_verified = counter_inc(self.stats.total_proofs_verified);
            self.deposited.push(Event::JobVerified { job_id });
            proof {
                assert(self@.results =~= gate_after_verified(g0, job_id).results);
                assert(self@ =~~= gate_after_verified(g0, job_id));
            }
            Ok(())
        } else {
            self.stats.total_proofs_failed = counter_inc(self.stats.total_proofs_failed);
            self.deposited.push(Event::VerificationFailed { job_id });
            Err(Error::InvalidProof)
        }
    }

    /// Privileged recovery entry: marks the result verified without running
    /// scheme dispatch, counts it, and requests the same owner-authorized
    /// step to Verified. The caller must already hold administrative
    /// authority; accounts are not checked here.
    pub fn mark_verified(&mut self, job_id: u64, store: &mut JobStore, now: u64) -> (r: Result<
        (),
        Error,
    >)
        requires
            old(self).wf(),
            old(store).wf(),
        ensures
            final(self).wf(),
            final(store).wf(),
            match r {
                Ok(()) => {
                    &&& old(self)@.results.contains_key(job_id)
                    &&& old(store)@.jobs.contains_key(job_id)
                    &&& final(self)@ == gate_after_verified(old(self)@, job_id)
                    &&& final(store)@ == store_after_verified_request(old(store)@, job_id, now)
                },
                Err(e) => {
                    &&& e == Error::JobNotFound
                    &&& !(old(self)@.results.contains_key(job_id)
                        && old(store)@.jobs.contains_key(job_id))
                    &&& final(self)@ == old(self)@
                    &&& final(store)@ == old(store)@
                },
            },
    {
        let ghost g0 = self@;
        if store.jobs(job_id).is_none() {
            return Err(Error::JobNotFound);
        }
        let mut result = match self.results.remove(&job_id) {
            None => {
                proof {
                    assert(self@.results =~= g0.results);
                    assert(self@ =~~= g0);
                }
                return Err(Error::JobNotFound);
            },
            Some(r) => r,
        };
        result.verified = true;
        self.results.insert(job_id, result);
        let _ = store.transition_for_owner(job_id, JobStatus::Verified, now);
        self.stats.total_proofs_verified = counter_inc(self.stats.total_proofs_verified);
        self.deposited.push(Event::JobVerified { job_id });
        proof {
            assert(self@.results =~= gate_after_verified(g0, job_id).results);
            assert(self@ =~~= gate_after_verified(g0, job_id));
        }
        Ok(())
    }

    /// Whether the job's result exists and has been verified.
    pub fn is_verified(&self, job_id: u64) -> (r: bool)
        ensures
            r == (self@.results.contains_key(job_id) && self@.results[job_id].verified),
    {
        match self.results.get(&job_id) {
            Some(result) => result.verified,
            None => false,
        }
    }

    /// The running verification counters.
    pub fn get_stats(&self) -> (r: VerificationStatistics)
        ensures
            r == self@.stats,
    {
        self.stats
    }

    /// The recorded result for a job, if any.
    pub fn job_results(&self, job_id: u64) -> (r: Option<&JobResult>)
        ensures
            match r {
                Some(res) => self@.results.contains_key(job_id) && *res == self@.results[job_id],
                None => !self@.results.contains_key(job_id),
            },
    {
        self.results.get(&job_id)
    }

    /// The stored proof blob for a job, if any.
    pub fn job_proofs(&self, job_id: u64) -> (r: Option<&Vec<u8>>)
        ensures
            match r {
                Some(p) => self@.proofs.contains_key(job_id) && *p == self@.proofs[job_id],
                None => !self@.proofs.contains_key(job_id),
            },
    {
        self.proofs.get(&job_id)
    }

    /// Every notification raised so far, oldest first.
    pub fn deposited_events(&self) -> (r: &Vec<Event>)
        ensures
            r@ == self@.events,
    {
        &self.deposited
    }

    /// The configured proof size bound.
    pub fn max_proof_size(&self) -> (r: usize)
        ensures
            r == self@.max_proof_size,
    {
        self.max_proof_size
    }
}


/// Law: the hash scheme is exact. With a hash-scheme result and its proof
/// blob on file for a stored job, verification succeeds precisely when the
/// content hash of the proof bytes equals the declared result hash, byte for
/// byte.
pub proof fn lemma_hash_scheme_exact(g: GateView, s: StoreView, job_id: u64)
    requires
        s.jobs.contains_key(job_id),
        g.results.contains_key(job_id),
        g.results[job_id].proof_type is Hash,
        !g.results[job_id].verified,
        g.proofs.contains_key(job_id),
    ensures
        verify_outcome(g, s, job_id) is None <==> blake2_256_of(g.proofs[job_id]@)
            == g.results[job_id].result_hash@,
{
}


/// Law: verification moves job statuses only along the transition table. The
/// step to Verified requested on acceptance is carried out exactly when the
/// table permits it and touches no other job; otherwise the store is left
/// alone.
pub proof fn lemma_verified_request_follows_table(s: StoreView, job_id: u64, now: u64)
    requires
        crate::registry::store_inv(s),
    ensures
        ({
            let s2 = store_after_verified_request(s, job_id, now);
            &&& crate::registry::store_inv(s2)
            &&& s2.jobs.dom() == s.jobs.dom()
            &&& forall|id: u64|
                #[trigger] s.jobs.contains_key(id) && s2.jobs[id].status != s.jobs[id].status
                    ==> id == job_id && crate::registry::valid_transition(
                    s.jobs[id].status,
                    s2.jobs[id].status,
                )
        }),
{
    if owner_transition_outcome(s, job_id, JobStatus::Verified) is None {
        crate::registry::lemma_apply_transition_wf(s, job_id, JobStatus::Verified, now);
        crate::registry::lemma_status_moves_follow_table(s, job_id, JobStatus::Verified, now);
    } else {
        assert(store_after_verified_request(s, job_id, now).jobs.dom() =~= s.jobs.dom());
    }
}

} // verus!
