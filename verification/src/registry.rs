//! The job store: a dependency-aware job lifecycle state machine.
//!
//! A [`JobStore`] owns the job records, the per-account job index, and one id
//! bucket per status. Every operation either completes with all three kept
//! consistent, or returns an error and changes nothing.

use vstd::prelude::*;
use std::collections::HashMap;
use crate::common::{lemma_seq_without, seq_without, vec_without};

verus! {

broadcast use vstd::std_specs::hash::group_hash_axioms;

/// Upper bound on a job's metadata blob, in bytes.
pub const MAX_METADATA_LEN: usize = 256;

/// Upper bound on the number of direct dependencies of one job.
pub const MAX_DEPENDENCIES: usize = 10;

/// Lifecycle status of a job.
#[derive(Clone, Copy, Debug, PartialEq, Eq, Structural)]
pub enum JobStatus {
    Pending,
    InProgress,
    Completed,
    Verified,
    Failed,
}

impl JobStatus {
    /// Decodes the wire representation of a status; every value above four
    /// is rejected.
    pub fn from_u8(value: u8) -> (r: Result<Self, ()>)
        ensures
            r == Self::spec_from_u8(value),
    {
        match value {
            0 => Ok(JobStatus::Pending),
            1 => Ok(JobStatus::InProgress),
            2 => Ok(JobStatus::Completed),
            3 => Ok(JobStatus::Verified),
            4 => Ok(JobStatus::Failed),
            _ => Err(()),
        }
    }

    pub open spec fn spec_from_u8(value: u8) -> Result<Self, ()> {
        match value {
            0u8 => Ok(JobStatus::Pending),
            1u8 => Ok(JobStatus::InProgress),
            2u8 => Ok(JobStatus::Completed),
            3u8 => Ok(JobStatus::Verified),
            4u8 => Ok(JobStatus::Failed),
            _ => Err(()),
        }
    }

    /// A job may leave the store only from one of these statuses.
    pub open spec fn spec_is_terminal(self) -> bool {
        self is Completed || self is Failed || self is Verified
    }

    /// A dependency counts as resolved in one of these statuses.
    pub open spec fn spec_is_resolved(self) -> bool {
        self is Completed || self is Verified
    }
}

/// The exhaustive table of permitted status transitions; everything else is
/// rejected.
pub open spec fn valid_transition(from: JobStatus, to: JobStatus) -> bool {
    ||| (from is Pending && to is InProgress)
    ||| (from is Pending && to is Failed)
    ||| (from is InProgress && to is Completed)
    ||| (from is InProgress && to is Failed)
    ||| (from is Completed && to is Verified)
}

/// Checks a proposed transition against the table.
pub fn is_valid_transition(from: JobStatus, to: JobStatus) -> (r: bool)
    ensures
        r == valid_transition(from, to),
{
    match (from, to) {
        (JobStatus::Pending, JobStatus::InProgress) => true,
        (JobStatus::Pending, JobStatus::Failed) => true,
        (JobStatus::InProgress, JobStatus::Completed) => true,
        (JobStatus::InProgress, JobStatus::Failed) => true,
        (JobStatus::Completed, JobStatus::Verified) => true,
        _ => false,
    }
}

/// Why a job store operation was refused.
#[derive(Clone, Copy, Debug, PartialEq, Eq, Structural)]
pub enum Error {
    JobNotFound,
    NotAuthorized,
    InvalidJobStatus,
    InvalidStatusTransition,
    CircularDependency,
    DependencyNotFound,
    DependencyNotCompleted,
    MaxJobsReached,
    DeadlineInPast,
    MetadataTooLarge,
    TooManyDependencies,
    MaxDependencyDepthExceeded,
}

/// Notifications the store hands to its collaborators, in the order they
/// were raised.
#[derive(Clone, Copy, Debug, PartialEq, Eq, Structural)]
pub enum Event {
    JobSubmitted { job_id: u64, owner: u64 },
    JobStatusUpdated { job_id: u64, old_status: JobStatus, new_status: JobStatus },
    JobCompleted { job_id: u64, block_number: u64 },
    JobFailed { job_id: u64 },
    JobRemoved { job_id: u64 },
}

/// One tracked job.
#[derive(Clone, Debug)]
pub struct Job {
    /// Account that submitted the job and alone may steer it.
    pub owner: u64,
    /// Opaque parameters, at most [`MAX_METADATA_LEN`] bytes.
    pub metadata: Vec<u8>,
    /// Ids of jobs that must resolve before this one is ready; each precedes
    /// this job's own id.
    pub dependencies: Vec<u64>,
    /// Advisory block height by which the job should complete.
    pub deadline: u64,
    /// Current lifecycle status.
    pub status: JobStatus,
    /// Block height at submission.
    pub submitted_at: u64,
    /// Block height at which the job first reached Completed or Verified.
    pub completed_at: Option<u64>,
}

/// The store's state as contracts see it.
#[verifier::ext_equal]
pub ghost struct StoreView {
    pub next_job_id: u64,
    pub jobs: Map<u64, Job>,
    pub account_jobs: Map<u64, Vec<u64>>,
    pub pending: Seq<u64>,
    pub in_progress: Seq<u64>,
    pub completed: Seq<u64>,
    pub verified: Seq<u64>,
    pub failed: Seq<u64>,
    pub events: Seq<Event>,
    pub max_jobs_per_account: usize,
    pub max_dependency_depth: u32,
}

/// The status bucket holding the ids of jobs in status `st`.
pub open spec fn bucket(s: StoreView, st: JobStatus) -> Seq<u64> {
    match st {
        JobStatus::Pending => s.pending,
        JobStatus::InProgress => s.in_progress,
        JobStatus::Completed => s.completed,
        JobStatus::Verified => s.verified,
        JobStatus::Failed => s.failed,
    }
}

/// `s` with the bucket for `st` replaced by `b`.
pub open spec fn with_bucket(s: StoreView, st: JobStatus, b: Seq<u64>) -> StoreView {
    match st {
        JobStatus::Pending => StoreView { pending: b, ..s },
        JobStatus::InProgress => StoreView { in_progress: b, ..s },
        JobStatus::Completed => StoreView { completed: b, ..s },
        JobStatus::Verified => StoreView { verified: b, ..s },
        JobStatus::Failed => StoreView { failed: b, ..s },
    }
}

/// The ids held for `a` in the per-account index; absent accounts hold
/// nothing.
pub open spec fn account_seq(s: StoreView, a: u64) -> Seq<u64> {
    if s.account_jobs.contains_key(a) {
        s.account_jobs[a]@
    } else {
        Seq::empty()
    }
}

/// Field bounds of one stored job: blob and dependency list within bounds,
/// and every dependency id strictly below the job's own id, which makes the
/// dependency relation acyclic by construction.
pub open spec fn job_fields_ok(id: u64, j: Job) -> bool {
    &&& j.metadata@.len() <= MAX_METADATA_LEN
    &&& j.dependencies@.len() <= MAX_DEPENDENCIES
    &&& forall|k: int| 0 <= k < j.dependencies@.len() ==> #[trigger] j.dependencies@[k] < id
}

/// One bucket is consistent: no duplicates, and every listed id is a stored
/// job bearing exactly that status.
pub open spec fn bucket_ok(s: StoreView, st: JobStatus) -> bool {
    let b = bucket(s, st);
    &&& forall|i: int|
        0 <= i < b.len() ==> s.jobs.contains_key(#[trigger] b[i]) && s.jobs[b[i]].status == st
    &&& b.no_duplicates()
}

/// One account entry is consistent: no duplicates, and every listed id is a
/// stored job owned by that account.
pub open spec fn account_entry_ok(s: StoreView, a: u64) -> bool {
    let l = s.account_jobs[a]@;
    &&& forall|i: int|
        0 <= i < l.len() ==> s.jobs.contains_key(#[trigger] l[i]) && s.jobs[l[i]].owner == a
    &&& l.no_duplicates()
}

/// The store's consistency model: ids stay below the counter, every job's
/// fields are in bounds, and the status buckets and the per-account index
/// list exactly the jobs they should.
pub open spec fn store_inv(s: StoreView) -> bool {
    &&& forall|id: u64| #[trigger] s.jobs.contains_key(id) ==> id < s.next_job_id
    &&& forall|id: u64| #[trigger] s.jobs.contains_key(id) ==> job_fields_ok(id, s.jobs[id])
    &&& bucket_ok(s, JobStatus::Pending)
    &&& bucket_ok(s, JobStatus::InProgress)
    &&& bucket_ok(s, JobStatus::Completed)
    &&& bucket_ok(s, JobStatus::Verified)
    &&& bucket_ok(s, JobStatus::Failed)
    &&& forall|id: u64| #[trigger] s.jobs.contains_key(id)
        ==> bucket(s, s.jobs[id].status).contains(id)
    &&& forall|a: u64| #[trigger] s.account_jobs.contains_key(a) ==> account_entry_ok(s, a)
    &&& forall|id: u64| #[trigger] s.jobs.contains_key(id)
        ==> account_seq(s, s.jobs[id].owner).contains(id)
}

/// Dependency-aware registry of jobs, indexed by owner and by status.
pub struct JobStore {
    next_job_id: u64,
    jobs: HashMap<u64, Job>,
    account_jobs: HashMap<u64, Vec<u64>>,
    pending_jobs: Vec<u64>,
    in_progress_jobs: Vec<u64>,
    completed_jobs: Vec<u64>,
    verified_jobs: Vec<u64>,
    failed_jobs: Vec<u64>,
    deposited: Vec<Event>,
    max_jobs_per_account: usize,
    max_dependency_depth: u32,
}

impl View for JobStore {
    type V = StoreView;

    closed spec fn view(&self) -> StoreView {
        StoreView {
            next_job_id: self.next_job_id,
            jobs: self.jobs@,
            account_jobs: self.account_jobs@,
            pending: self.pending_jobs@,
            in_progress: self.in_progress_jobs@,
            completed: self.completed_jobs@,
            verified: self.verified_jobs@,
            failed: self.failed_jobs@,
            events: self.deposited@,
            max_jobs_per_account: self.max_jobs_per_account,
            max_dependency_depth: self.max_dependency_depth,
        }
    }
}

impl JobStore {
    /// The store is consistent; every operation takes and returns a store in
    /// this state.
    pub open spec fn wf(&self) -> bool {
        store_inv(self@)
    }

    /// An empty store with the given per-account job cap and dependency
    /// recursion bound.
    pub fn new(max_jobs_per_account: usize, max_dependency_depth: u32) -> (r: JobStore)
        ensures
            r.wf(),
            r@.next_job_id == 0,
            r@.jobs == Map::<u64, Job>::empty(),
            r@.account_jobs == Map::<u64, Vec<u64>>::empty(),
            r@.pending == Seq::<u64>::empty(),
            r@.in_progress == Seq::<u64>::empty(),
            r@.completed == Seq::<u64>::empty(),
            r@.verified == Seq::<u64>::empty(),
            r@.failed == Seq::<u64>::empty(),
            r@.events == Seq::<Event>::empty(),
            r@.max_jobs_per_account == max_jobs_per_account,
            r@.max_dependency_depth == max_dependency_depth,
    {
        JobStore {
            next_job_id: 0,
            jobs: HashMap::new(),
            account_jobs: HashMap::new(),
            pending_jobs: Vec::new(),
            in_progress_jobs: Vec::new(),
            completed_jobs: Vec::new(),
            verified_jobs: Vec::new(),
            failed_jobs: Vec::new(),
            deposited: Vec::new(),
            max_jobs_per_account,
            max_dependency_depth,
        }
    }
}


/// A dependency chain starting at `id` stays within the recursion budget:
/// false as soon as `depth` reaches the bound, true once the id is unknown
/// (submission checks existence separately), and otherwise required of every
/// direct dependency one level deeper.
pub open spec fn depth_ok(jobs: Map<u64, Job>, id: u64, depth: u32, max_depth: u32) -> bool
    decreases max_depth - depth,
{
    if depth >= max_depth {
        false
    } else if !jobs.contains_key(id) {
        true
    } else {
        forall|k: int|
            0 <= k < jobs[id].dependencies@.len() ==> depth_ok(
                jobs,
                #[trigger] jobs[id].dependencies@[k],
                (depth + 1) as u32,
                max_depth,
            )
    }
}

/// Every id of `s`, taken at `depth`, stays within the recursion budget.
pub open spec fn frontier_ok(jobs: Map<u64, Job>, s: Seq<u64>, depth: u32, max_depth: u32) -> bool {
    forall|i: int| 0 <= i < s.len() ==> depth_ok(jobs, #[trigger] s[i], depth, max_depth)
}

/// The first reason to refuse the dependency list, examined in order: each
/// id must name a stored job, and its dependency chains must stay within the
/// recursion budget.
pub open spec fn deps_outcome(jobs: Map<u64, Job>, deps: Seq<u64>, max_depth: u32) -> Option<
    Error,
>
    decreases deps.len(),
{
    if deps.len() == 0 {
        None
    } else if !jobs.contains_key(deps[0]) {
        Some(Error::DependencyNotFound)
    } else if !depth_ok(jobs, deps[0], 0, max_depth) {
        Some(Error::MaxDependencyDepthExceeded)
    } else {
        deps_outcome(jobs, deps.drop_first(), max_depth)
    }
}

/// When the dependency list passes, every listed id is a stored job.
pub proof fn lemma_deps_outcome_ok(jobs: Map<u64, Job>, deps: Seq<u64>, max_depth: u32)
    requires
        deps_outcome(jobs, deps, max_depth) is None,
    ensures
        forall|k: int| 0 <= k < deps.len() ==> jobs.contains_key(#[trigger] deps[k]),
    decreases deps.len(),
{
    if deps.len() > 0 {
        lemma_deps_outcome_ok(jobs, deps.drop_first(), max_depth);
        assert forall|k: int| 0 <= k < deps.len() implies jobs.contains_key(
            #[trigger] deps[k],
        ) by {
            if k > 0 {
                assert(deps.drop_first()[k - 1] == deps[k]);
            }
        }
    }
}

/// The first reason to refuse a submission, examined in the order the checks
/// run; `None` when the submission is accepted.
pub open spec fn submit_outcome(
    s: StoreView,
    owner: u64,
    metadata: Seq<u8>,
    deps: Seq<u64>,
    deadline: u64,
    now: u64,
) -> Option<Error> {
    if metadata.len() > MAX_METADATA_LEN {
        Some(Error::MetadataTooLarge)
    } else if deps.len() > MAX_DEPENDENCIES {
        Some(Error::TooManyDependencies)
    } else if deadline <= now {
        Some(Error::DeadlineInPast)
    } else if deps_outcome(s.jobs, deps, s.max_dependency_depth) is Some {
        deps_outcome(s.jobs, deps, s.max_dependency_depth)
    } else if account_seq(s, owner).len() >= s.max_jobs_per_account {
        Some(Error::MaxJobsReached)
    } else {
        None
    }
}

impl JobStore {
    /// Walks the dependency graph below `root` breadth first, one depth level
    /// per round, and reports whether every chain stays within the budget.
    fn check_depth_from(&self, root: u64) -> (r: bool)
        requires
            self.wf(),
        ensures
            r == depth_ok(self@.jobs, root, 0, self@.max_dependency_depth),
    {
        let ghost jobs = self@.jobs;
        let max_depth = self.max_dependency_depth;
        let mut frontier: Vec<u64> = Vec::new();
        frontier.push(root);
        let mut depth: u32 = 0;
        proof {
            assert(frontier@[0] == root);
            if depth_ok(jobs, root, 0, max_depth) {
                assert forall|i: int| 0 <= i < frontier@.len() implies depth_ok(
                    jobs,
                    #[trigger] frontier@[i],
                    0u32,
                    max_depth,
                ) by {
                    assert(frontier@[i] == root);
                }
            }
            if frontier_ok(jobs, frontier@, 0, max_depth) {
                assert(depth_ok(jobs, frontier@[0], 0u32, max_depth));
            }
        }
        loop
            invariant
                self.wf(),
                max_depth == self@.max_dependency_depth,
                jobs == self@.jobs,
                depth <= max_depth,
                depth_ok(jobs, root, 0, max_depth) <==> frontier_ok(
                    jobs,
                    frontier@,
                    depth,
                    max_depth,
                ),
            decreases max_depth - depth,
        {
            if frontier.len() == 0 {
                return true;
            }
            if depth >= max_depth {
                proof {
                    assert(!depth_ok(jobs, frontier@[0], depth, max_depth));
                }
                return false;
            }
            let mut next: Vec<u64> = Vec::new();
            let mut i: usize = 0;
            proof {
                assert(frontier@.skip(0) =~= frontier@);
            }
            while i < frontier.len()
                invariant
                    self.wf(),
                    max_depth == self@.max_dependency_depth,
                    jobs == self@.jobs,
                    depth < max_depth,
                    i <= frontier.len(),
                    frontier_ok(jobs, frontier@, depth, max_depth) <==> (frontier_ok(
                        jobs,
                        frontier@.skip(i as int),
                        depth,
                        max_depth,
                    ) && frontier_ok(jobs, next@, (depth + 1) as u32, max_depth)),
                decreases frontier.len() - i,
            {
                let id = frontier[i];
                let ghost pre_next = next@;
                match self.jobs.get(&id) {
                    Some(job) => {
                        let deps = &job.dependencies;
                        let mut k: usize = 0;
                        while k < deps.len()
                            invariant
                                k <= deps.len(),
                                next@ == pre_next + deps@.take(k as int),
                            decreases deps.len() - k,
                        {
                            next.push(deps[k]);
                            proof {
                                assert(deps@.take(k + 1) =~= deps@.take(k as int).push(
                                    deps@[k as int],
                                ));
                                assert(pre_next + deps@.take(k + 1) =~= (pre_next + deps@.take(
                                    k as int,
                                )).push(deps@[k as int]));
                            }
                            k += 1;
                        }
                        proof {
                            assert(deps@.take(deps@.len() as int) =~= deps@);
                            assert(next@ == pre_next + deps@);
                            let d1 = (depth + 1) as u32;
                            assert(depth_ok(jobs, id, depth, max_depth) <==> frontier_ok(
                                jobs,
                                deps@,
                                d1,
                                max_depth,
                            )) by {
                                assert(jobs[id] == *job);
                            }
                            assert(frontier_ok(jobs, next@, d1, max_depth) <==> (frontier_ok(
                                jobs,
                                pre_next,
                                d1,
                                max_depth,
                            ) && frontier_ok(jobs, deps@, d1, max_depth))) by {
                                assert(forall|n: int|
                                    0 <= n < pre_next.len() ==> next@[n] == #[trigger] pre_next[n]);
                                assert(forall|n: int|
                                    0 <= n < deps@.len() ==> next@[pre_next.len() + n]
                                        == #[trigger] deps@[n]);
                            }
                        }
                    },
                    None => {
                        proof {
                            assert(depth_ok(jobs, id, depth, max_depth));
                        }
                    },
                }
                proof {
                    let tail = frontier@.skip(i as int);
                    assert(tail[0] == frontier@[i as int]);
                    assert(tail.drop_first() =~= frontier@.skip(i + 1));
                    assert(frontier_ok(jobs, tail, depth, max_depth) <==> (depth_ok(
                        jobs,
                        frontier@[i as int],
                        depth,
                        max_depth,
                    ) && frontier_ok(jobs, frontier@.skip(i + 1), depth, max_depth))) by {
                        assert(forall|n: int|
                            0 <= n < tail.drop_first().len() ==> tail.drop_first()[n]
                                == #[trigger] tail[n + 1]);
                        assert forall|n: int|
                            0 <= n < tail.len() implies depth_ok(jobs, #[trigger] tail[n], depth, max_depth)
                            == if n == 0 {
                                depth_ok(jobs, frontier@[i as int], depth, max_depth)
                            } else {
                                depth_ok(jobs, frontier@.skip(i + 1)[n - 1], depth, max_depth)
                            } by {
                            if n > 0 {
                                assert(tail[n] == frontier@.skip(i + 1)[n - 1]);
                            }
                        }
                    }
                }
                i += 1;
            }
            proof {
                assert(frontier@.skip(frontier@.len() as int) =~= Seq::<u64>::empty());
            }
            frontier = next;
            depth += 1;
        }
    }
}


impl JobStore {
    /// Registers a new job for `owner` with the given metadata, direct
    /// dependencies, and advisory deadline, returning its fresh id. The
    /// checks run in order: blob and list bounds, deadline strictly in the
    /// future, each dependency stored and within the recursion budget, and
    /// the owner's job count below the cap; the first violation is returned
    /// and nothing changes. Ids count up and are never reused, so the id
    /// space must not be exhausted.
    pub fn submit_job(
        &mut self,
        owner: u64,
        metadata: Vec<u8>,
        dependencies: Vec<u64>,
        deadline: u64,
        now: u64,
    ) -> (r: Result<u64, Error>)
        requires
            old(self).wf(),
            old(self)@.next_job_id < u64::MAX,
        ensures
            final(self).wf(),
            match r {
                Ok(job_id) => {
                    let s0 = old(self)@;
                    let s1 = final(self)@;
                    &&& submit_outcome(s0, owner, metadata@, dependencies@, deadline, now) is None
                    &&& job_id == s0.next_job_id
                    &&& s1.next_job_id == s0.next_job_id + 1
                    &&& s1.jobs == s0.jobs.insert(
                        job_id,
                        Job {
                            owner,
                            metadata,
                            dependencies,
                            deadline,
                            status: JobStatus::Pending,
                            submitted_at: now,
                            completed_at: None,
                        },
                    )
                    &&& account_seq(s1, owner) == account_seq(s0, owner).push(job_id)
                    &&& forall|a: u64| a != owner ==> account_seq(s1, a) == account_seq(s0, a)
                    &&& s1.pending == s0.pending.push(job_id)
                    &&& s1.in_progress == s0.in_progress
                    &&& s1.completed == s0.completed
                    &&& s1.verified == s0.verified
                    &&& s1.failed == s0.failed
                    &&& s1.events == s0.events.push(Event::JobSubmitted { job_id, owner })
                    &&& s1.max_jobs_per_account == s0.max_jobs_per_account
                    &&& s1.max_dependency_depth == s0.max_dependency_depth
                },
                Err(e) => {
                    &&& submit_outcome(old(self)@, owner, metadata@, dependencies@, deadline, now)
                        == Some(e)
                    &&& final(self)@ == old(self)@
                },
            },
    {
        broadcast use crate::common::lemma_push_contains;

        if metadata.len() > MAX_METADATA_LEN {
            return Err(Error::MetadataTooLarge);
        }
        if dependencies.len() > MAX_DEPENDENCIES {
            return Err(Error::TooManyDependencies);
        }
        if deadline <= now {
            return Err(Error::DeadlineInPast);
        }
        let ghost s0 = self@;
        proof {
            assert(dependencies@.skip(0) =~= dependencies@);
        }
        let mut i: usize = 0;
        while i < dependencies.len()
            invariant
                self == old(self),
                self.wf(),
                s0 == self@,
                s0.next_job_id < u64::MAX,
                metadata@.len() <= MAX_METADATA_LEN,
                dependencies@.len() <= MAX_DEPENDENCIES,
                now < deadline,
                i <= dependencies.len(),
                deps_outcome(s0.jobs, dependencies@, s0.max_dependency_depth) == deps_outcome(
                    s0.jobs,
                    dependencies@.skip(i as int),
                    s0.max_dependency_depth,
                ),
            decreases dependencies.len() - i,
        {
            let dep = dependencies[i];
            let ghost tail = dependencies@.skip(i as int);
            proof {
                assert(tail.len() > 0);
                assert(tail[0] == dep);
                assert(tail.drop_first() =~= dependencies@.skip(i + 1));
            }
            if !self.jobs.contains_key(&dep) {
                proof {
                    assert(deps_outcome(s0.jobs, tail, s0.max_dependency_depth) == Some(
                        Error::DependencyNotFound,
                    ));
                }
                return Err(Error::DependencyNotFound);
            }
            if !self.check_depth_from(dep) {
                proof {
                    assert(deps_outcome(s0.jobs, tail, s0.max_dependency_depth) == Some(
                        Error::MaxDependencyDepthExceeded,
                    ));
                }
                return Err(Error::MaxDependencyDepthExceeded);
            }
            i += 1;
        }
        proof {
            assert(dependencies@.skip(dependencies@.len() as int) =~= Seq::<u64>::empty());
        }
        let owned_count: usize = match self.account_jobs.get(&owner) {
            Some(l) => l.len(),
            None => 0,
        };
        proof {
            assert(owned_count == account_seq(s0, owner).len());
        }
        if owned_count >= self.max_jobs_per_account {
            return Err(Error::MaxJobsReached);
        }
        let job_id = self.next_job_id;
        self.next_job_id = job_id + 1;
        let job = Job {
            owner,
            metadata,
            dependencies,
            deadline,
            status: JobStatus::Pending,
            submitted_at: now,
            completed_at: None,
        };
        let ghost new_job = job;
        self.jobs.insert(job_id, job);
        let mut list: Vec<u64> = match self.account_jobs.get(&owner) {
            Some(l) => l.clone(),
            None => Vec::new(),
        };
        proof {
            assert(list@ =~= account_seq(s0, owner));
        }
        list.push(job_id);
        self.account_jobs.insert(owner, list);
        self.pending_jobs.push(job_id);
        self.deposited.push(Event::JobSubmitted { job_id, owner });
        proof {
            let s1 = self@;
            assert(!s0.jobs.contains_key(job_id));
            lemma_deps_outcome_ok(s0.jobs, new_job.dependencies@, s0.max_dependency_depth);
            assert forall|id: u64| #[trigger] s1.jobs.contains_key(id) implies id
                < s1.next_job_id && job_fields_ok(id, s1.jobs[id]) by {
                if id == job_id {
                    assert forall|k: int|
                        0 <= k < new_job.dependencies@.len() implies #[trigger] new_job
                        .dependencies@[k] < job_id by {
                        assert(s0.jobs.contains_key(new_job.dependencies@[k]));
                    }
                } else {
                    assert(s0.jobs.contains_key(id));
                }
            }
            assert(bucket(s1, JobStatus::Pending) == s0.pending.push(job_id));
            assert forall|st: JobStatus| bucket_ok(s0, st) implies bucket_ok(s1, st) by {
                let b0 = bucket(s0, st);
                let b1 = bucket(s1, st);
                assert forall|k: int| 0 <= k < b1.len() implies s1.jobs.contains_key(
                    #[trigger] b1[k],
                ) && s1.jobs[b1[k]].status == st by {
                    if st is Pending && k == b1.len() - 1 {
                    } else {
                        assert(b1[k] == b0[k]);
                        assert(s0.jobs.contains_key(b0[k]));
                        assert(b0[k] != job_id);
                    }
                }
                if st is Pending {
                    assert(forall|k: int|
                        0 <= k < b0.len() ==> s0.jobs.contains_key(#[trigger] b0[k]));
                    assert(!b0.contains(job_id));
                    crate::common::lemma_push_no_dup(b0, job_id);
                }
            }
            assert forall|id: u64| #[trigger] s1.jobs.contains_key(id) implies bucket(
                s1,
                s1.jobs[id].status,
            ).contains(id) by {
                if id == job_id {
                    assert(s1.pending[s1.pending.len() - 1] == job_id);
                } else {
                    assert(s0.jobs.contains_key(id));
                    let st = s0.jobs[id].status;
                    assert(bucket(s0, st).contains(id));
                    if st is Pending {
                        assert(bucket(s1, st).contains(id));
                    } else {
                        assert(bucket(s1, st) == bucket(s0, st));
                    }
                }
            }
            assert(account_seq(s1, owner) == account_seq(s0, owner).push(job_id));
            assert forall|a: u64| #[trigger] s1.account_jobs.contains_key(a) implies
                account_entry_ok(s1, a) by {
                if a == owner {
                    let l0 = account_seq(s0, owner);
                    let l1 = s1.account_jobs[owner]@;
                    assert(l1 == l0.push(job_id));
                    assert forall|k: int| 0 <= k < l1.len() implies s1.jobs.contains_key(
                        #[trigger] l1[k],
                    ) && s1.jobs[l1[k]].owner == owner by {
                        if k < l1.len() - 1 {
                            assert(l1[k] == l0[k]);
                            assert(s0.jobs.contains_key(l0[k]));
                        }
                    }
                    assert(forall|k: int|
                        0 <= k < l0.len() ==> s0.jobs.contains_key(#[trigger] l0[k]));
                    assert(!l0.contains(job_id));
                    crate::common::lemma_push_no_dup(l0, job_id);
                } else {
                    assert(s0.account_jobs.contains_key(a));
                    assert(s1.account_jobs[a] == s0.account_jobs[a]);
                    let l = s0.account_jobs[a]@;
                    assert(forall|k: int|
                        0 <= k < l.len() ==> s0.jobs.contains_key(#[trigger] l[k])
                            && s0.jobs[l[k]].owner == a);
                }
            }
            assert forall|id: u64| #[trigger] s1.jobs.contains_key(id) implies account_seq(
                s1,
                s1.jobs[id].owner,
            ).contains(id) by {
                if id == job_id {
                    let l1 = account_seq(s1, owner);
                    assert(l1[l1.len() - 1] == job_id);
                } else {
                    assert(s0.jobs.contains_key(id));
                    let a = s0.jobs[id].owner;
                    assert(account_seq(s0, a).contains(id));
                }
            }
        }
        Ok(job_id)
    }
}


/// The stored job as it looks after a permitted transition: new status, and
/// the completion height recorded the first time the job reaches Completed
/// or Verified, never overwritten after that.
pub open spec fn transitioned_job(j: Job, new_status: JobStatus, now: u64) -> Job {
    Job {
        status: new_status,
        completed_at: if (new_status is Completed || new_status is Verified)
            && j.completed_at is None {
            Some(now)
        } else {
            j.completed_at
        },
        ..j
    }
}

/// The store after a permitted transition of `job_id` to `new_status`: the
/// job record and both status buckets change together, and the raised
/// notifications are appended.
pub open spec fn apply_transition(
    s: StoreView,
    job_id: u64,
    new_status: JobStatus,
    now: u64,
) -> StoreView
    recommends
        s.jobs.contains_key(job_id),
        valid_transition(s.jobs[job_id].status, new_status),
{
    let job = s.jobs[job_id];
    let old_status = job.status;
    let s1 = StoreView { jobs: s.jobs.insert(job_id, transitioned_job(job, new_status, now)), ..s };
    let s2 = with_bucket(s1, old_status, seq_without(bucket(s1, old_status), job_id));
    let s3 = with_bucket(s2, new_status, bucket(s2, new_status).push(job_id));
    let evs = s3.events.push(
        Event::JobStatusUpdated { job_id, old_status, new_status },
    );
    let evs = if new_status is Completed {
        evs.push(Event::JobCompleted { job_id, block_number: now })
    } else if new_status is Failed {
        evs.push(Event::JobFailed { job_id })
    } else {
        evs
    };
    StoreView { events: evs, ..s3 }
}

/// Why an owner-authorized transition request is refused, examined in order;
/// `None` when it is carried out.
pub open spec fn transition_outcome(
    s: StoreView,
    caller: u64,
    job_id: u64,
    new_status: JobStatus,
) -> Option<Error> {
    if !s.jobs.contains_key(job_id) {
        Some(Error::JobNotFound)
    } else if s.jobs[job_id].owner != caller {
        Some(Error::NotAuthorized)
    } else if !valid_transition(s.jobs[job_id].status, new_status) {
        Some(Error::InvalidStatusTransition)
    } else {
        None
    }
}

/// Like [`transition_outcome`], for the privileged entry point that already
/// acts with the owner's authority.
pub open spec fn owner_transition_outcome(s: StoreView, job_id: u64, new_status: JobStatus) -> Option<
    Error,
> {
    if !s.jobs.contains_key(job_id) {
        Some(Error::JobNotFound)
    } else if !valid_transition(s.jobs[job_id].status, new_status) {
        Some(Error::InvalidStatusTransition)
    } else {
        None
    }
}

/// A permitted transition keeps the store consistent, touches no other job,
/// and moves only the two buckets involved.
pub proof fn lemma_apply_transition_wf(s: StoreView, job_id: u64, new_status: JobStatus, now: u64)
    requires
        store_inv(s),
        s.jobs.contains_key(job_id),
        valid_transition(s.jobs[job_id].status, new_status),
    ensures
        store_inv(apply_transition(s, job_id, new_status, now)),
{
    broadcast use crate::common::lemma_push_contains;

    let s2 = apply_transition(s, job_id, new_status, now);
    let old_status = s.jobs[job_id].status;
    let nj = transitioned_job(s.jobs[job_id], new_status, now);
    assert(old_status != new_status);
    lemma_seq_without(bucket(s, old_status), job_id);
    assert(bucket(s2, old_status) == seq_without(bucket(s, old_status), job_id));
    assert(bucket(s2, new_status) == bucket(s, new_status).push(job_id));
    assert(forall|st: JobStatus|
        st != old_status && st != new_status ==> bucket(s2, st) == bucket(s, st));
    assert(s2.jobs == s.jobs.insert(job_id, nj));
    assert forall|id: u64| #[trigger] s2.jobs.contains_key(id) implies id < s2.next_job_id
        && job_fields_ok(id, s2.jobs[id]) by {
        assert(s.jobs.contains_key(id));
        if id == job_id {
            assert(job_fields_ok(job_id, s.jobs[job_id]));
        }
    }
    assert(!bucket(s, new_status).contains(job_id));
    assert forall|st: JobStatus| #![auto] true implies bucket_ok(s2, st) by {
        let b0 = bucket(s, st);
        let b2 = bucket(s2, st);
        if st == old_status {
            assert forall|i: int| 0 <= i < b2.len() implies s2.jobs.contains_key(
                #[trigger] b2[i],
            ) && s2.jobs[b2[i]].status == st by {
                assert(b2.contains(b2[i]));
                assert(b0.contains(b2[i]) && b2[i] != job_id);
                let k = choose|k: int| 0 <= k < b0.len() && b0[k] == b2[i];
                assert(s.jobs.contains_key(b0[k]) && s.jobs[b0[k]].status == st);
            }
        } else if st == new_status {
            crate::common::lemma_push_no_dup(b0, job_id);
            assert forall|i: int| 0 <= i < b2.len() implies s2.jobs.contains_key(
                #[trigger] b2[i],
            ) && s2.jobs[b2[i]].status == st by {
                if i < b2.len() - 1 {
                    assert(b2[i] == b0[i]);
                    assert(s.jobs.contains_key(b0[i]) && s.jobs[b0[i]].status == st);
                    assert(b0.contains(b0[i]));
                    assert(b0[i] != job_id);
                } else {
                    assert(b2[i] == job_id);
                }
            }
        } else {
            assert(b2 == b0);
            assert forall|i: int| 0 <= i < b2.len() implies s2.jobs.contains_key(
                #[trigger] b2[i],
            ) && s2.jobs[b2[i]].status == st by {
                assert(s.jobs.contains_key(b0[i]) && s.jobs[b0[i]].status == st);
                assert(b0.contains(b0[i]));
                assert(b0[i] != job_id);
            }
        }
    }
    assert forall|id: u64| #[trigger] s2.jobs.contains_key(id) implies bucket(
        s2,
        s2.jobs[id].status,
    ).contains(id) by {
        if id == job_id {
            let b2 = bucket(s2, new_status);
            assert(b2[b2.len() - 1] == job_id);
        } else {
            assert(s.jobs.contains_key(id));
            let st = s.jobs[id].status;
            assert(bucket(s, st).contains(id));
            if st == old_status {
                assert(bucket(s2, st).contains(id));
            } else if st == new_status {
                assert(bucket(s2, st).contains(id));
            } else {
                assert(bucket(s2, st) == bucket(s, st));
            }
        }
    }
    assert(s2.account_jobs == s.account_jobs);
    assert forall|a: u64| #[trigger] s2.account_jobs.contains_key(a) implies account_entry_ok(
        s2,
        a,
    ) by {
        let l = s.account_jobs[a]@;
        assert(account_entry_ok(s, a));
        assert forall|i: int| 0 <= i < l.len() implies s2.jobs.contains_key(#[trigger] l[i])
            && s2.jobs[l[i]].owner == a by {
            assert(s.jobs.contains_key(l[i]) && s.jobs[l[i]].owner == a);
            assert(nj.owner == s.jobs[job_id].owner);
        }
    }
    assert forall|id: u64| #[trigger] s2.jobs.contains_key(id) implies account_seq(
        s2,
        s2.jobs[id].owner,
    ).contains(id) by {
        assert(s.jobs.contains_key(id));
        let a = s.jobs[id].owner;
        assert(account_seq(s, a).contains(id));
        assert(s2.jobs[id].owner == a);
        assert(account_seq(s2, a) == account_seq(s, a));
    }
}

impl JobStore {
    /// Carries out a transition already known to be permitted; the caller
    /// has settled authority and validity.
    fn do_transition(&mut self, job_id: u64, new_status: JobStatus, now: u64)
        requires
            old(self).wf(),
            old(self)@.jobs.contains_key(job_id),
            valid_transition(old(self)@.jobs[job_id].status, new_status),
        ensures
            final(self).wf(),
            final(self)@ == apply_transition(old(self)@, job_id, new_status, now),
    {
        let ghost s0 = self@;
        let mut job = match self.jobs.remove(&job_id) {
            Some(j) => j,
            None => {
                proof {
                    assert(false);
                }
                Job {
                    owner: 0,
                    metadata: Vec::new(),
                    dependencies: Vec::new(),
                    deadline: 0,
                    status: JobStatus::Pending,
                    submitted_at: 0,
                    completed_at: None,
                }
            },
        };
        let old_status = job.status;
        job.status = new_status;
        if matches!(new_status, JobStatus::Completed | JobStatus::Verified)
            && job.completed_at.is_none() {
            job.completed_at = Some(now);
        }
        proof {
            assert(job == transitioned_job(s0.jobs[job_id], new_status, now));
        }
        self.jobs.insert(job_id, job);
        proof {
            assert(self.jobs@ =~= s0.jobs.insert(job_id, transitioned_job(
                s0.jobs[job_id],
                new_status,
                now,
            )));
        }
        match old_status {
            JobStatus::Pending => {
                self.pending_jobs = vec_without(&self.pending_jobs, job_id);
            },
            JobStatus::InProgress => {
                self.in_progress_jobs = vec_without(&self.in_progress_jobs, job_id);
            },
            JobStatus::Completed => {
                self.completed_jobs = vec_without(&self.completed_jobs, job_id);
            },
            JobStatus::Verified => {
                self.verified_jobs = vec_without(&self.verified_jobs, job_id);
            },
            JobStatus::Failed => {
                self.failed_jobs = vec_without(&self.failed_jobs, job_id);
            },
        }
        match new_status {
            JobStatus::Pending => {
                self.pending_jobs.push(job_id);
            },
            JobStatus::InProgress => {
                self.in_progress_jobs.push(job_id);
            },
            JobStatus::Completed => {
                self.completed_jobs.push(job_id);
            },
            JobStatus::Verified => {
                self.verified_jobs.push(job_id);
            },
            JobStatus::Failed => {
                self.failed_jobs.push(job_id);
            },
        }
        self.deposited.push(Event::JobStatusUpdated { job_id, old_status, new_status });
        if matches!(new_status, JobStatus::Completed) {
            self.deposited.push(Event::JobCompleted { job_id, block_number: now });
        } else if matches!(new_status, JobStatus::Failed) {
            self.deposited.push(Event::JobFailed { job_id });
        }
        proof {
            assert(self@ =~~= apply_transition(s0, job_id, new_status, now));
            lemma_apply_transition_wf(s0, job_id, new_status, now);
        }
    }

    /// Requests a status transition on behalf of `caller`, who must own the
    /// job; the transition must be in the table, else nothing changes and the
    /// refusal is reported.
    pub fn update_job_status(
        &mut self,
        caller: u64,
        job_id: u64,
        new_status: JobStatus,
        now: u64,
    ) -> (r: Result<(), Error>)
        requires
            old(self).wf(),
        ensures
            final(self).wf(),
            match r {
                Ok(()) => transition_outcome(old(self)@, caller, job_id, new_status) is None
                    && final(self)@ == apply_transition(old(self)@, job_id, new_status, now),
                Err(e) => transition_outcome(old(self)@, caller, job_id, new_status) == Some(e)
                    && final(self)@ == old(self)@,
            },
    {
        let (owner, status) = match self.jobs.get(&job_id) {
            None => {
                return Err(Error::JobNotFound);
            },
            Some(job) => (job.owner, job.status),
        };
        if owner != caller {
            return Err(Error::NotAuthorized);
        }
        if !is_valid_transition(status, new_status) {
            return Err(Error::InvalidStatusTransition);
        }
        self.do_transition(job_id, new_status, now);
        Ok(())
    }

    /// The capability the store hands to trusted internal collaborators (the
    /// verification checker, the event hub): requests a transition with the
    /// authority of the job's own owner, whoever asked for it.
    pub fn transition_for_owner(&mut self, job_id: u64, new_status: JobStatus, now: u64) -> (r:
        Result<(), Error>)
        requires
            old(self).wf(),
        ensures
            final(self).wf(),
            match r {
                Ok(()) => owner_transition_outcome(old(self)@, job_id, new_status) is None
                    && final(self)@ == apply_transition(old(self)@, job_id, new_status, now),
                Err(e) => owner_transition_outcome(old(self)@, job_id, new_status) == Some(e)
                    && final(self)@ == old(self)@,
            },
    {
        let status = match self.jobs.get(&job_id) {
            None => {
                return Err(Error::JobNotFound);
            },
            Some(job) => job.status,
        };
        if !is_valid_transition(status, new_status) {
            return Err(Error::InvalidStatusTransition);
        }
        self.do_transition(job_id, new_status, now);
        Ok(())
    }
}


/// Why a removal request is refused, examined in order: the job must exist,
/// the caller must own it, and it must be terminal.
pub open spec fn remove_outcome(s: StoreView, caller: u64, job_id: u64) -> Option<Error> {
    if !s.jobs.contains_key(job_id) {
        Some(Error::JobNotFound)
    } else if s.jobs[job_id].owner != caller {
        Some(Error::NotAuthorized)
    } else if !s.jobs[job_id].status.spec_is_terminal() {
        Some(Error::InvalidStatusTransition)
    } else {
        None
    }
}

/// Every dependency of `job_id` names a stored job that has reached
/// Completed or Verified; false when the job itself, or any dependency, is
/// missing, or any dependency is Pending, InProgress, or Failed.
pub open spec fn spec_deps_met(jobs: Map<u64, Job>, job_id: u64) -> bool {
    &&& jobs.contains_key(job_id)
    &&& forall|k: int|
        0 <= k < jobs[job_id].dependencies@.len() ==> {
            let d = #[trigger] jobs[job_id].dependencies@[k];
            jobs.contains_key(d) && jobs[d].status.spec_is_resolved()
        }
}

/// The pending ids whose dependencies are all met, in bucket order.
pub open spec fn spec_ready(jobs: Map<u64, Job>, pending: Seq<u64>) -> Seq<u64>
    decreases pending.len(),
{
    if pending.len() == 0 {
        Seq::empty()
    } else {
        let rest = spec_ready(jobs, pending.drop_last());
        if spec_deps_met(jobs, pending.last()) {
            rest.push(pending.last())
        } else {
            rest
        }
    }
}

impl JobStore {
    /// Deletes a terminal job on behalf of its owner, purging it from the
    /// owner index and the status index in the same step; any refusal leaves
    /// the job fully intact, indexes included.
    pub fn remove_job(&mut self, caller: u64, job_id: u64) -> (r: Result<(), Error>)
        requires
            old(self).wf(),
        ensures
            final(self).wf(),
            match r {
                Ok(()) => {
                    let s0 = old(self)@;
                    let s1 = final(self)@;
                    let st = s0.jobs[job_id].status;
                    &&& remove_outcome(s0, caller, job_id) is None
                    &&& s1.jobs == s0.jobs.remove(job_id)
                    &&& account_seq(s1, caller) == seq_without(account_seq(s0, caller), job_id)
                    &&& forall|a: u64| a != caller ==> account_seq(s1, a) == account_seq(s0, a)
                    &&& bucket(s1, st) == seq_without(bucket(s0, st), job_id)
                    &&& forall|st2: JobStatus| st2 != st ==> bucket(s1, st2) == bucket(s0, st2)
                    &&& s1.events == s0.events.push(Event::JobRemoved { job_id })
                    &&& s1.next_job_id == s0.next_job_id
                    &&& s1.max_jobs_per_account == s0.max_jobs_per_account
                    &&& s1.max_dependency_depth == s0.max_dependency_depth
                },
                Err(e) => remove_outcome(old(self)@, caller, job_id) == Some(e) && final(self)@
                    == old(self)@,
            },
    {
        let ghost s0 = self@;
        let (owner, status) = match self.jobs.get(&job_id) {
            None => {
                return Err(Error::JobNotFound);
            },
            Some(job) => (job.owner, job.status),
        };
        if owner != caller {
            return Err(Error::NotAuthorized);
        }
        if !matches!(status, JobStatus::Completed | JobStatus::Failed | JobStatus::Verified) {
            return Err(Error::InvalidStatusTransition);
        }
        self.jobs.remove(&job_id);
        let new_list: Vec<u64> = match self.account_jobs.get(&caller) {
            Some(l) => vec_without(l, job_id),
            None => {
                proof {
                    assert(account_seq(s0, caller).contains(job_id));
                    assert(false);
                }
                Vec::new()
            },
        };
        self.account_jobs.insert(caller, new_list);
        match status {
            JobStatus::Pending => {
                self.pending_jobs = vec_without(&self.pending_jobs, job_id);
            },
            JobStatus::InProgress => {
                self.in_progress_jobs = vec_without(&self.in_progress_jobs, job_id);
            },
            JobStatus::Completed => {
                self.completed_jobs = vec_without(&self.completed_jobs, job_id);
            },
            JobStatus::Verified => {
                self.verified_jobs = vec_without(&self.verified_jobs, job_id);
            },
            JobStatus::Failed => {
                self.failed_jobs = vec_without(&self.failed_jobs, job_id);
            },
        }
        self.deposited.push(Event::JobRemoved { job_id });
        proof {
            let s1 = self@;
            lemma_seq_without(bucket(s0, status), job_id);
            lemma_seq_without(account_seq(s0, caller), job_id);
            assert(s1.jobs =~= s0.jobs.remove(job_id));
            assert(bucket(s1, status) == seq_without(bucket(s0, status), job_id));
            assert forall|id: u64| #[trigger] s1.jobs.contains_key(id) implies id
                < s1.next_job_id && job_fields_ok(id, s1.jobs[id]) by {
                assert(s0.jobs.contains_key(id));
            }
            assert forall|st: JobStatus| #![auto] true implies bucket_ok(s1, st) by {
                let b0 = bucket(s0, st);
                let b1 = bucket(s1, st);
                if st == status {
                    assert forall|i: int| 0 <= i < b1.len() implies s1.jobs.contains_key(
                        #[trigger] b1[i],
                    ) && s1.jobs[b1[i]].status == st by {
                        assert(b1.contains(b1[i]));
                        assert(b0.contains(b1[i]) && b1[i] != job_id);
                        let k = choose|k: int| 0 <= k < b0.len() && b0[k] == b1[i];
                        assert(s0.jobs.contains_key(b0[k]) && s0.jobs[b0[k]].status == st);
                    }
                } else {
                    assert(b1 == b0);
                    assert forall|i: int| 0 <= i < b1.len() implies s1.jobs.contains_key(
                        #[trigger] b1[i],
                    ) && s1.jobs[b1[i]].status == st by {
                        assert(s0.jobs.contains_key(b0[i]) && s0.jobs[b0[i]].status == st);
                        assert(s0.jobs[job_id].status == status);
                    }
                }
            }
            assert forall|id: u64| #[trigger] s1.jobs.contains_key(id) implies bucket(
                s1,
                s1.jobs[id].status,
            ).contains(id) by {
                assert(s0.jobs.contains_key(id) && id != job_id);
                let st = s0.jobs[id].status;
                assert(bucket(s0, st).contains(id));
                if st == status {
                    assert(bucket(s1, st).contains(id));
                } else {
                    assert(bucket(s1, st) == bucket(s0, st));
                }
            }
            assert(account_seq(s1, caller) == seq_without(account_seq(s0, caller), job_id));
            assert forall|a: u64| #[trigger] s1.account_jobs.contains_key(a) implies
                account_entry_ok(s1, a) by {
                let l1 = s1.account_jobs[a]@;
                if a == caller {
                    assert(l1 == seq_without(account_seq(s0, caller), job_id));
                    assert forall|i: int| 0 <= i < l1.len() implies s1.jobs.contains_key(
                        #[trigger] l1[i],
                    ) && s1.jobs[l1[i]].owner == a by {
                        assert(l1.contains(l1[i]));
                        assert(account_seq(s0, caller).contains(l1[i]) && l1[i] != job_id);
                        let l0 = account_seq(s0, caller);
                        let k = choose|k: int| 0 <= k < l0.len() && l0[k] == l1[i];
                        assert(s0.jobs.contains_key(l0[k]) && s0.jobs[l0[k]].owner == a);
                    }
                } else {
                    assert(s0.account_jobs.contains_key(a));
                    assert(account_entry_ok(s0, a));
                    assert forall|i: int| 0 <= i < l1.len() implies s1.jobs.contains_key(
                        #[trigger] l1[i],
                    ) && s1.jobs[l1[i]].owner == a by {
                        assert(s0.jobs.contains_key(l1[i]) && s0.jobs[l1[i]].owner == a);
                        assert(s0.jobs[job_id].owner == caller);
                    }
                }
            }
            assert forall|id: u64| #[trigger] s1.jobs.contains_key(id) implies account_seq(
                s1,
                s1.jobs[id].owner,
            ).contains(id) by {
                assert(s0.jobs.contains_key(id) && id != job_id);
                let a = s0.jobs[id].owner;
                assert(account_seq(s0, a).contains(id));
                if a == caller {
                    assert(account_seq(s1, a).contains(id));
                } else {
                    assert(account_seq(s1, a) == account_seq(s0, a));
                }
            }
        }
        Ok(())
    }

    /// Reports whether every dependency of `job_id` is Completed or
    /// Verified; false when the job or any dependency is missing, or any
    /// dependency is Pending, InProgress, or Failed.
    pub fn are_dependencies_met(&self, job_id: u64) -> (r: bool)
        requires
            self.wf(),
        ensures
            r == spec_deps_met(self@.jobs, job_id),
    {
        let job = match self.jobs.get(&job_id) {
            None => {
                return false;
            },
            Some(j) => j,
        };
        let deps = &job.dependencies;
        let ghost jobs = self@.jobs;
        let mut k: usize = 0;
        while k < deps.len()
            invariant
                jobs == self@.jobs,
                jobs.contains_key(job_id),
                deps@ == jobs[job_id].dependencies@,
                k <= deps@.len(),
                forall|m: int|
                    0 <= m < k ==> {
                        let d = #[trigger] deps@[m];
                        jobs.contains_key(d) && jobs[d].status.spec_is_resolved()
                    },
            decreases deps@.len() - k,
        {
            let d = deps[k];
            match self.jobs.get(&d) {
                None => {
                    return false;
                },
                Some(dep_job) => {
                    if !matches!(dep_job.status, JobStatus::Completed | JobStatus::Verified) {
                        return false;
                    }
                },
            }
            k += 1;
        }
        true
    }

    /// Lists every Pending job whose dependencies are all met, in the order
    /// of the Pending bucket; a pure read recomputed on each call.
    pub fn get_ready_jobs(&self) -> (r: Vec<u64>)
        requires
            self.wf(),
        ensures
            r@ == spec_ready(self@.jobs, self@.pending),
    {
        let mut out: Vec<u64> = Vec::new();
        let mut i: usize = 0;
        let pending = &self.pending_jobs;
        while i < pending.len()
            invariant
                self.wf(),
                pending == &self.pending_jobs,
                i <= pending@.len(),
                out@ == spec_ready(self@.jobs, pending@.take(i as int)),
            decreases pending@.len() - i,
        {
            proof {
                let t = pending@.take(i + 1);
                assert(t.drop_last() =~= pending@.take(i as int));
                assert(t.last() == pending@[i as int]);
            }
            let id = pending[i];
            if self.are_dependencies_met(id) {
                out.push(id);
            }
            i += 1;
        }
        proof {
            assert(pending@.take(pending@.len() as int) =~= pending@);
        }
        out
    }

    /// The job stored under `job_id`, if any.
    pub fn jobs(&self, job_id: u64) -> (r: Option<&Job>)
        ensures
            match r {
                Some(j) => self@.jobs.contains_key(job_id) && *j == self@.jobs[job_id],
                None => !self@.jobs.contains_key(job_id),
            },
    {
        self.jobs.get(&job_id)
    }

    /// The id the next submission will receive.
    pub fn next_job_id(&self) -> (r: u64)
        ensures
            r == self@.next_job_id,
    {
        self.next_job_id
    }

    /// The ids of the jobs owned by `who`.
    pub fn account_jobs(&self, who: u64) -> (r: Vec<u64>)
        ensures
            r@ == account_seq(self@, who),
    {
        match self.account_jobs.get(&who) {
            Some(l) => {
                let c = l.clone();
                proof {
                    assert(c@ =~= account_seq(self@, who));
                }
                c
            },
            None => Vec::new(),
        }
    }

    /// The ids currently held in the bucket for `status`.
    pub fn jobs_by_status(&self, status: JobStatus) -> (r: Vec<u64>)
        ensures
            r@ == bucket(self@, status),
    {
        let b = match status {
            JobStatus::Pending => &self.pending_jobs,
            JobStatus::InProgress => &self.in_progress_jobs,
            JobStatus::Completed => &self.completed_jobs,
            JobStatus::Verified => &self.verified_jobs,
            JobStatus::Failed => &self.failed_jobs,
        };
        let c = b.clone();
        proof {
            assert(c@ =~= bucket(self@, status));
        }
        c
    }

    /// Every notification raised so far, oldest first.
    pub fn deposited_events(&self) -> (r: &Vec<Event>)
        ensures
            r@ == self@.events,
    {
        &self.deposited
    }

    /// The configured cap on jobs per account.
    pub fn max_jobs_per_account(&self) -> (r: usize)
        ensures
            r == self@.max_jobs_per_account,
    {
        self.max_jobs_per_account
    }

    /// The configured dependency recursion bound.
    pub fn max_dependency_depth(&self) -> (r: u32)
        ensures
            r == self@.max_dependency_depth,
    {
        self.max_dependency_depth
    }
}


/// Law: job ids strictly increase. An accepted submission returns the
/// counter's current value and raises it by one, every other operation's
/// contract leaves the counter unchanged, and every stored id lies strictly
/// below the counter. So of two submissions accepted in states `s0` and
/// `s1`, where `s1` is reached after the first one — hence with the counter
/// at least one past `s0`'s — the second returns the strictly greater id,
/// and no issued id is ever reused.
pub proof fn lemma_job_ids_strictly_increase(s0: StoreView, s1: StoreView)
    requires
        store_inv(s0),
        store_inv(s1),
        s1.next_job_id >= s0.next_job_id + 1,
    ensures
        s1.next_job_id > s0.next_job_id,
        forall|id: u64| #[trigger] s0.jobs.contains_key(id) ==> id < s1.next_job_id,
        forall|id: u64| #[trigger] s1.jobs.contains_key(id) ==> id < s1.next_job_id,
{
}

/// Law: a job's status only ever moves along the transition table. A
/// permitted transition touches exactly the requested job and changes its
/// status along the table; `update_job_status` refuses everything else with
/// no state change, by its contract.
pub proof fn lemma_status_moves_follow_table(
    s: StoreView,
    job_id: u64,
    new_status: JobStatus,
    now: u64,
)
    requires
        store_inv(s),
        s.jobs.contains_key(job_id),
        valid_transition(s.jobs[job_id].status, new_status),
    ensures
        ({
            let s2 = apply_transition(s, job_id, new_status, now);
            &&& s2.jobs.dom() == s.jobs.dom()
            &&& forall|id: u64|
                #[trigger] s.jobs.contains_key(id) && s2.jobs[id].status != s.jobs[id].status
                    ==> id == job_id && valid_transition(s.jobs[id].status, s2.jobs[id].status)
            &&& s2.jobs[job_id].status == new_status
        }),
{
    let s2 = apply_transition(s, job_id, new_status, now);
    assert(s2.jobs.dom() =~= s.jobs.dom());
}

} // verus!
