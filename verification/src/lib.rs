//! Orchestration core for dependency-aware computational jobs.
//!
//! Three coupled components share one job transition table and one
//! consistency model:
//!
//! - [`registry::JobStore`] owns the job dependency graph and the
//!   status-indexed lookup;
//! - [`job_verifier::VerificationGate`] owns per-job proof submissions and
//!   verification outcomes, and moves verified jobs forward in the store;
//! - [`event_hub::EventTriggerHub`] owns events and trigger rules, and fires
//!   job transitions when events are processed.
//!
//! Every operation is synchronous and atomic: it either completes, with all
//! cross-indexes updated together, or returns an error and changes nothing.
//! Callers supply the current block height; the components keep no clock of
//! their own.

pub mod common;
pub mod event_hub;
pub mod hashing;
pub mod job_verifier;
pub mod registry;

pub use registry::JobStatus;

use vstd::prelude::*;

verus! {

/// Deployment identity handed in by the embedding node: the name of the
/// relay network this deployment follows, and its own numeric chain id.
/// The core keeps no such state itself; callers thread the record through to
/// collaborators that need it.
pub struct Extensions {
    /// The relay network followed.
    pub relay_chain: String,
    /// This chain's id.
    pub para_id: u32,
}

impl Extensions {
    /// Bundles a relay network name with a chain id.
    pub fn new(relay_chain: String, para_id: u32) -> (r: Extensions)
        ensures
            r.relay_chain@ == relay_chain@,
            r.para_id == para_id,
    {
        Extensions { relay_chain, para_id }
    }
}

} // verus!
