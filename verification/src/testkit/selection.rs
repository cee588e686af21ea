//! Whether a source can serve a request.

use crate::history::job::trust_of;
use crate::history::source::{class_of_policy, minimum_trust_for_policy};
use crate::primitives::TrustModel;
use crate::request::{DataRequest, SourceDescriptor, SourceError};
use vstd::prelude::*;

verus! {

/// What a selection asks of a source.
#[derive(Clone, Copy, Debug)]
pub struct SelectionPolicy {
    pub minimum_trust: TrustModel,
    pub prefer_complete: bool,
}

/// Why a source is not selected, if it is not: it serves another chain, is
/// trusted too little, or lacks a capability.
pub open spec fn selection_problem(
    descriptor: SourceDescriptor,
    request: DataRequest,
    policy: SelectionPolicy,
) -> Option<&'static str> {
    if descriptor.chain_id != request.chain_id {
        Some("source serves another chain")
    } else if descriptor.trust.spec_rank() < policy.minimum_trust.spec_rank() {
        Some("source is not trusted enough")
    } else if !descriptor.capabilities.has_all(request.required) || (policy.prefer_complete
        && !descriptor.complete_capabilities.has_all(request.required)) {
        Some("source lacks a required capability")
    } else {
        None
    }
}

/// The policy that a request selects by.
pub open spec fn policy_of(request: DataRequest) -> SelectionPolicy {
    SelectionPolicy {
        minimum_trust: trust_of(class_of_policy(request.verification_policy)),
        prefer_complete: !request.allow_filtered,
    }
}

/// Refuses a source that cannot serve a request.
pub fn select_source(descriptor: &SourceDescriptor, request: &DataRequest) -> (outcome: Result<
    (),
    SourceError,
>)
    ensures
        outcome == (match selection_problem(*descriptor, *request, policy_of(*request)) {
            Some(problem) => Err::<(), SourceError>(SourceError::InvalidPlan(problem)),
            None => Ok(()),
        }),
{
    let minimum_trust = minimum_trust_for_policy(request.verification_policy);
    if descriptor.chain_id != request.chain_id {
        return Err(SourceError::InvalidPlan("source serves another chain"));
    }
    if descriptor.trust.rank() < minimum_trust.rank() {
        return Err(SourceError::InvalidPlan("source is not trusted enough"));
    }
    if !descriptor.capabilities.contains_all(request.required) || (!request.allow_filtered
        && !descriptor.complete_capabilities.contains_all(request.required)) {
        return Err(SourceError::InvalidPlan("source lacks a required capability"));
    }
    Ok(())
}

} // verus!
