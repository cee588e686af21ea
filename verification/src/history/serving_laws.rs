//! What a source or a segment must offer in order to serve, and what follows
//! from an attempt that failed.

use crate::history::acquisition::{
    attempt_decision, first_blocks, plan_serves, source_serves, AttemptDecision,
};
use crate::history::job::{RawHistoryJobSpec, StorageLimitAction};
use crate::history::layout::VerificationClass;
use crate::history::lifecycle::RawHistoryJob;
use crate::history::rows::SegmentRecord;
use crate::history::runner::{AcquireError, RawHistoryRunError, SourceEntry};
use crate::history::source::RetainedHistorySource;
use crate::primitives::{BlockRange, CapabilitySet, TrustModel};
use crate::request::{DataRequest, FinalityModel, SourceBudget, VerificationPolicy};
use vstd::prelude::*;

verus! {

/// Complete material that has every required capability, counting the body and
/// the call data with the transactions and the logs with the receipts.
pub open spec fn has_required(complete: CapabilitySet, required: CapabilitySet) -> bool {
    let from_transactions = if complete.bits & 0x004u16 != 0 {
        complete.bits | 0x002u16 | 0x008u16
    } else {
        complete.bits
    };
    let from_receipts = if complete.bits & 0x010u16 != 0 {
        0x020u16
    } else {
        0u16
    };
    (from_transactions | from_receipts) & required.bits == required.bits
}

/// Trust that is no less than what is asked for.
pub open spec fn is_trusted_enough(trust: TrustModel, asked: TrustModel) -> bool {
    match asked {
        TrustModel::Untrusted => true,
        TrustModel::TrustedManifest => !(trust is Untrusted),
        TrustModel::TrustedDataset => trust is TrustedDataset || trust is ProtocolVerified,
        TrustModel::ProtocolVerified => trust is ProtocolVerified,
    }
}

/// Verification that is no less than what is asked for.
pub open spec fn is_verified_enough(
    verification: VerificationClass,
    asked: VerificationClass,
) -> bool {
    match asked {
        VerificationClass::BestEffort => true,
        VerificationClass::TrustedDataset => !(verification is BestEffort),
        VerificationClass::Cryptographic => verification is Cryptographic,
    }
}

proof fn lemma_required(complete: CapabilitySet, required: CapabilitySet)
    ensures
        complete.derivable().has_all(required) <==> has_required(complete, required),
{
    let bits = complete.bits;
    assert((bits | 0x002u16 | 0x008u16) | 0u16 == (bits | 0x002u16 | 0x008u16) && bits | 0u16
        == bits) by (bit_vector);
}

/// A source serves a job if and only if it is of the job's chain, tells only
/// what is final, has every capability that the job requires, and is trusted
/// no less than the job asks.
pub proof fn law_sources_serve_what_they_can_give(source: SourceEntry, asked: RawHistoryJobSpec)
    ensures
        source_serves(source, asked) <==> {
            &&& source.chain_id == asked.chain_id
            &&& source.finality == FinalityModel::Finalized
            &&& has_required(source.complete_capabilities, asked.required_capabilities)
            &&& is_trusted_enough(source.trust, asked.minimum_trust)
        },
{
    lemma_required(source.complete_capabilities, asked.required_capabilities);
}

/// A plan gives a job all that it needs if and only if it has every capability
/// that the job requires and is trusted no less than the job asks.
pub proof fn law_plans_serve_what_they_can_give(
    complete: CapabilitySet,
    trust: TrustModel,
    asked: RawHistoryJobSpec,
)
    ensures
        plan_serves(complete, trust, asked) <==> has_required(
            complete,
            asked.required_capabilities,
        ) && is_trusted_enough(trust, asked.minimum_trust),
{
    lemma_required(complete, asked.required_capabilities);
}

/// A retained segment serves a request if and only if it is of the request's
/// chain and of the source's shape and profile, shares a height with the
/// request, has every capability that it requires, and is verified and trusted
/// no less than both the request's policy and the source's own settings ask.
pub proof fn law_retained_segments_serve_requests(
    source: RetainedHistorySource,
    record: SegmentRecord,
    request: DataRequest,
)
    ensures
        source.compatible(record, request) <==> {
            let segment = record.metadata.descriptor;
            &&& segment.chain_id == request.chain_id
            &&& segment.material_shape == source.config.material_shape
            &&& source.config.required_profile is ProcessorReuse || record.profile
                == source.config.required_profile
            &&& segment.range.start.0 <= request.range.end.0
            &&& request.range.start.0 <= segment.range.end.0
            &&& has_required(segment.complete_capabilities, request.required)
            &&& is_verified_enough(segment.verification, source.config.verification)
            &&& is_trusted_enough(segment.trust, source.config.trust)
            &&& match request.verification_policy {
                VerificationPolicy::BestEffort => true,
                VerificationPolicy::TrustedDataset => !(segment.verification is BestEffort) && (
                segment.trust is TrustedDataset || segment.trust is ProtocolVerified),
                VerificationPolicy::CompleteCryptographic => segment.verification is Cryptographic
                    && segment.trust is ProtocolVerified,
            }
        },
{
    lemma_required(record.metadata.descriptor.complete_capabilities, request.required);
}

/// A lookup reads a segment if and only if it is of the source's chain, shape
/// and profile, has the required capabilities, and is verified and trusted no
/// less than the source's settings ask.
pub proof fn law_lookups_read_what_serves(
    source: RetainedHistorySource,
    record: SegmentRecord,
    required: CapabilitySet,
)
    ensures
        source.lookup_serves(record, required) <==> {
            let segment = record.metadata.descriptor;
            &&& segment.chain_id == source.config.chain_id
            &&& segment.material_shape == source.config.material_shape
            &&& source.config.required_profile is ProcessorReuse || record.profile
                == source.config.required_profile
            &&& has_required(segment.complete_capabilities, required)
            &&& is_verified_enough(segment.verification, source.config.verification)
            &&& is_trusted_enough(segment.trust, source.config.trust)
        },
{
    lemma_required(record.metadata.descriptor.complete_capabilities, required);
}

/// After a failed attempt there is another try only if the segment came out
/// too large, and then with half of its blocks, rounded up. One block that is
/// too large fails the job. Storage pressure stops a job that asks to pause
/// and fails any other, sources that may come back leave it to be resumed, and
/// every other error fails it.
pub proof fn law_failed_attempts_decide(
    error: AcquireError,
    range: BlockRange,
    blocks: u64,
    on_limit: StorageLimitAction,
)
    ensures
        ({
            let decision = attempt_decision(error, range, blocks, on_limit);
            let pressure = error is Store && (error->Store_0 is LogicalBudget || error->Store_0
                is PhysicalBudget);
            &&& decision is Retry <==> error is Resize && blocks > 1
            &&& decision matches AttemptDecision::Retry { blocks: fewer } ==> blocks <= 2 * fewer
                <= blocks + 1
            &&& decision is Interrupted <==> error is Interrupted
            &&& decision is Backpressure <==> pressure && on_limit == StorageLimitAction::Pause
            &&& decision is Return <==> error is Sources && error->retryable
            &&& decision matches AttemptDecision::Return(told) ==> (
            told matches RawHistoryRunError::SourcesUnavailable { range: at, reasons } && at
                == range && reasons == error->reasons)
            &&& decision matches AttemptDecision::Fail(
                RawHistoryRunError::NoCompatibleSource { range: at, reasons },
            ) ==> error is Sources && at == range && reasons == error->reasons
            &&& error is Store && !(decision is Backpressure) ==> decision
                == AttemptDecision::Fail(RawHistoryRunError::Store(error->Store_0))
        }),
{
}

/// The next segment takes as many blocks as are left, as the job aims for and
/// as the budget allows, whichever is least, but never stops at none.
pub proof fn law_next_segments_take_what_fits(job: RawHistoryJob, budget: SourceBudget)
    requires
        job.remaining_ranges@.len() > 0,
        job.remaining_ranges@[0].start.0 <= job.remaining_ranges@[0].end.0,
    ensures
        ({
            let next = job.remaining_ranges@[0];
            let target = job.spec.segment.target_blocks;
            let blocks = first_blocks(job, budget);
            &&& 1 <= blocks <= next.end.0 - next.start.0 + 1
            &&& blocks > 1 ==> blocks <= target && blocks <= budget.max_frames
            &&& blocks == target || blocks == budget.max_frames || blocks == 1 || blocks
                == next.end.0 - next.start.0 + 1 || blocks == u64::MAX
            &&& blocks < next.end.0 - next.start.0 + 1 && blocks < target ==> blocks
                >= budget.max_frames
        }),
{
}

} // verus!
