//! Which segments a job may hold.

use crate::history::catalog::{
    first_closed, first_job, owned_by, HistoryStore, SegmentOwner, SegmentOwnerClaim,
};
use crate::history::deletion_laws::lemma_first_closed;
use crate::history::error::{HistoryStoreError, JobProblem};
use crate::history::job::{is_job_id, normal_list, RawHistoryJobSpec, RawHistoryProfile};
use crate::history::layout::{SegmentDescriptor, SegmentId, VerificationClass};
use crate::history::ownership::{lemma_first_job, material_serves, segment_serves};
use crate::history::pending::PendingSegment;
use crate::history::publish::{CommitFailure, PublishedSegment};
use crate::history::rows::{SegmentOwnerKind, SegmentRecord};
use crate::history::store_jobs::claim_outcome;
use crate::order::{has_key, Keyed};
use crate::primitives::TrustModel;
use vstd::prelude::*;

verus! {

/// Material that is all that a job asks for: of its chain and shape, with
/// every capability that it requires, counting the body and the call data
/// with complete transactions and the logs with complete receipts, verified
/// and trusted no less than it asks, and with a block in one of its ranges.
pub open spec fn is_enough(descriptor: SegmentDescriptor, asked: RawHistoryJobSpec) -> bool {
    let complete = descriptor.complete_capabilities.bits;
    let carried = (if complete & 0x004u16 != 0 {
        complete | 0x002u16 | 0x008u16
    } else {
        complete
    }) | (if complete & 0x010u16 != 0 {
        0x020u16
    } else {
        0u16
    });
    &&& descriptor.chain_id == asked.chain_id
    &&& descriptor.material_shape == asked.material.spec_shape_id()
    &&& carried & asked.required_capabilities.bits == asked.required_capabilities.bits
    &&& match asked.verification {
        VerificationClass::BestEffort => true,
        VerificationClass::TrustedDataset => !(descriptor.verification is BestEffort),
        VerificationClass::Cryptographic => descriptor.verification is Cryptographic,
    }
    &&& match asked.minimum_trust {
        TrustModel::Untrusted => true,
        TrustModel::TrustedManifest => !(descriptor.trust is Untrusted),
        TrustModel::TrustedDataset => descriptor.trust is TrustedDataset
            || descriptor.trust is ProtocolVerified,
        TrustModel::ProtocolVerified => descriptor.trust is ProtocolVerified,
    }
    &&& exists|i: int|
        0 <= i < asked.ranges@.len() && !(descriptor.range.end.0 < (
        #[trigger] asked.ranges@[i]).start.0 || asked.ranges@[i].end.0 < descriptor.range.start.0)
}

/// A retained segment that is all that a job asks for: its material is, it was
/// certified for the job's profile if the job has one, and it has the locators
/// that the job asks for.
pub open spec fn record_is_enough(record: SegmentRecord, asked: RawHistoryJobSpec) -> bool {
    &&& is_enough(record.metadata.descriptor, asked)
    &&& asked.profile matches RawHistoryProfile::PostMergeExecutionRpc { merge_block }
        ==> record.profile == (RawHistoryProfile::PostMergeExecutionRpc { merge_block })
    &&& asked.indexes.block_hash ==> record.indexes.block_hash
    &&& asked.indexes.transaction_hash ==> record.indexes.transaction_hash
    &&& asked.indexes.logs ==> record.indexes.logs
}

/// Some row gives the job a hold on the segment.
pub open spec fn is_job_held(owners: Seq<SegmentOwner>, segment: Seq<char>, job: Seq<char>) -> bool {
    exists|k: int|
        0 <= k < owners.len() && (#[trigger] owners[k]).segment_id@ == segment
            && owners[k].kind is RawHistoryJob && owners[k].owner_id@ == job
}

proof fn lemma_job_held(owners: Seq<SegmentOwner>, segment: Seq<char>, job: Seq<char>)
    ensures
        owned_by(owners, segment, SegmentOwnerKind::RawHistoryJob, job) <==> is_job_held(
            owners,
            segment,
            job,
        ),
{
    if owned_by(owners, segment, SegmentOwnerKind::RawHistoryJob, job) {
        let k = choose|k: int|
            0 <= k < owners.len() && (#[trigger] owners[k]).holds(
                segment,
                SegmentOwnerKind::RawHistoryJob,
                job,
            );
        assert(owners[k].segment_id@ == segment);
    }
    if is_job_held(owners, segment, job) {
        let k = choose|k: int|
            0 <= k < owners.len() && (#[trigger] owners[k]).segment_id@ == segment
                && owners[k].kind is RawHistoryJob && owners[k].owner_id@ == job;
        assert(owners[k].holds(segment, SegmentOwnerKind::RawHistoryJob, job));
    }
}

proof fn lemma_enough(descriptor: SegmentDescriptor, asked: RawHistoryJobSpec)
    ensures
        material_serves(descriptor, asked) <==> is_enough(descriptor, asked),
{
    let bits = descriptor.complete_capabilities.bits;
    assert((bits | 0x002u16 | 0x008u16) | 0u16 == (bits | 0x002u16 | 0x008u16) && bits | 0u16
        == bits) by (bit_vector);
}

/// After a claim the rows from before stand as they were. Every row that was
/// added is a hold of the job on a readable segment that is all that the job
/// asks for. A segment that is less is held by the job only if it was before.
/// If nothing failed, the job holds every readable segment that is enough, and
/// the answer is how many were added.
pub proof fn law_claims_take_exactly_what_is_enough(
    before: HistoryStore,
    after: HistoryStore,
    at: int,
    job: Seq<char>,
    now: u64,
    outcome: Result<u64, HistoryStoreError>,
)
    requires
        before.consistent(),
        claim_outcome(before, after, at, job, now, outcome),
    ensures
        after.segments@ == before.segments@,
        before.owners@.len() <= after.owners@.len(),
        forall|i: int|
            0 <= i < before.owners@.len() ==> after.owners@[i] == #[trigger] before.owners@[i],
        forall|i: int|
            before.owners@.len() <= i < after.owners@.len() ==> {
                &&& (#[trigger] after.owners@[i]).kind is RawHistoryJob
                &&& after.owners@[i].owner_id@ == job
                &&& exists|j: int|
                    0 <= j < before.segments@.len() && !(#[trigger] before.segments@[j]).deleting
                        && before.segments@[j].record.metadata.id@ == after.owners@[i].segment_id@
                        && record_is_enough(before.segments@[j].record, before.jobs@[at].spec)
            },
        forall|j: int|
            0 <= j < before.segments@.len() && !record_is_enough(
                (#[trigger] before.segments@[j]).record,
                before.jobs@[at].spec,
            ) && is_job_held(after.owners@, before.segments@[j].record.metadata.id@, job)
                ==> is_job_held(before.owners@, before.segments@[j].record.metadata.id@, job),
        outcome matches Ok(count) ==> {
            &&& count == after.owners@.len() - before.owners@.len()
            &&& forall|j: int|
                0 <= j < before.segments@.len() && !(#[trigger] before.segments@[j]).deleting
                    && record_is_enough(before.segments@[j].record, before.jobs@[at].spec)
                    ==> is_job_held(after.owners@, before.segments@[j].record.metadata.id@, job)
        },
{
    let asked = before.jobs@[at].spec;
    let held = before.owners@.len() as int;
    assert forall|j: int| 0 <= j < before.segments@.len() implies record_is_enough(
        (#[trigger] before.segments@[j]).record,
        asked,
    ) == segment_serves(before.segments@[j].record, asked) by {
        lemma_enough(before.segments@[j].record.metadata.descriptor, asked);
    }
    assert forall|i: int| 0 <= i < held implies after.owners@[i] == (
    #[trigger] before.owners@[i]) by {
        assert(after.owners@.take(held)[i] == after.owners@[i]);
    }
    assert forall|i: int| held <= i < after.owners@.len() implies {
        &&& (#[trigger] after.owners@[i]).kind is RawHistoryJob
        &&& after.owners@[i].owner_id@ == job
        &&& exists|j: int|
            0 <= j < before.segments@.len() && !(#[trigger] before.segments@[j]).deleting
                && before.segments@[j].record.metadata.id@ == after.owners@[i].segment_id@
                && record_is_enough(before.segments@[j].record, asked)
    } by {
        let name = after.owners@[i].segment_id@;
        let j = choose|j: int|
            0 <= j < before.segments@.len() && (#[trigger] before.segments@[j]).is_closed(name)
                && segment_serves(before.segments@[j].record, asked);
        assert(!before.segments@[j].deleting);
    }
    assert forall|j: int|
        0 <= j < before.segments@.len() && !record_is_enough(
            (#[trigger] before.segments@[j]).record,
            asked,
        ) && is_job_held(after.owners@, before.segments@[j].record.metadata.id@, job) implies
        is_job_held(before.owners@, before.segments@[j].record.metadata.id@, job) by {
        let name = before.segments@[j].record.metadata.id@;
        let k = choose|k: int|
            0 <= k < after.owners@.len() && (#[trigger] after.owners@[k]).segment_id@ == name
                && after.owners@[k].kind is RawHistoryJob && after.owners@[k].owner_id@ == job;
        if k < held {
            assert(after.owners@[k] == before.owners@[k]);
        } else {
            let other = choose|other: int|
                0 <= other < before.segments@.len() && !(
                #[trigger] before.segments@[other]).deleting
                    && before.segments@[other].record.metadata.id@ == after.owners@[k].segment_id@
                    && record_is_enough(before.segments@[other].record, asked);
            assert(before.segments@[other].record.metadata.id@ == name);
            assert(other == j);
        }
    }
    if outcome is Ok {
        assert forall|j: int|
            0 <= j < before.segments@.len() && !(#[trigger] before.segments@[j]).deleting
                && record_is_enough(before.segments@[j].record, asked) implies is_job_held(
            after.owners@,
            before.segments@[j].record.metadata.id@,
            job,
        ) by {
            lemma_job_held(after.owners@, before.segments@[j].record.metadata.id@, job);
        }
    }
}

/// The claim of a known job on material is granted exactly when the job has
/// not ended and the material is all that it asks for, and is refused as
/// incompatible otherwise.
pub proof fn law_jobs_claim_only_what_is_enough(
    store: HistoryStore,
    claim: SegmentOwnerClaim,
    descriptor: SegmentDescriptor,
    at: int,
)
    requires
        store.consistent(),
        claim.kind is RawHistoryJob,
        is_job_id(claim.owner_id@),
        0 <= at < store.jobs@.len(),
        store.jobs@[at].id@ == claim.owner_id@,
    ensures
        store.claim_problem(claim, descriptor) == (if !(store.jobs@[at].state is Complete
            || store.jobs@[at].state is Cancelled || store.jobs@[at].state is Failed) && is_enough(
            descriptor,
            store.jobs@[at].spec,
        ) {
            None::<HistoryStoreError>
        } else {
            Some(HistoryStoreError::InvalidJob(JobProblem::Incompatible(claim.owner_id)))
        }),
{
    lemma_first_job(store.jobs@, claim.owner_id@, 0);
    let found = first_job(store.jobs@, claim.owner_id@, 0)->0;
    assert(store.jobs@[found].id@ == store.jobs@[at].id@);
    assert(found == at);
    lemma_enough(descriptor, store.jobs@[at].spec);
}

/// A hold that was granted to a job is on a readable segment that is all that
/// the job asks for, and the job is one that has not ended.
pub proof fn law_granted_holds_are_enough(
    before: HistoryStore,
    after: HistoryStore,
    id: SegmentId,
    owner_id: String,
    now: u64,
)
    requires
        before.consistent(),
        before.hold_accepted(after, id, SegmentOwnerKind::RawHistoryJob, owner_id, now),
    ensures
        exists|i: int, at: int|
            #![trigger before.segments@[i], before.jobs@[at]]
            {
                &&& 0 <= i < before.segments@.len()
                &&& !before.segments@[i].deleting
                &&& before.segments@[i].record.metadata.id@ == id@
                &&& 0 <= at < before.jobs@.len()
                &&& before.jobs@[at].id@ == owner_id@
                &&& !(before.jobs@[at].state is Complete || before.jobs@[at].state is Cancelled
                    || before.jobs@[at].state is Failed)
                &&& is_enough(
                    before.segments@[i].record.metadata.descriptor,
                    before.jobs@[at].spec,
                )
            },
        is_job_held(after.owners@, id@, owner_id@),
{
    lemma_first_closed(before.segments@, id@, 0);
    lemma_first_job(before.jobs@, owner_id@, 0);
    let i = first_closed(before.segments@, id@, 0)->0;
    let at = first_job(before.jobs@, owner_id@, 0)->0;
    lemma_enough(before.segments@[i].record.metadata.descriptor, before.jobs@[at].spec);
    assert(!before.segments@[i].deleting && before.jobs@[at].id@ == owner_id@);
    lemma_job_held(before.owners@, id@, owner_id@);
    lemma_job_held(after.owners@, id@, owner_id@);
    if owned_by(before.owners@, id@, SegmentOwnerKind::RawHistoryJob, owner_id@) {
    } else {
        assert(after.owners@[after.owners@.len() - 1].holds(
            id@,
            SegmentOwnerKind::RawHistoryJob,
            owner_id@,
        ));
    }
}

proof fn lemma_no_claim_problem(
    store: HistoryStore,
    claims: Seq<SegmentOwnerClaim>,
    descriptor: SegmentDescriptor,
    from: int,
    at: int,
)
    requires
        0 <= from <= at < claims.len(),
        store.first_claim_problem(claims, descriptor, from) is None,
    ensures
        store.claim_problem(claims[at], descriptor) is None,
    decreases claims.len() - from,
{
    if from < at {
        lemma_no_claim_problem(store, claims, descriptor, from + 1, at);
    }
}

/// A segment is committed for jobs only that have not ended and that ask for
/// no more than its material is.
pub proof fn law_commits_serve_the_jobs_that_claim_them(
    pending: PendingSegment,
    before: HistoryStore,
    after: HistoryStore,
    owners: Seq<SegmentOwnerClaim>,
    index: Seq<u8>,
    now: u64,
    outcome: Result<PublishedSegment, CommitFailure>,
    k: int,
    at: int,
)
    requires
        before.consistent(),
        pending.commit_answers(before, after, owners, index, now, outcome),
        outcome is Ok,
        0 <= k < owners.len(),
        owners[k].kind is RawHistoryJob,
        0 <= at < before.jobs@.len(),
        before.jobs@[at].id@ == owners[k].owner_id@,
    ensures
        !(before.jobs@[at].state is Complete || before.jobs@[at].state is Cancelled
            || before.jobs@[at].state is Failed),
        is_enough(pending.writer@.descriptor, before.jobs@[at].spec),
{
    let claims = choose|claims: Seq<SegmentOwnerClaim>|
        #[trigger] normal_list(owners, claims) && pending.publish_problem(before, claims, index, now)
            is None;
    assert(has_key(owners, owners[k].key()));
    assert(has_key(claims, owners[k].key()));
    let c = choose|c: int| 0 <= c < claims.len() && #[trigger] claims[c].key() == owners[k].key();
    lemma_no_claim_problem(before, claims, pending.writer@.descriptor, 0, c);
    crate::history::publish_laws::lemma_claim_key(claims[c], owners[k]);
    if is_job_id(claims[c].owner_id@) {
        law_jobs_claim_only_what_is_enough(before, claims[c], pending.writer@.descriptor, at);
    }
}

} // verus!
