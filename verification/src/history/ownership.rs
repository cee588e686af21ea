//! Who holds which segment, and what that means for raw-history jobs.

use crate::history::catalog::{
    first_closed, first_job, first_reserved, first_segment, owned_by, owner_count, HistoryStore,
    ReservedSegment, SegmentOwner, SegmentOwnerClaim, StoredSegment,
};
use crate::history::error::{HistoryStoreError, JobProblem};
use crate::history::job::{is_job_id, RawHistoryJobId, RawHistoryJobSpec};
use crate::history::layout::{SegmentDescriptor, SegmentId};
use crate::history::lifecycle::{is_progress, JobProgress, OwnedSegment, RawHistoryJob};
use crate::history::rows::{SegmentOwnerKind, SegmentRecord};
use crate::primitives::BlockRange;
use crate::text::same_text;
use vstd::prelude::*;

verus! {

/// What the first index of a name is.
pub proof fn lemma_first_segment(segments: Seq<StoredSegment>, id: Seq<char>, from: int)
    requires
        0 <= from,
    ensures
        match first_segment(segments, id, from) {
            Some(at) => {
                &&& from <= at < segments.len()
                &&& segments[at].record.metadata.id@ == id
                &&& forall|j: int|
                    from <= j < at ==> (#[trigger] segments[j]).record.metadata.id@ != id
            },
            None => forall|j: int|
                from <= j < segments.len() ==> (#[trigger] segments[j]).record.metadata.id@ != id,
        },
    decreases segments.len() - from,
{
    if from < segments.len() && segments[from].record.metadata.id@ != id {
        lemma_first_segment(segments, id, from + 1);
    }
}

/// What the first index of a job is.
pub proof fn lemma_first_job(jobs: Seq<RawHistoryJob>, id: Seq<char>, from: int)
    requires
        0 <= from,
    ensures
        match first_job(jobs, id, from) {
            Some(at) => {
                &&& from <= at < jobs.len()
                &&& jobs[at].id@ == id
                &&& forall|j: int| from <= j < at ==> (#[trigger] jobs[j]).id@ != id
            },
            None => forall|j: int| from <= j < jobs.len() ==> (#[trigger] jobs[j]).id@ != id,
        },
    decreases jobs.len() - from,
{
    if from < jobs.len() && jobs[from].id@ != id {
        lemma_first_job(jobs, id, from + 1);
    }
}

/// What the first index of a reservation is.
pub proof fn lemma_first_reserved(reservations: Seq<ReservedSegment>, id: Seq<char>, from: int)
    requires
        0 <= from,
    ensures
        match first_reserved(reservations, id, from) {
            Some(at) => {
                &&& from <= at < reservations.len()
                &&& reservations[at].id@ == id
                &&& forall|j: int| from <= j < at ==> (#[trigger] reservations[j]).id@ != id
            },
            None => forall|j: int|
                from <= j < reservations.len() ==> (#[trigger] reservations[j]).id@ != id,
        },
    decreases reservations.len() - from,
{
    if from < reservations.len() && reservations[from].id@ != id {
        lemma_first_reserved(reservations, id, from + 1);
    }
}

/// The readable segments among the first `count` that a job owns.
pub open spec fn owned_segments(
    segments: Seq<StoredSegment>,
    owners: Seq<SegmentOwner>,
    job: Seq<char>,
    count: int,
) -> Seq<OwnedSegment>
    decreases count,
{
    if count <= 0 {
        Seq::empty()
    } else {
        let before = owned_segments(segments, owners, job, count - 1);
        let metadata = segments[count - 1].record.metadata;
        if !segments[count - 1].deleting && owned_by(
            owners,
            metadata.id@,
            SegmentOwnerKind::RawHistoryJob,
            job,
        ) {
            before.push(
                OwnedSegment {
                    range: metadata.descriptor.range,
                    logical_bytes: metadata.logical_bytes,
                    physical_bytes: metadata.physical_bytes,
                },
            )
        } else {
            before
        }
    }
}

/// All readable segments that a job owns.
pub open spec fn all_owned(
    segments: Seq<StoredSegment>,
    owners: Seq<SegmentOwner>,
    job: Seq<char>,
) -> Seq<OwnedSegment> {
    owned_segments(segments, owners, job, segments.len() as int)
}

/// The job after the segments that it owns have been counted.
pub open spec fn job_advanced(
    before: RawHistoryJob,
    after: RawHistoryJob,
    owned: Seq<OwnedSegment>,
    now: u64,
) -> bool {
    let recorded = JobProgress {
        state: after.state,
        committed_segments: after.committed_segments,
        committed_logical_bytes: after.committed_logical_bytes,
        committed_physical_bytes: after.committed_physical_bytes,
        remaining_ranges: after.remaining_ranges,
    };
    is_progress(before.spec.ranges@, before.state, owned, recorded) && after == before.reconciled(
        recorded,
        now,
    )
}

/// Some requested range shares a height with `range`.
pub open spec fn overlaps_any(requested: Seq<BlockRange>, range: BlockRange) -> bool {
    exists|i: int|
        0 <= i < requested.len() && (#[trigger] requested[i]).start.0 <= range.end.0
            && range.start.0 <= requested[i].end.0
}

/// Material that a request can use: of its chain and shape, complete enough,
/// verified and trusted enough, and within its ranges.
pub open spec fn material_serves(
    descriptor: SegmentDescriptor,
    request: RawHistoryJobSpec,
) -> bool {
    &&& descriptor.chain_id == request.chain_id
    &&& descriptor.material_shape == request.material.spec_shape_id()
    &&& descriptor.complete_capabilities.derivable().has_all(request.required_capabilities)
    &&& descriptor.verification.spec_rank() >= request.verification.spec_rank()
    &&& descriptor.trust.spec_rank() >= request.minimum_trust.spec_rank()
    &&& overlaps_any(request.ranges@, descriptor.range)
}

/// A retained segment that a request can use: its material serves, and so do
/// its profile and its locators.
pub open spec fn segment_serves(record: SegmentRecord, request: RawHistoryJobSpec) -> bool {
    &&& material_serves(record.metadata.descriptor, request)
    &&& record.profile.serves(request.profile)
    &&& record.indexes.has_all(request.indexes)
}

fn overlapping(requested: &Vec<BlockRange>, range: BlockRange) -> (found: bool)
    ensures
        found == overlaps_any(requested@, range),
{
    let mut index: usize = 0;
    while index < requested.len()
        invariant
            index <= requested@.len(),
            forall|i: int|
                0 <= i < index ==> !((#[trigger] requested@[i]).start.0 <= range.end.0
                    && range.start.0 <= requested@[i].end.0),
        decreases requested@.len() - index,
    {
        if requested[index].start.0 <= range.end.0 && range.start.0 <= requested[index].end.0 {
            return true;
        }
        index += 1;
    }
    false
}

/// Whether material can be used for a request.
pub fn material_is_compatible(descriptor: &SegmentDescriptor, request: &RawHistoryJobSpec) -> (
    serves: bool)
    ensures
        serves == material_serves(*descriptor, *request),
{
    descriptor.chain_id == request.chain_id && descriptor.material_shape
        == request.material.shape_id()
        && descriptor.complete_capabilities.with_derivable().contains_all(
        request.required_capabilities,
    ) && descriptor.verification.rank() >= request.verification.rank() && descriptor.trust.rank()
        >= request.minimum_trust.rank() && overlapping(&request.ranges, descriptor.range)
}

/// Whether a retained segment can be used for a request.
pub fn segment_is_compatible(record: &SegmentRecord, request: &RawHistoryJobSpec) -> (serves: bool)
    ensures
        serves == segment_serves(*record, *request),
{
    material_is_compatible(&record.metadata.descriptor, request) && record.profile.satisfies(
        request.profile,
    ) && record.indexes.contains(request.indexes)
}

impl HistoryStore {
    pub(crate) fn find_closed(&self, id: &SegmentId) -> (at: Option<usize>)
        ensures
            match at {
                Some(at) => first_closed(self.segments@, id@, 0) == Some(at as int) && at
                    < self.segments@.len() && self.segments@[at as int].is_closed(id@),
                None => first_closed(self.segments@, id@, 0) is None,
            },
    {
        let mut index: usize = 0;
        while index < self.segments.len()
            invariant
                index <= self.segments@.len(),
                first_closed(self.segments@, id@, 0) == first_closed(
                    self.segments@,
                    id@,
                    index as int,
                ),
            decreases self.segments@.len() - index,
        {
            if !self.segments[index].deleting && self.segments[index].record.metadata.id.same(id) {
                return Some(index);
            }
            index += 1;
        }
        None
    }

    pub(crate) fn find_segment(&self, id: &SegmentId) -> (at: Option<usize>)
        ensures
            match at {
                Some(at) => first_segment(self.segments@, id@, 0) == Some(at as int) && at
                    < self.segments@.len(),
                None => first_segment(self.segments@, id@, 0) is None,
            },
    {
        let mut index: usize = 0;
        while index < self.segments.len()
            invariant
                index <= self.segments@.len(),
                first_segment(self.segments@, id@, 0) == first_segment(
                    self.segments@,
                    id@,
                    index as int,
                ),
            decreases self.segments@.len() - index,
        {
            if self.segments[index].record.metadata.id.same(id) {
                return Some(index);
            }
            index += 1;
        }
        None
    }

    pub(crate) fn find_reserved(&self, id: &SegmentId) -> (at: Option<usize>)
        ensures
            match at {
                Some(at) => first_reserved(self.reservations@, id@, 0) == Some(at as int) && at
                    < self.reservations@.len(),
                None => first_reserved(self.reservations@, id@, 0) is None,
            },
    {
        let mut index: usize = 0;
        while index < self.reservations.len()
            invariant
                index <= self.reservations@.len(),
                first_reserved(self.reservations@, id@, 0) == first_reserved(
                    self.reservations@,
                    id@,
                    index as int,
                ),
            decreases self.reservations@.len() - index,
        {
            if self.reservations[index].id.same(id) {
                return Some(index);
            }
            index += 1;
        }
        None
    }

    pub(crate) fn find_job(&self, id: &str) -> (at: Option<usize>)
        ensures
            match at {
                Some(at) => first_job(self.jobs@, id@, 0) == Some(at as int) && at
                    < self.jobs@.len() && self.jobs@[at as int].id@ == id@,
                None => first_job(self.jobs@, id@, 0) is None,
            },
    {
        let mut index: usize = 0;
        while index < self.jobs.len()
            invariant
                index <= self.jobs@.len(),
                first_job(self.jobs@, id@, 0) == first_job(self.jobs@, id@, index as int),
            decreases self.jobs@.len() - index,
        {
            if same_text(self.jobs[index].id.as_str(), id) {
                return Some(index);
            }
            index += 1;
        }
        None
    }

    /// One readable segment.
    pub fn segment(&self, id: &SegmentId) -> (record: Option<&SegmentRecord>)
        ensures
            match record {
                Some(record) => match first_closed(self.segments@, id@, 0) {
                    Some(at) => *record == self.segments@[at].record && record.metadata.id@ == id@,
                    None => false,
                },
                None => first_closed(self.segments@, id@, 0) is None,
            },
    {
        match self.find_closed(id) {
            Some(at) => Some(&self.segments[at].record),
            None => None,
        }
    }

    /// Whether an owner holds a segment.
    pub fn is_owner(&self, segment: &SegmentId, kind: SegmentOwnerKind, owner: &str) -> (found:
        bool)
        ensures
            found == owned_by(self.owners@, segment@, kind, owner@),
    {
        let mut index: usize = 0;
        while index < self.owners.len()
            invariant
                index <= self.owners@.len(),
                forall|i: int|
                    0 <= i < index ==> !(#[trigger] self.owners@[i]).holds(segment@, kind, owner@),
            decreases self.owners@.len() - index,
        {
            if self.owners[index].kind == kind && self.owners[index].segment_id.same(segment)
                && same_text(self.owners[index].owner_id.as_str(), owner) {
                assert(self.owners@[index as int].holds(segment@, kind, owner@));
                return true;
            }
            index += 1;
        }
        false
    }

    /// How many owners hold a segment.
    pub fn count_owners(&self, segment: &SegmentId) -> (count: u64)
        ensures
            count == owner_count(self.owners@, segment@),
    {
        let mut count: u64 = 0;
        let mut index: usize = 0;
        proof {
            assert(self.owners@.take(0) =~= Seq::<SegmentOwner>::empty());
        }
        while index < self.owners.len()
            invariant
                index <= self.owners.len(),
                count <= index,
                count == owner_count(self.owners@.take(index as int), segment@),
            decreases self.owners@.len() - index,
        {
            proof {
                let longer = self.owners@.take(index + 1);
                assert(longer.drop_last() =~= self.owners@.take(index as int));
                assert(longer.last() == self.owners@[index as int]);
            }
            if self.owners[index].segment_id.same(segment) {
                count += 1;
            }
            index += 1;
        }
        assert(self.owners@.take(index as int) =~= self.owners@);
        count
    }

    pub(crate) fn collect_owned(&self, job: &str) -> (owned: Vec<OwnedSegment>)
        requires
            self.wf_segments(),
        ensures
            owned@ == all_owned(self.segments@, self.owners@, job@),
            forall|i: int| 0 <= i < owned@.len() ==> (#[trigger] owned@[i]).range.wf(),
    {
        let mut owned: Vec<OwnedSegment> = Vec::new();
        let mut index: usize = 0;
        while index < self.segments.len()
            invariant
                index <= self.segments@.len(),
                self.wf_segments(),
                owned@ == owned_segments(self.segments@, self.owners@, job@, index as int),
                forall|i: int| 0 <= i < owned@.len() ==> (#[trigger] owned@[i]).range.wf(),
            decreases self.segments@.len() - index,
        {
            let stored: &StoredSegment = &self.segments[index];
            proof {
                assert(self.segments@[index as int].record.metadata.descriptor.wf());
            }
            if !stored.deleting && self.is_owner(
                &stored.record.metadata.id,
                SegmentOwnerKind::RawHistoryJob,
                job,
            ) {
                owned.push(
                    OwnedSegment {
                        range: stored.record.metadata.descriptor.range,
                        logical_bytes: stored.record.metadata.logical_bytes,
                        physical_bytes: stored.record.metadata.physical_bytes,
                    },
                );
            }
            index += 1;
        }
        owned
    }

    /// Every row describes a range that is not empty.
    pub open spec fn wf_segments(self) -> bool {
        forall|i: int|
            0 <= i < self.segments@.len() ==> (
            #[trigger] self.segments@[i]).record.metadata.descriptor.wf()
    }

    /// Why a claim on material is refused. Only raw-history jobs are asked
    /// whether they can use it.
    pub open spec fn claim_problem(
        self,
        claim: SegmentOwnerClaim,
        descriptor: SegmentDescriptor,
    ) -> Option<HistoryStoreError> {
        if claim.kind != SegmentOwnerKind::RawHistoryJob {
            None
        } else if !is_job_id(claim.owner_id@) {
            Some(HistoryStoreError::InvalidJob(JobProblem::InvalidId(claim.owner_id)))
        } else {
            match first_job(self.jobs@, claim.owner_id@, 0) {
                None => Some(HistoryStoreError::UnknownJob(claim.owner_id)),
                Some(at) => if self.jobs@[at].state.terminal() || !material_serves(
                    descriptor,
                    self.jobs@[at].spec,
                ) {
                    Some(HistoryStoreError::InvalidJob(JobProblem::Incompatible(claim.owner_id)))
                } else {
                    None
                },
            }
        }
    }

    /// Refuses a claim of a raw-history job that is unknown, has ended or
    /// cannot use the material.
    pub fn check_claim(
        &self,
        kind: SegmentOwnerKind,
        owner_id: &String,
        descriptor: &SegmentDescriptor,
    ) -> (outcome: Result<(), HistoryStoreError>)
        ensures
            outcome == (match self.claim_problem(
                SegmentOwnerClaim { kind, owner_id: *owner_id },
                *descriptor,
            ) {
                Some(error) => Err::<(), HistoryStoreError>(error),
                None => Ok(()),
            }),
    {
        if kind != SegmentOwnerKind::RawHistoryJob {
            return Ok(());
        }
        RawHistoryJobId::new(owner_id.clone())?;
        let at: usize = match self.find_job(owner_id.as_str()) {
            Some(at) => at,
            None => {
                return Err(HistoryStoreError::UnknownJob(owner_id.clone()));
            },
        };
        let job: &RawHistoryJob = &self.jobs[at];
        if job.state.is_terminal() || !material_is_compatible(descriptor, &job.spec) {
            return Err(HistoryStoreError::InvalidJob(JobProblem::Incompatible(owner_id.clone())));
        }
        Ok(())
    }

    /// The first refused claim, from `from` on.
    pub open spec fn first_claim_problem(
        self,
        claims: Seq<SegmentOwnerClaim>,
        descriptor: SegmentDescriptor,
        from: int,
    ) -> Option<HistoryStoreError>
        decreases claims.len() - from,
    {
        if from < 0 || from >= claims.len() {
            None
        } else if self.claim_problem(claims[from], descriptor) is Some {
            self.claim_problem(claims[from], descriptor)
        } else {
            self.first_claim_problem(claims, descriptor, from + 1)
        }
    }

    /// Refuses the first claim that cannot be granted.
    pub fn validate_initial_owner_claims(
        &self,
        descriptor: &SegmentDescriptor,
        claims: &Vec<SegmentOwnerClaim>,
    ) -> (outcome: Result<(), HistoryStoreError>)
        ensures
            outcome == (match self.first_claim_problem(claims@, *descriptor, 0) {
                Some(error) => Err::<(), HistoryStoreError>(error),
                None => Ok(()),
            }),
            outcome is Ok ==> forall|i: int|
                0 <= i < claims@.len() ==> self.claim_problem(#[trigger] claims@[i], *descriptor)
                    is None,
    {
        let mut index: usize = 0;
        while index < claims.len()
            invariant
                index <= claims@.len(),
                self.first_claim_problem(claims@, *descriptor, 0) == self.first_claim_problem(
                    claims@,
                    *descriptor,
                    index as int,
                ),
                forall|i: int|
                    0 <= i < index ==> self.claim_problem(#[trigger] claims@[i], *descriptor)
                        is None,
            decreases claims@.len() - index,
        {
            self.check_claim(claims[index].kind, &claims[index].owner_id, descriptor)?;
            index += 1;
        }
        Ok(())
    }
}

} // verus!
