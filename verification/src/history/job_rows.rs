//! Rows of the job table, and the check of a catalog that was read back.

use crate::bytes::{array32, same_array};
use crate::history::catalog::{
    first_segment, reserved_logical, reserved_physical, retained_logical, HistoryStore,
    ReservedSegment, SegmentOwner, StoredSegment,
};
use crate::history::error::{CatalogProblem, HistoryStoreError, JobProblem};
use crate::history::job::{is_job_id, RawHistoryJobId, RawHistoryJobSpec};
use crate::history::lifecycle::{RawHistoryJob, RawHistoryJobState};
use crate::history::locators::{all_lead_into, are_distinct};
use crate::history::pending::{lemma_reserved_prefix, lemma_retained_prefix};
use crate::history::rows::{blob32, i64_u64};
use crate::primitives::{BlockNumber, BlockRange, InvalidRange, CAPABILITY_BITS};
use crate::ranges::{all_wf, reports_all_gaps, requested_gaps, separated};
use vstd::prelude::*;

verus! {

/// One row of the job table, with its request as it was decoded and the
/// ranges of the readable segments that the job owns.
#[derive(Debug)]
pub struct JobRow {
    pub job_id: String,
    pub identity: Vec<u8>,
    pub request: RawHistoryJobSpec,
    pub covered: Vec<(i64, i64)>,
    pub state: String,
    pub attempts: i64,
    pub committed_segments: i64,
    pub committed_logical_bytes: i64,
    pub committed_physical_bytes: i64,
    pub last_error: Option<String>,
    pub created_at_unix_ms: i64,
    pub updated_at_unix_ms: i64,
}

/// What is wrong with the first bad range, from `from` on.
pub open spec fn covered_problem(covered: Seq<(i64, i64)>, from: int) -> Option<HistoryStoreError>
    decreases covered.len() - from,
{
    if from < 0 || from >= covered.len() {
        None
    } else if covered[from].0 < 0 {
        Some(HistoryStoreError::NumericRange("segment start"))
    } else if covered[from].1 < 0 {
        Some(HistoryStoreError::NumericRange("segment end"))
    } else if covered[from].0 > covered[from].1 {
        Some(
            HistoryStoreError::CatalogIntegrity(
                CatalogProblem::Range(
                    InvalidRange {
                        start: BlockNumber(covered[from].0 as u64),
                        end: BlockNumber(covered[from].1 as u64),
                    },
                ),
            ),
        )
    } else {
        covered_problem(covered, from + 1)
    }
}

/// The ranges that the columns stand for.
pub open spec fn column_ranges(covered: Seq<(i64, i64)>) -> Seq<BlockRange> {
    covered.map_values(
        |pair: (i64, i64)| BlockRange {
            start: BlockNumber(pair.0 as u64),
            end: BlockNumber(pair.1 as u64),
        },
    )
}

fn decode_covered(covered: &Vec<(i64, i64)>) -> (outcome: Result<
    Vec<BlockRange>,
    HistoryStoreError,
>)
    ensures
        match outcome {
            Ok(ranges) => covered_problem(covered@, 0) is None && ranges@ == column_ranges(
                covered@,
            ) && all_wf(ranges@),
            Err(error) => Some(error) == covered_problem(covered@, 0),
        },
{
    let mut ranges: Vec<BlockRange> = Vec::new();
    let mut index: usize = 0;
    while index < covered.len()
        invariant
            index <= covered@.len(),
            covered_problem(covered@, 0) == covered_problem(covered@, index as int),
            ranges@ == column_ranges(covered@.take(index as int)),
            all_wf(ranges@),
        decreases covered@.len() - index,
    {
        let start: u64 = i64_u64(covered[index].0, "segment start")?;
        let end: u64 = i64_u64(covered[index].1, "segment end")?;
        match BlockRange::new(BlockNumber(start), BlockNumber(end)) {
            Ok(range) => {
                ranges.push(range);
            },
            Err(invalid) => {
                return Err(HistoryStoreError::CatalogIntegrity(CatalogProblem::Range(invalid)));
            },
        }
        index += 1;
        assert(ranges@ =~= column_ranges(covered@.take(index as int)));
    }
    assert(covered@.take(index as int) =~= covered@);
    Ok(ranges)
}

impl JobRow {
    /// What is wrong with the name, the identity or the request, given the
    /// request in canonical form.
    pub open spec fn identity_problem(self, normal: RawHistoryJobSpec) -> Option<
        HistoryStoreError,
    > {
        if !is_job_id(self.job_id@) {
            Some(HistoryStoreError::InvalidJob(JobProblem::InvalidId(self.job_id)))
        } else if self.identity@.len() != 32 {
            Some(
                HistoryStoreError::CatalogIntegrity(
                    CatalogProblem::NotThirtyTwoBytes("job identity"),
                ),
            )
        } else {
            match self.request.problem() {
                Some(problem) => Some(
                    HistoryStoreError::CatalogIntegrity(CatalogProblem::InvalidSpec(problem)),
                ),
                None => if array32(self.identity@) != normal.spec_identity() {
                    Some(
                        HistoryStoreError::CatalogIntegrity(
                            CatalogProblem::IdentityMismatch(self.job_id),
                        ),
                    )
                } else {
                    covered_problem(self.covered@, 0)
                },
            }
        }
    }

    /// What is wrong with the state or the counters.
    pub open spec fn counter_problem(self) -> Option<HistoryStoreError> {
        if forall|state: RawHistoryJobState| (#[trigger] state.spec_str())@ != self.state@ {
            Some(HistoryStoreError::CatalogIntegrity(CatalogProblem::UnknownJobState(self.state)))
        } else if self.attempts < 0 {
            Some(HistoryStoreError::NumericRange("job attempts"))
        } else if self.committed_segments < 0 {
            Some(HistoryStoreError::NumericRange("committed segments"))
        } else if self.committed_logical_bytes < 0 {
            Some(HistoryStoreError::NumericRange("committed logical bytes"))
        } else if self.committed_physical_bytes < 0 {
            Some(HistoryStoreError::NumericRange("committed physical bytes"))
        } else if self.created_at_unix_ms < 0 {
            Some(HistoryStoreError::NumericRange("job creation time"))
        } else if self.updated_at_unix_ms < 0 {
            Some(HistoryStoreError::NumericRange("job update time"))
        } else {
            None
        }
    }

    /// The first reason to refuse a row.
    pub open spec fn problem(self, normal: RawHistoryJobSpec) -> Option<HistoryStoreError> {
        if self.identity_problem(normal) is Some {
            self.identity_problem(normal)
        } else {
            self.counter_problem()
        }
    }

    /// The job that a row stands for.
    pub open spec fn stands_for(self, normal: RawHistoryJobSpec, job: RawHistoryJob) -> bool {
        &&& job.id@ == self.job_id@
        &&& job.identity == array32(self.identity@)
        &&& job.spec == normal
        &&& job.state.spec_str()@ == self.state@
        &&& job.attempts == self.attempts
        &&& job.committed_segments == self.committed_segments
        &&& job.committed_logical_bytes == self.committed_logical_bytes
        &&& job.committed_physical_bytes == self.committed_physical_bytes
        &&& reports_all_gaps(
            normal.ranges@,
            column_ranges(self.covered@),
            job.remaining_ranges@,
        )
        &&& job.last_error == self.last_error
        &&& job.created_at_unix_ms == self.created_at_unix_ms
        &&& job.updated_at_unix_ms == self.updated_at_unix_ms
    }

    /// The job that a row holds, or the first thing wrong with the row.
    pub fn decode(self) -> (outcome: Result<RawHistoryJob, HistoryStoreError>)
        requires
            all_wf(self.request.ranges@),
        ensures
            match outcome {
                Ok(job) => {
                    &&& self.request.normal_form(job.spec)
                    &&& self.problem(job.spec) is None
                    &&& self.stands_for(job.spec, job)
                    &&& job.wf()
                },
                Err(error) => exists|normal: RawHistoryJobSpec| #[trigger]
                    self.problem(normal) == Some(error) && (self.request.problem() is None
                        && is_job_id(self.job_id@) && self.identity@.len() == 32
                        ==> self.request.normal_form(normal)),
            },
    {
        let ghost row = self;
        let ghost any = self.request;
        let id: RawHistoryJobId = match RawHistoryJobId::new(self.job_id.clone()) {
            Ok(id) => id,
            Err(error) => {
                assert(row.problem(any) == Some(error));
                return Err(error);
            },
        };
        let identity: [u8; 32] = match blob32(&self.identity, "job identity") {
            Ok(identity) => identity,
            Err(error) => {
                assert(row.problem(any) == Some(error));
                return Err(error);
            },
        };
        let request: RawHistoryJobSpec = match self.request.normalize() {
            Ok(request) => request,
            Err(error) => {
                let refused: HistoryStoreError = match error {
                    HistoryStoreError::InvalidJob(problem) => {
                        HistoryStoreError::CatalogIntegrity(CatalogProblem::InvalidSpec(problem))
                    },
                    other => other,
                };
                assert(row.problem(any) == Some(refused));
                return Err(refused);
            },
        };
        if !same_array(&identity, &request.identity()) {
            let refused = HistoryStoreError::CatalogIntegrity(
                CatalogProblem::IdentityMismatch(self.job_id),
            );
            assert(row.problem(request) == Some(refused));
            return Err(refused);
        }
        let covered: Vec<BlockRange> = match decode_covered(&self.covered) {
            Ok(covered) => covered,
            Err(error) => {
                assert(row.problem(request) == Some(error));
                return Err(error);
            },
        };
        let remaining_ranges: Vec<BlockRange> = requested_gaps(
            request.ranges.as_slice(),
            covered.as_slice(),
        );
        let state: RawHistoryJobState = match RawHistoryJobState::parse(self.state) {
            Ok(state) => state,
            Err(error) => {
                assert(row.problem(request) == Some(error));
                return Err(error);
            },
        };
        let counters: Counters = match decode_counters(
            self.attempts,
            self.committed_segments,
            self.committed_logical_bytes,
            self.committed_physical_bytes,
            self.created_at_unix_ms,
            self.updated_at_unix_ms,
        ) {
            Ok(counters) => counters,
            Err(error) => {
                assert(row.problem(request) == Some(error));
                return Err(error);
            },
        };
        Ok(
            RawHistoryJob {
                id,
                identity,
                spec: request,
                state,
                attempts: counters.attempts,
                committed_segments: counters.segments,
                committed_logical_bytes: counters.logical_bytes,
                committed_physical_bytes: counters.physical_bytes,
                remaining_ranges,
                last_error: self.last_error,
                created_at_unix_ms: counters.created_at,
                updated_at_unix_ms: counters.updated_at,
            },
        )
    }
}

struct Counters {
    attempts: u64,
    segments: u64,
    logical_bytes: u64,
    physical_bytes: u64,
    created_at: u64,
    updated_at: u64,
}

fn decode_counters(
    attempts: i64,
    segments: i64,
    logical_bytes: i64,
    physical_bytes: i64,
    created_at: i64,
    updated_at: i64,
) -> (outcome: Result<Counters, HistoryStoreError>)
    ensures
        match outcome {
            Ok(counters) => {
                &&& counters.attempts == attempts
                &&& counters.segments == segments
                &&& counters.logical_bytes == logical_bytes
                &&& counters.physical_bytes == physical_bytes
                &&& counters.created_at == created_at
                &&& counters.updated_at == updated_at
            },
            Err(error) => error == HistoryStoreError::NumericRange(
                if attempts < 0 {
                    "job attempts"
                } else if segments < 0 {
                    "committed segments"
                } else if logical_bytes < 0 {
                    "committed logical bytes"
                } else if physical_bytes < 0 {
                    "committed physical bytes"
                } else if created_at < 0 {
                    "job creation time"
                } else {
                    "job update time"
                },
            ) && (attempts < 0 || segments < 0 || logical_bytes < 0 || physical_bytes < 0
                || created_at < 0 || updated_at < 0),
        },
{
    Ok(
        Counters {
            attempts: i64_u64(attempts, "job attempts")?,
            segments: i64_u64(segments, "committed segments")?,
            logical_bytes: i64_u64(logical_bytes, "committed logical bytes")?,
            physical_bytes: i64_u64(physical_bytes, "committed physical bytes")?,
            created_at: i64_u64(created_at, "job creation time")?,
            updated_at: i64_u64(updated_at, "job update time")?,
        },
    )
}

fn distinct_segments(segments: &Vec<StoredSegment>) -> (distinct: bool)
    ensures
        distinct == forall|i: int, j: int|
            #![trigger segments@[i], segments@[j]]
            0 <= i < j < segments@.len() ==> segments@[i].record.metadata.id@
                != segments@[j].record.metadata.id@,
{
    let mut outer: usize = 0;
    while outer < segments.len()
        invariant
            outer <= segments@.len(),
            forall|i: int, j: int|
                #![trigger segments@[i], segments@[j]]
                0 <= i < j < segments@.len() && i < outer ==> segments@[i].record.metadata.id@
                    != segments@[j].record.metadata.id@,
        decreases segments@.len() - outer,
    {
        let mut inner: usize = outer + 1;
        while inner < segments.len()
            invariant
                outer < inner <= segments@.len(),
                forall|j: int|
                    outer < j < inner ==> segments@[outer as int].record.metadata.id@ != (
                    #[trigger] segments@[j]).record.metadata.id@,
            decreases segments@.len() - inner,
        {
            if segments[outer].record.metadata.id.same(&segments[inner].record.metadata.id) {
                return false;
            }
            inner += 1;
        }
        outer += 1;
    }
    true
}

fn distinct_reserved(reservations: &Vec<ReservedSegment>) -> (distinct: bool)
    ensures
        distinct == forall|i: int, j: int|
            #![trigger reservations@[i], reservations@[j]]
            0 <= i < j < reservations@.len() ==> reservations@[i].id@ != reservations@[j].id@,
{
    let mut outer: usize = 0;
    while outer < reservations.len()
        invariant
            outer <= reservations@.len(),
            forall|i: int, j: int|
                #![trigger reservations@[i], reservations@[j]]
                0 <= i < j < reservations@.len() && i < outer ==> reservations@[i].id@
                    != reservations@[j].id@,
        decreases reservations@.len() - outer,
    {
        let mut inner: usize = outer + 1;
        while inner < reservations.len()
            invariant
                outer < inner <= reservations@.len(),
                forall|j: int|
                    outer < j < inner ==> reservations@[outer as int].id@ != (
                    #[trigger] reservations@[j]).id@,
            decreases reservations@.len() - inner,
        {
            if reservations[outer].id.same(&reservations[inner].id) {
                return false;
            }
            inner += 1;
        }
        outer += 1;
    }
    true
}

fn distinct_jobs(jobs: &Vec<RawHistoryJob>) -> (distinct: bool)
    ensures
        distinct == forall|i: int, j: int|
            #![trigger jobs@[i], jobs@[j]]
            0 <= i < j < jobs@.len() ==> jobs@[i].id@ != jobs@[j].id@,
{
    let mut outer: usize = 0;
    while outer < jobs.len()
        invariant
            outer <= jobs@.len(),
            forall|i: int, j: int|
                #![trigger jobs@[i], jobs@[j]]
                0 <= i < j < jobs@.len() && i < outer ==> jobs@[i].id@ != jobs@[j].id@,
        decreases jobs@.len() - outer,
    {
        let mut inner: usize = outer + 1;
        while inner < jobs.len()
            invariant
                outer < inner <= jobs@.len(),
                forall|j: int|
                    outer < j < inner ==> jobs@[outer as int].id@ != (#[trigger] jobs@[j]).id@,
            decreases jobs@.len() - inner,
        {
            if jobs[outer].id.same(&jobs[inner].id) {
                return false;
            }
            inner += 1;
        }
        outer += 1;
    }
    true
}

fn distinct_owners(owners: &Vec<SegmentOwner>) -> (distinct: bool)
    ensures
        distinct == crate::history::retention::distinct_holds(owners@),
{
    let mut outer: usize = 0;
    while outer < owners.len()
        invariant
            outer <= owners@.len(),
            forall|i: int, j: int|
                #![trigger owners@[i], owners@[j]]
                0 <= i < j < owners@.len() && i < outer ==> !owners@[i].holds(
                    owners@[j].segment_id@,
                    owners@[j].kind,
                    owners@[j].owner_id@,
                ),
        decreases owners@.len() - outer,
    {
        let mut inner: usize = outer + 1;
        while inner < owners.len()
            invariant
                outer < inner <= owners@.len(),
                forall|j: int|
                    outer < j < inner ==> !owners@[outer as int].holds(
                        (#[trigger] owners@[j]).segment_id@,
                        owners@[j].kind,
                        owners@[j].owner_id@,
                    ),
            decreases owners@.len() - inner,
        {
            if owners[outer].kind == owners[inner].kind && owners[outer].segment_id.same(
                &owners[inner].segment_id,
            ) && owners[outer].owner_id == owners[inner].owner_id {
                assert(owners@[outer as int].holds(
                    owners@[inner as int].segment_id@,
                    owners@[inner as int].kind,
                    owners@[inner as int].owner_id@,
                ));
                return false;
            }
            inner += 1;
        }
        outer += 1;
    }
    true
}

fn sound_ranges(ranges: &Vec<BlockRange>) -> (sound: bool)
    ensures
        sound == separated(ranges@),
{
    let mut index: usize = 0;
    while index < ranges.len()
        invariant
            index <= ranges@.len(),
            separated(ranges@.take(index as int)),
        decreases ranges@.len() - index,
    {
        let range: BlockRange = ranges[index];
        proof {
            assert(ranges@[index as int] == range);
        }
        if range.start.0 > range.end.0 {
            return false;
        }
        if index > 0 {
            let last: BlockRange = ranges[index - 1];
            proof {
                assert(ranges@[index - 1] == last);
            }
            if last.end.0 >= range.start.0 || last.end.0 + 1 == range.start.0 {
                return false;
            }
        }
        proof {
            let shorter = ranges@.take(index as int);
            let longer = ranges@.take(index + 1);
            assert forall|i: int| 0 <= i < longer.len() implies (#[trigger] longer[i]).wf() by {
                if i < index {
                    assert(shorter[i] == longer[i]);
                }
            }
            assert forall|i: int, j: int|
                #![trigger longer[i], longer[j]]
                0 <= i < j < longer.len() implies longer[i].end.0 + 1 < longer[j].start.0 by {
                if j < index {
                    assert(shorter[i] == longer[i] && shorter[j] == longer[j]);
                } else if i < index - 1 {
                    assert(shorter[i] == longer[i]);
                    assert(shorter[index - 1] == ranges@[index - 1]);
                    assert(shorter[i].end.0 + 1 < shorter[index - 1].start.0);
                    assert(shorter[index - 1].wf());
                }
            }
        }
        index += 1;
    }
    assert(ranges@.take(index as int) =~= ranges@);
    true
}

impl HistoryStore {
    fn totals_within_budget(&self) -> (within: bool)
        ensures
            within == self.within_budget(),
    {
        let mut logical: u64 = 0;
        let mut physical: u64 = 0;
        let mut index: usize = 0;
        proof {
            lemma_retained_prefix(self.segments@, 0);
            lemma_reserved_prefix(self.reservations@, 0);
            assert(self.segments@.take(0) =~= Seq::<StoredSegment>::empty());
            assert(self.reservations@.take(0) =~= Seq::<ReservedSegment>::empty());
        }
        while index < self.segments.len()
            invariant
                index <= self.segments@.len(),
                0 <= reserved_logical(self.reservations@),
                logical == retained_logical(self.segments@.take(index as int)),
            decreases self.segments@.len() - index,
        {
            proof {
                let longer = self.segments@.take(index + 1);
                assert(longer.drop_last() =~= self.segments@.take(index as int));
                lemma_retained_prefix(self.segments@, index + 1);
            }
            logical = match logical.checked_add(self.segments[index].record.metadata.logical_bytes) {
                Some(logical) => logical,
                None => {
                    return false;
                },
            };
            index += 1;
        }
        assert(self.segments@.take(index as int) =~= self.segments@);
        index = 0;
        while index < self.reservations.len()
            invariant
                index <= self.reservations@.len(),
                0 <= retained_logical(self.segments@),
                logical == retained_logical(self.segments@) + reserved_logical(
                    self.reservations@.take(index as int),
                ),
                physical == reserved_physical(self.reservations@.take(index as int)),
            decreases self.reservations@.len() - index,
        {
            proof {
                let longer = self.reservations@.take(index + 1);
                assert(longer.drop_last() =~= self.reservations@.take(index as int));
                lemma_reserved_prefix(self.reservations@, index + 1);
            }
            logical = match logical.checked_add(
                self.reservations[index].reservation.maximum_logical_bytes,
            ) {
                Some(logical) => logical,
                None => {
                    return false;
                },
            };
            physical = match physical.checked_add(
                self.reservations[index].reservation.maximum_physical_bytes,
            ) {
                Some(physical) => physical,
                None => {
                    return false;
                },
            };
            index += 1;
        }
        assert(self.reservations@.take(index as int) =~= self.reservations@);
        logical <= self.budget.maximum_logical_bytes && physical
            <= self.budget.maximum_physical_bytes
    }

    fn sound_descriptors(&self) -> (sound: bool)
        ensures
            sound == self.wf_segments(),
    {
        let mut index: usize = 0;
        while index < self.segments.len()
            invariant
                index <= self.segments@.len(),
                forall|i: int|
                    0 <= i < index ==> (
                    #[trigger] self.segments@[i]).record.metadata.descriptor.wf(),
            decreases self.segments@.len() - index,
        {
            let descriptor = self.segments[index].record.metadata.descriptor;
            if crate::history::layout::validate_descriptor(&descriptor).is_err()
                || descriptor.range.start.0 > descriptor.range.end.0
                || descriptor.present_capabilities.bits & !CAPABILITY_BITS != 0
                || descriptor.complete_capabilities.bits & !CAPABILITY_BITS != 0 {
                assert(!self.segments@[index as int].record.metadata.descriptor.wf());
                return false;
            }
            index += 1;
        }
        true
    }

    fn owners_hold_segments(&self) -> (sound: bool)
        ensures
            sound == forall|i: int|
                0 <= i < self.owners@.len() ==> first_segment(
                    self.segments@,
                    (#[trigger] self.owners@[i]).segment_id@,
                    0,
                ) is Some,
    {
        let mut index: usize = 0;
        while index < self.owners.len()
            invariant
                index <= self.owners@.len(),
                forall|i: int|
                    0 <= i < index ==> first_segment(
                        self.segments@,
                        (#[trigger] self.owners@[i]).segment_id@,
                        0,
                    ) is Some,
            decreases self.owners@.len() - index,
        {
            if self.find_segment(&self.owners[index].segment_id).is_none() {
                assert(first_segment(
                    self.segments@,
                    self.owners@[index as int].segment_id@,
                    0,
                ) is None);
                return false;
            }
            index += 1;
        }
        true
    }

    fn jobs_are_canonical(&self) -> (sound: bool)
        ensures
            sound == forall|i: int| 0 <= i < self.jobs@.len() ==> (#[trigger] self.jobs@[i]).wf(),
    {
        let mut index: usize = 0;
        while index < self.jobs.len()
            invariant
                index <= self.jobs@.len(),
                forall|i: int| 0 <= i < index ==> (#[trigger] self.jobs@[i]).wf(),
            decreases self.jobs@.len() - index,
        {
            if self.jobs[index].spec.ranges.len() == 0 || !sound_ranges(
                &self.jobs[index].spec.ranges,
            ) {
                assert(!self.jobs@[index as int].wf());
                return false;
            }
            index += 1;
        }
        true
    }

    /// Whether the tables of a catalog that was read back are consistent.
    pub fn is_consistent(&self) -> (sound: bool)
        ensures
            sound == self.consistent(),
    {
        self.budget.validate().is_ok() && distinct_segments(&self.segments)
            && self.sound_descriptors() && distinct_reserved(&self.reservations)
            && self.owners_hold_segments() && distinct_owners(&self.owners) && all_lead_into(
            &self.block_locators,
            &self.segments,
        ) && are_distinct(&self.block_locators) && all_lead_into(
            &self.transaction_locators,
            &self.segments,
        ) && are_distinct(&self.transaction_locators) && distinct_jobs(&self.jobs)
            && self.jobs_are_canonical()
    }

    /// Whether a catalog that was read back is sound.
    pub fn is_sound(&self) -> (sound: bool)
        ensures
            sound == self.wf(),
    {
        self.is_consistent() && self.totals_within_budget()
    }
}

} // verus!
