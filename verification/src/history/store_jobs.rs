//! Raw-history jobs of the catalog: creation, lifecycle, reuse and deletion.

use crate::bytes::{be64, push_bytes, push_u64, same_array};
use crate::history::catalog::{
    first_job, first_segment, owned_by, HistoryStore, SegmentOwner, StoredSegment,
};
use crate::history::error::HistoryStoreError;
use crate::history::job::{normal_list, RawHistoryJobId, RawHistoryJobSpec};
use crate::history::lifecycle::{
    job_progress, progress_problem, JobProgress, OwnedSegment, RawHistoryJob,
    RawHistoryJobDeletion, RawHistoryJobState,
};
use crate::history::lookups::closed_records;
use crate::history::ownership::{
    all_owned, job_advanced, lemma_first_job, segment_is_compatible, segment_serves,
};
use crate::history::retention::{distinct_holds, lemma_wf_jobs_update};
use crate::history::rows::{fits_column, u64_i64, SegmentOwnerKind, SegmentRecord};
use crate::order::{sort_dedup, Keyed};
use crate::primitives::BlockRange;
use crate::ranges::{all_wf, reports_all_gaps, requested_gaps};
use crate::text::same_text;
use vstd::prelude::*;
use vstd::utf8::encode_utf8;

verus! {

/// The first job with this identity, from `from` on.
pub open spec fn first_identity(jobs: Seq<RawHistoryJob>, identity: [u8; 32], from: int) -> Option<
    int,
>
    decreases jobs.len() - from,
{
    if from < 0 || from >= jobs.len() {
        None
    } else if jobs[from].identity == identity {
        Some(from)
    } else {
        first_identity(jobs, identity, from + 1)
    }
}

/// The first range number that no column holds, from `from` on.
pub open spec fn range_overflow(ranges: Seq<BlockRange>, from: int) -> Option<&'static str>
    decreases ranges.len() - from,
{
    if from < 0 || from >= ranges.len() {
        None
    } else if !fits_column(ranges[from].start.0) {
        Some("range start")
    } else if !fits_column(ranges[from].end.0) {
        Some("range end")
    } else {
        range_overflow(ranges, from + 1)
    }
}

/// A job as it is queued.
pub open spec fn is_queued(
    job: RawHistoryJob,
    id: RawHistoryJobId,
    request: RawHistoryJobSpec,
    now: u64,
) -> bool {
    &&& job.id == id
    &&& job.identity == request.spec_identity()
    &&& job.spec == request
    &&& job.state == RawHistoryJobState::Queued
    &&& job.attempts == 0
    &&& job.committed_segments == 0
    &&& job.committed_logical_bytes == 0
    &&& job.committed_physical_bytes == 0
    &&& reports_all_gaps(request.ranges@, Seq::empty(), job.remaining_ranges@)
    &&& job.last_error is None
    &&& job.created_at_unix_ms == now
    &&& job.updated_at_unix_ms == now
}

fn check_range_columns(ranges: &Vec<BlockRange>) -> (outcome: Result<(), HistoryStoreError>)
    ensures
        outcome == (match range_overflow(ranges@, 0) {
            Some(name) => Err::<(), HistoryStoreError>(HistoryStoreError::NumericRange(name)),
            None => Ok(()),
        }),
{
    let mut index: usize = 0;
    while index < ranges.len()
        invariant
            index <= ranges@.len(),
            range_overflow(ranges@, 0) == range_overflow(ranges@, index as int),
        decreases ranges@.len() - index,
    {
        u64_i64(ranges[index].start.0, "range start")?;
        u64_i64(ranges[index].end.0, "range end")?;
        index += 1;
    }
    Ok(())
}

/// The owners without a job's holds, among the first `count`.
pub open spec fn other_owners(owners: Seq<SegmentOwner>, job: Seq<char>, count: int) -> Seq<
    SegmentOwner,
>
    decreases count,
{
    if count <= 0 {
        Seq::empty()
    } else {
        let before = other_owners(owners, job, count - 1);
        let row = owners[count - 1];
        if row.kind == SegmentOwnerKind::RawHistoryJob && row.owner_id@ == job {
            before
        } else {
            before.push(row)
        }
    }
}

/// The segments that a job holds, among the first `count`.
pub open spec fn released_by(owners: Seq<SegmentOwner>, job: Seq<char>, count: int) -> Seq<
    Seq<char>,
>
    decreases count,
{
    if count <= 0 {
        Seq::empty()
    } else {
        let before = released_by(owners, job, count - 1);
        let row = owners[count - 1];
        if row.kind == SegmentOwnerKind::RawHistoryJob && row.owner_id@ == job {
            before.push(row.segment_id@)
        } else {
            before
        }
    }
}

proof fn lemma_other_owners(owners: Seq<SegmentOwner>, job: Seq<char>, count: int)
    requires
        0 <= count <= owners.len(),
        distinct_holds(owners),
    ensures
        distinct_holds(other_owners(owners, job, count)),
        forall|i: int|
            0 <= i < other_owners(owners, job, count).len() ==> exists|j: int|
                0 <= j < count && owners[j] == #[trigger] other_owners(owners, job, count)[i],
        forall|i: int|
            0 <= i < other_owners(owners, job, count).len() ==> !((#[trigger] other_owners(
                owners,
                job,
                count,
            )[i]).kind == SegmentOwnerKind::RawHistoryJob && other_owners(
                owners,
                job,
                count,
            )[i].owner_id@ == job),
    decreases count,
{
    if count > 0 {
        lemma_other_owners(owners, job, count - 1);
        let before = other_owners(owners, job, count - 1);
        let left = other_owners(owners, job, count);
        let row = owners[count - 1];
        if left.len() > before.len() {
            assert forall|i: int| 0 <= i < left.len() implies exists|j: int|
                0 <= j < count && owners[j] == #[trigger] left[i] by {
                if i < before.len() {
                    assert(left[i] == before[i]);
                    let j = choose|j: int| 0 <= j < count - 1 && owners[j] == before[i];
                    assert(owners[j] == left[i]);
                } else {
                    assert(owners[count - 1] == left[i]);
                }
            }
            assert forall|i: int, j: int|
                #![trigger left[i], left[j]]
                0 <= i < j < left.len() implies !left[i].holds(
                left[j].segment_id@,
                left[j].kind,
                left[j].owner_id@,
            ) by {
                assert(left[i] == before[i]);
                if j < before.len() {
                    assert(left[j] == before[j]);
                } else {
                    let a = choose|a: int| 0 <= a < count - 1 && owners[a] == before[i];
                    assert(owners[a] == left[i]);
                    assert(owners[count - 1] == left[j]);
                }
            }
            assert forall|i: int| 0 <= i < left.len() implies !((#[trigger] left[i]).kind
                == SegmentOwnerKind::RawHistoryJob && left[i].owner_id@ == job) by {
                if i < before.len() {
                    assert(left[i] == before[i]);
                }
            }
        } else {
            assert forall|i: int| 0 <= i < left.len() implies exists|j: int|
                0 <= j < count && owners[j] == #[trigger] left[i] by {
                assert(left[i] == before[i]);
                let j = choose|j: int| 0 <= j < count - 1 && owners[j] == before[i];
                assert(owners[j] == left[i]);
            }
        }
    }
}

/// Where a job stands in the list, newest first.
#[derive(Debug)]
pub struct JobPlace {
    pub created_at_unix_ms: u64,
    pub id: RawHistoryJobId,
    pub at: usize,
}

impl Keyed for JobPlace {
    open spec fn key(&self) -> Seq<u8> {
        be64((u64::MAX - self.created_at_unix_ms) as u64) + encode_utf8(self.id@)
    }

    fn key_bytes(&self) -> (bytes: Vec<u8>) {
        let mut bytes: Vec<u8> = Vec::new();
        push_u64(&mut bytes, u64::MAX - self.created_at_unix_ms);
        push_bytes(&mut bytes, self.id.as_str().as_bytes());
        assert(bytes@ =~= self.key());
        bytes
    }
}

/// The places of the first `count` jobs.
pub open spec fn job_places(jobs: Seq<RawHistoryJob>, count: int) -> Seq<JobPlace>
    decreases count,
{
    if count <= 0 {
        Seq::empty()
    } else {
        job_places(jobs, count - 1).push(
            JobPlace {
                created_at_unix_ms: jobs[count - 1].created_at_unix_ms,
                id: jobs[count - 1].id,
                at: (count - 1) as usize,
            },
        )
    }
}

/// The job is that at a place of a table.
pub open spec fn job_at(table: Seq<RawHistoryJob>, place: JobPlace, job: RawHistoryJob) -> bool {
    place.at < table.len() && job.alike(table[place.at as int])
}

/// The jobs are those at these places of a table.
pub open spec fn jobs_at(
    table: Seq<RawHistoryJob>,
    places: Seq<JobPlace>,
    jobs: Seq<RawHistoryJob>,
) -> bool {
    &&& jobs.len() == places.len()
    &&& forall|i: int| 0 <= i < jobs.len() ==> job_at(table, places[i], #[trigger] jobs[i])
}

proof fn lemma_job_place(jobs: Seq<RawHistoryJob>, count: int, k: int)
    requires
        0 <= count <= jobs.len() <= usize::MAX,
        0 <= k < job_places(jobs, count).len(),
    ensures
        job_places(jobs, count)[k].at < count,
    decreases count,
{
    if count > 0 && k < job_places(jobs, count - 1).len() {
        lemma_job_place(jobs, count - 1, k);
    }
}

/// A job of this name is not known.
pub open spec fn is_unknown_job(error: HistoryStoreError, id: Seq<char>) -> bool {
    match error {
        HistoryStoreError::UnknownJob(name) => name@ == id,
        _ => false,
    }
}

impl HistoryStore {
    /// What creation makes of a request in canonical form.
    pub open spec fn job_created(
        self,
        after: HistoryStore,
        id: RawHistoryJobId,
        request: RawHistoryJobSpec,
        now: u64,
        outcome: Result<RawHistoryJob, HistoryStoreError>,
    ) -> bool {
        match first_job(self.jobs@, id@, 0) {
            Some(at) => {
                &&& after.same_rows(self)
                &&& if self.jobs@[at].identity == request.spec_identity() {
                    outcome matches Ok(job) && job.alike(self.jobs@[at])
                } else {
                    match outcome {
                        Err(HistoryStoreError::JobConflict(name)) => name@ == id@,
                        _ => false,
                    }
                }
            },
            None => match first_identity(self.jobs@, request.spec_identity(), 0) {
                Some(at) => after.same_rows(self) && (outcome matches Ok(job) && job.alike(
                    self.jobs@[at],
                )),
                None => if !fits_column(now) {
                    after.same_rows(self) && outcome == Err::<RawHistoryJob, HistoryStoreError>(
                        HistoryStoreError::NumericRange("job creation time"),
                    )
                } else {
                    match range_overflow(request.ranges@, 0) {
                        Some(name) => after.same_rows(self) && outcome == Err::<
                            RawHistoryJob,
                            HistoryStoreError,
                        >(HistoryStoreError::NumericRange(name)),
                        None => {
                            &&& after.same_material(self)
                            &&& after.owners@ == self.owners@
                            &&& after.jobs@.len() == self.jobs@.len() + 1
                            &&& after.jobs@.drop_last() == self.jobs@
                            &&& is_queued(after.jobs@.last(), id, request, now)
                            &&& outcome matches Ok(job) && job.alike(after.jobs@.last())
                        },
                    }
                },
            },
        }
    }

    fn find_identity(&self, identity: &[u8; 32]) -> (at: Option<usize>)
        ensures
            match at {
                Some(at) => first_identity(self.jobs@, *identity, 0) == Some(at as int) && at
                    < self.jobs@.len(),
                None => first_identity(self.jobs@, *identity, 0) is None,
            },
    {
        let mut index: usize = 0;
        while index < self.jobs.len()
            invariant
                index <= self.jobs@.len(),
                first_identity(self.jobs@, *identity, 0) == first_identity(
                    self.jobs@,
                    *identity,
                    index as int,
                ),
            decreases self.jobs@.len() - index,
        {
            if same_array(&self.jobs[index].identity, identity) {
                return Some(index);
            }
            index += 1;
        }
        None
    }

    /// Creates a job for a request, or resolves it to the job that already
    /// stands for the same canonical request. An identifier that names another
    /// request is a conflict.
    pub fn create_raw_history_job(
        &mut self,
        id: RawHistoryJobId,
        request: RawHistoryJobSpec,
        now: u64,
    ) -> (outcome: Result<RawHistoryJob, HistoryStoreError>)
        requires
            old(self).wf(),
            all_wf(request.ranges@),
        ensures
            final(self).wf(),
            match request.problem() {
                Some(problem) => {
                    &&& outcome == Err::<RawHistoryJob, HistoryStoreError>(
                        HistoryStoreError::InvalidJob(problem),
                    )
                    &&& final(self).same_rows(*old(self))
                },
                None => exists|normal: RawHistoryJobSpec| #[trigger]
                    request.normal_form(normal) && old(self).job_created(
                        *final(self),
                        id,
                        normal,
                        now,
                        outcome,
                    ),
            },
    {
        let request: RawHistoryJobSpec = request.normalize()?;
        let identity: [u8; 32] = request.identity();
        let ghost before = *self;
        if let Some(at) = self.find_job(id.as_str()) {
            if same_array(&self.jobs[at].identity, &identity) {
                return Ok(self.jobs[at].clone());
            }
            return Err(HistoryStoreError::JobConflict(self.jobs[at].id.as_str().to_owned()));
        }
        if let Some(at) = self.find_identity(&identity) {
            return Ok(self.jobs[at].clone());
        }
        u64_i64(now, "job creation time")?;
        check_range_columns(&request.ranges)?;
        let covered: Vec<BlockRange> = Vec::new();
        let remaining_ranges: Vec<BlockRange> = requested_gaps(
            request.ranges.as_slice(),
            covered.as_slice(),
        );
        proof {
            assert(covered@ =~= Seq::<BlockRange>::empty());
        }
        let ghost name = id@;
        let job = RawHistoryJob {
                id,
                identity,
                spec: request,
                state: RawHistoryJobState::Queued,
                attempts: 0,
                committed_segments: 0,
                committed_logical_bytes: 0,
                committed_physical_bytes: 0,
                remaining_ranges,
                last_error: None,
                created_at_unix_ms: now,
                updated_at_unix_ms: now,
            };
        let queued: RawHistoryJob = job.clone();
        self.jobs.push(job);
        proof {
            lemma_first_job(before.jobs@, name, 0);
            assert(self.jobs@.drop_last() =~= before.jobs@);
            assert forall|i: int, j: int|
                #![trigger self.jobs@[i], self.jobs@[j]]
                0 <= i < j < self.jobs@.len() implies self.jobs@[i].id@ != self.jobs@[j].id@ by {
                assert(self.jobs@[i] == before.jobs@[i]);
                if j < before.jobs@.len() {
                    assert(self.jobs@[j] == before.jobs@[j]);
                }
            }
            assert forall|i: int| 0 <= i < self.jobs@.len() implies (
            #[trigger] self.jobs@[i]).wf() by {
                if i < before.jobs@.len() {
                    assert(self.jobs@[i] == before.jobs@[i]);
                }
            }
        }
        Ok(queued)
    }

    /// One raw-history job.
    pub fn raw_history_job(&self, id: &RawHistoryJobId) -> (job: Option<&RawHistoryJob>)
        ensures
            match job {
                Some(job) => match first_job(self.jobs@, id@, 0) {
                    Some(at) => *job == self.jobs@[at],
                    None => false,
                },
                None => first_job(self.jobs@, id@, 0) is None,
            },
    {
        match self.find_job(id.as_str()) {
            Some(at) => Some(&self.jobs[at]),
            None => None,
        }
    }

    /// The jobs, newest first, and by name among those of the same time.
    pub fn raw_history_jobs(&self) -> (jobs: Vec<RawHistoryJob>)
        ensures
            exists|places: Seq<JobPlace>|
                #[trigger] normal_list(job_places(self.jobs@, self.jobs@.len() as int), places)
                    && jobs_at(self.jobs@, places, jobs@),
    {
        let mut places: Vec<JobPlace> = Vec::new();
        let mut index: usize = 0;
        while index < self.jobs.len()
            invariant
                index <= self.jobs@.len(),
                places@ == job_places(self.jobs@, index as int),
            decreases self.jobs@.len() - index,
        {
            places.push(
                JobPlace {
                    created_at_unix_ms: self.jobs[index].created_at_unix_ms,
                    id: self.jobs[index].id.clone(),
                    at: index,
                },
            );
            index += 1;
        }
        let count: usize = self.jobs.len();
        let sorted: Vec<JobPlace> = sort_dedup(places);
        let mut jobs: Vec<RawHistoryJob> = Vec::new();
        let mut next: usize = 0;
        while next < sorted.len()
            invariant
                next <= sorted@.len(),
                count == self.jobs@.len(),
                normal_list(job_places(self.jobs@, self.jobs@.len() as int), sorted@),
                jobs_at(self.jobs@, sorted@.take(next as int), jobs@),
            decreases sorted@.len() - next,
        {
            proof {
                let all = job_places(self.jobs@, self.jobs@.len() as int);
                assert(all.contains(sorted@[next as int]));
                let k = choose|k: int| 0 <= k < all.len() && all[k] == sorted@[next as int];
                lemma_job_place(self.jobs@, self.jobs@.len() as int, k);
            }
            let ghost listed = jobs@;
            let job: RawHistoryJob = self.jobs[sorted[next].at].clone();
            jobs.push(job);
            proof {
                let before = sorted@.take(next as int);
                let places = sorted@.take(next + 1);
                assert forall|i: int| 0 <= i < jobs@.len() implies job_at(
                    self.jobs@,
                    places[i],
                    #[trigger] jobs@[i],
                ) by {
                    if i < next {
                        assert(jobs@[i] == listed[i]);
                        assert(places[i] == before[i]);
                    } else {
                        assert(places[i] == sorted@[next as int]);
                    }
                }
            }
            next += 1;
        }
        assert(sorted@.take(next as int) =~= sorted@);
        jobs
    }

    fn required_job(&self, id: &RawHistoryJobId) -> (outcome: Result<usize, HistoryStoreError>)
        ensures
            match outcome {
                Ok(at) => first_job(self.jobs@, id@, 0) == Some(at as int) && at
                    < self.jobs@.len() && self.jobs@[at as int].id@ == id@,
                Err(error) => first_job(self.jobs@, id@, 0) is None && is_unknown_job(error, id@),
            },
    {
        match self.find_job(id.as_str()) {
            Some(at) => Ok(at),
            None => Err(HistoryStoreError::UnknownJob(id.as_str().to_owned())),
        }
    }

    /// Only the job at `at` may differ.
    pub open spec fn only_job_changed(self, after: HistoryStore, at: int) -> bool {
        &&& after.same_material(self)
        &&& after.owners@ == self.owners@
        &&& after.jobs@ == self.jobs@.update(at, after.jobs@[at])
    }

    /// Marks queued or resumable work running, and counts the attempt.
    pub fn start_raw_history_job(&mut self, id: &RawHistoryJobId, now: u64) -> (outcome: Result<
        RawHistoryJob,
        HistoryStoreError,
    >)
        requires
            old(self).wf(),
        ensures
            final(self).wf(),
            match first_job(old(self).jobs@, id@, 0) {
                None => final(self).same_rows(*old(self)) && (outcome matches Err(error)
                    && is_unknown_job(error, id@)),
                Some(at) => {
                    let job = old(self).jobs@[at];
                    &&& old(self).only_job_changed(*final(self), at)
                    &&& match outcome {
                        Ok(changed) => {
                            &&& changed.alike(final(self).jobs@[at])
                            &&& fits_column(now) && !job.state.terminal() && job.attempts
                                < u64::MAX
                            &&& final(self).jobs@[at] == (RawHistoryJob {
                                state: RawHistoryJobState::Running,
                                attempts: (job.attempts + 1) as u64,
                                last_error: None,
                                updated_at_unix_ms: now,
                                ..job
                            })
                        },
                        Err(error) => {
                            &&& final(self).jobs@[at] == job
                            &&& if !fits_column(now) {
                                error == HistoryStoreError::NumericRange("job update time")
                            } else if job.state.terminal() {
                                job.refused_by_state(error)
                            } else {
                                job.attempts == u64::MAX && error
                                    == HistoryStoreError::ArithmeticOverflow
                            }
                        },
                    }
                },
            },
    {
        let at: usize = self.required_job(id)?;
        let ghost before = *self;
        let outcome = self.jobs[at].start(now);
        proof {
            assert(self.jobs@ =~= before.jobs@.update(at as int, self.jobs@[at as int]));
            assert(before.jobs@[at as int].wf());
            lemma_wf_jobs_update(before, *self, at as int);
        }
        match outcome {
            Ok(()) => Ok(self.jobs[at].clone()),
            Err(refusal) => Err(refusal),
        }
    }

    /// Records storage backpressure without discarding resumable coverage.
    pub fn backpressure_raw_history_job(
        &mut self,
        id: &RawHistoryJobId,
        error: String,
        now: u64,
    ) -> (outcome: Result<RawHistoryJob, HistoryStoreError>)
        requires
            old(self).wf(),
        ensures
            final(self).wf(),
            match first_job(old(self).jobs@, id@, 0) {
                None => final(self).same_rows(*old(self)) && (outcome matches Err(refusal)
                    && is_unknown_job(refusal, id@)),
                Some(at) => {
                    let job = old(self).jobs@[at];
                    &&& old(self).only_job_changed(*final(self), at)
                    &&& match outcome {
                        Ok(changed) => {
                            &&& changed.alike(final(self).jobs@[at])
                            &&& fits_column(now) && !job.state.terminal()
                            &&& final(self).jobs@[at] == (RawHistoryJob {
                                state: RawHistoryJobState::StorageBackpressured,
                                last_error: Some(error),
                                updated_at_unix_ms: now,
                                ..job
                            })
                        },
                        Err(refusal) => {
                            &&& final(self).jobs@[at] == job
                            &&& if !fits_column(now) {
                                refusal == HistoryStoreError::NumericRange("job update time")
                            } else {
                                job.state.terminal() && job.refused_by_state(refusal)
                            }
                        },
                    }
                },
            },
    {
        let at: usize = self.required_job(id)?;
        let ghost before = *self;
        let outcome = self.jobs[at].backpressure(error, now);
        proof {
            assert(self.jobs@ =~= before.jobs@.update(at as int, self.jobs@[at as int]));
            assert(before.jobs@[at as int].wf());
            lemma_wf_jobs_update(before, *self, at as int);
        }
        match outcome {
            Ok(()) => Ok(self.jobs[at].clone()),
            Err(refusal) => Err(refusal),
        }
    }

    /// Marks a job that has not ended as failed.
    pub fn fail_raw_history_job(&mut self, id: &RawHistoryJobId, error: String, now: u64) -> (
        outcome: Result<RawHistoryJob, HistoryStoreError>)
        requires
            old(self).wf(),
        ensures
            final(self).wf(),
            match first_job(old(self).jobs@, id@, 0) {
                None => final(self).same_rows(*old(self)) && (outcome matches Err(refusal)
                    && is_unknown_job(refusal, id@)),
                Some(at) => {
                    let job = old(self).jobs@[at];
                    &&& old(self).only_job_changed(*final(self), at)
                    &&& match outcome {
                        Ok(changed) => {
                            &&& changed.alike(final(self).jobs@[at])
                            &&& fits_column(now) && !job.state.terminal()
                            &&& final(self).jobs@[at] == (RawHistoryJob {
                                state: RawHistoryJobState::Failed,
                                last_error: Some(error),
                                updated_at_unix_ms: now,
                                ..job
                            })
                        },
                        Err(refusal) => {
                            &&& final(self).jobs@[at] == job
                            &&& if !fits_column(now) {
                                refusal == HistoryStoreError::NumericRange("job update time")
                            } else {
                                job.state.terminal() && job.refused_by_state(refusal)
                            }
                        },
                    }
                },
            },
    {
        let at: usize = self.required_job(id)?;
        let ghost before = *self;
        let outcome = self.jobs[at].fail(error, now);
        proof {
            assert(self.jobs@ =~= before.jobs@.update(at as int, self.jobs@[at as int]));
            assert(before.jobs@[at as int].wf());
            lemma_wf_jobs_update(before, *self, at as int);
        }
        match outcome {
            Ok(()) => Ok(self.jobs[at].clone()),
            Err(refusal) => Err(refusal),
        }
    }

    /// Cancels work without deleting its retained segments. A job that has
    /// ended stays as it is.
    pub fn cancel_raw_history_job(&mut self, id: &RawHistoryJobId, now: u64) -> (outcome: Result<
        RawHistoryJob,
        HistoryStoreError,
    >)
        requires
            old(self).wf(),
        ensures
            final(self).wf(),
            match first_job(old(self).jobs@, id@, 0) {
                None => final(self).same_rows(*old(self)) && (outcome matches Err(error)
                    && is_unknown_job(error, id@)),
                Some(at) => {
                    let job = old(self).jobs@[at];
                    &&& old(self).only_job_changed(*final(self), at)
                    &&& match outcome {
                        Ok(changed) => {
                            &&& changed.alike(final(self).jobs@[at])
                            &&& fits_column(now)
                            &&& final(self).jobs@[at] == (if job.state.terminal() {
                                job
                            } else {
                                RawHistoryJob {
                                    state: RawHistoryJobState::Cancelled,
                                    updated_at_unix_ms: now,
                                    ..job
                                }
                            })
                        },
                        Err(error) => {
                            &&& !fits_column(now)
                            &&& final(self).jobs@[at] == job
                            &&& error == HistoryStoreError::NumericRange("job update time")
                        },
                    }
                },
            },
    {
        let at: usize = self.required_job(id)?;
        let ghost before = *self;
        let outcome = self.jobs[at].cancel(now);
        proof {
            assert(self.jobs@ =~= before.jobs@.update(at as int, self.jobs@[at as int]));
            assert(before.jobs@[at as int].wf());
            lemma_wf_jobs_update(before, *self, at as int);
        }
        match outcome {
            Ok(()) => Ok(self.jobs[at].clone()),
            Err(refusal) => Err(refusal),
        }
    }

    /// Counts the segments that a job owns again.
    pub fn reconcile_raw_history_job(&mut self, id: &RawHistoryJobId, now: u64) -> (outcome:
        Result<RawHistoryJob, HistoryStoreError>)
        requires
            old(self).wf(),
        ensures
            final(self).wf(),
            match first_job(old(self).jobs@, id@, 0) {
                None => final(self).same_rows(*old(self)) && (outcome matches Err(error)
                    && is_unknown_job(error, id@)),
                Some(at) => {
                    let job = old(self).jobs@[at];
                    let owned = all_owned(old(self).segments@, old(self).owners@, id@);
                    &&& old(self).only_job_changed(*final(self), at)
                    &&& match outcome {
                        Ok(changed) => {
                            &&& changed.alike(final(self).jobs@[at])
                            &&& progress_problem(owned, now) is None
                            &&& job_advanced(job, final(self).jobs@[at], owned, now)
                        },
                        Err(error) => final(self).jobs@[at] == job && Some(error)
                            == progress_problem(owned, now),
                    }
                },
            },
    {
        let at: usize = self.required_job(id)?;
        let ghost before = *self;
        let owned: Vec<OwnedSegment> = self.collect_owned(id.as_str());
        proof {
            assert(self.jobs@[at as int].wf());
        }
        let recorded: JobProgress = match job_progress(
            &self.jobs[at].spec.ranges,
            self.jobs[at].state,
            &owned,
            now,
        ) {
            Ok(recorded) => recorded,
            Err(error) => {
                assert(self.jobs@ =~= before.jobs@.update(at as int, self.jobs@[at as int]));
                return Err(error);
            },
        };
        self.jobs[at].record(recorded, now);
        proof {
            assert(self.jobs@ =~= before.jobs@.update(at as int, self.jobs@[at as int]));
            lemma_wf_jobs_update(before, *self, at as int);
        }
        Ok(self.jobs[at].clone())
    }

    /// Deletes a job that has ended, and releases, but does not delete, its
    /// segments.
    pub fn delete_raw_history_job(&mut self, id: &RawHistoryJobId) -> (outcome: Result<
        RawHistoryJobDeletion,
        HistoryStoreError,
    >)
        requires
            old(self).wf(),
        ensures
            final(self).wf(),
            final(self).same_material(*old(self)),
            match first_job(old(self).jobs@, id@, 0) {
                None => final(self).same_rows(*old(self)) && (outcome matches Err(error)
                    && is_unknown_job(error, id@)),
                Some(at) => {
                    let job = old(self).jobs@[at];
                    let count = old(self).owners@.len() as int;
                    match outcome {
                        Ok(deletion) => {
                            &&& job.state.terminal()
                            &&& final(self).jobs@ == old(self).jobs@.remove(at)
                            &&& final(self).owners@ == other_owners(old(self).owners@, id@, count)
                            &&& deletion.jobs == 1
                            &&& deletion.ranges == job.spec.ranges@.len()
                            &&& deletion.owners == released_by(old(self).owners@, id@, count).len()
                            &&& exists|held: Seq<String>| #[trigger]
                                crate::text::texts(held) == released_by(
                                    old(self).owners@,
                                    id@,
                                    count,
                                ) && normal_list(held, deletion.released_segments@)
                        },
                        Err(error) => {
                            &&& !job.state.terminal()
                            &&& final(self).same_rows(*old(self))
                            &&& job.refused_by_state(error)
                        },
                    }
                },
            },
    {
        let at: usize = self.required_job(id)?;
        if !self.jobs[at].state.is_terminal() {
            return Err(self.jobs[at].state_error());
        }
        let ghost before = *self;
        let mut held: Vec<String> = Vec::new();
        let mut index: usize = 0;
        let ghost mut seen: int = 0;
        let ghost all = self.owners@;
        proof {
            assert(crate::text::texts(held@) =~= released_by(all, id@, 0));
            assert(self.owners@.take(0) =~= other_owners(all, id@, 0));
            assert(self.owners@.skip(0) =~= all.skip(0));
        }
        while index < self.owners.len()
            invariant
                0 <= index <= self.owners@.len(),
                0 <= seen <= all.len(),
                all == before.owners@,
                self.same_material(before),
                self.jobs@ == before.jobs@,
                self.owners@.take(index as int) == other_owners(all, id@, seen),
                self.owners@.skip(index as int) == all.skip(seen),
                crate::text::texts(held@) == released_by(all, id@, seen),
                held@.len() + self.owners@.len() == all.len(),
            decreases self.owners@.len() - index,
        {
            let ghost rows = self.owners@;
            let ghost names = crate::text::texts(held@);
            proof {
                assert(rows.skip(index as int).len() == all.skip(seen).len());
                assert(rows.skip(index as int)[0] == all.skip(seen)[0]);
                assert(rows[index as int] == all[seen]);
                assert(all.skip(seen).skip(1) =~= all.skip(seen + 1));
            }
            if self.owners[index].kind == SegmentOwnerKind::RawHistoryJob && same_text(
                self.owners[index].owner_id.as_str(),
                id.as_str(),
            ) {
                let row: SegmentOwner = self.owners.remove(index);
                held.push(row.segment_id.as_str().to_owned());
                proof {
                    assert(self.owners@.take(index as int) =~= rows.take(index as int));
                    assert(self.owners@.skip(index as int) =~= rows.skip(index as int).skip(1));
                    assert(crate::text::texts(held@) =~= names.push(all[seen].segment_id@));
                }
            } else {
                index += 1;
                proof {
                    assert(self.owners@.take(index as int) =~= rows.take(index - 1).push(
                        all[seen],
                    ));
                    assert(self.owners@.skip(index as int) =~= rows.skip(index - 1).skip(1));
                }
            }
            proof {
                seen = seen + 1;
            }
        }
        proof {
            assert(self.owners@.skip(index as int).len() == 0);
            assert(all.skip(seen).len() == 0);
            assert(self.owners@.take(index as int) =~= self.owners@);
            assert(crate::text::texts(held@).len() == held@.len());
        }
        let ranges: u64 = self.jobs[at].spec.ranges.len() as u64;
        let owners: u64 = held.len() as u64;
        self.jobs.remove(at);
        let ghost listed = held@;
        let released_segments: Vec<String> = sort_dedup(held);
        proof {
            lemma_wf_job_removed(before, *self, id@, at as int);
            assert(crate::text::texts(listed) == released_by(all, id@, all.len() as int));
        }
        Ok(RawHistoryJobDeletion { jobs: 1, ranges, owners, released_segments })
    }
}

proof fn lemma_wf_job_removed(before: HistoryStore, after: HistoryStore, id: Seq<char>, at: int)
    requires
        before.wf(),
        0 <= at < before.jobs@.len(),
        after.same_material(before),
        after.jobs@ == before.jobs@.remove(at),
        after.owners@ == other_owners(before.owners@, id, before.owners@.len() as int),
    ensures
        after.wf(),
{
    let jobs = after.jobs@;
    lemma_other_owners(before.owners@, id, before.owners@.len() as int);
    assert forall|i: int| 0 <= i < after.owners@.len() implies first_segment(
        after.segments@,
        (#[trigger] after.owners@[i]).segment_id@,
        0,
    ) is Some by {
        let j = choose|j: int|
            0 <= j < before.owners@.len() && before.owners@[j] == after.owners@[i];
        assert(before.owners@[j].segment_id@ == after.owners@[i].segment_id@);
    }
    assert forall|i: int, j: int|
        #![trigger jobs[i], jobs[j]]
        0 <= i < j < jobs.len() implies jobs[i].id@ != jobs[j].id@ by {
        let a = if i < at {
            i
        } else {
            i + 1
        };
        let b = if j < at {
            j
        } else {
            j + 1
        };
        assert(jobs[i] == before.jobs@[a] && jobs[j] == before.jobs@[b]);
    }
    assert forall|i: int| 0 <= i < jobs.len() implies (#[trigger] jobs[i]).wf() by {
        let a = if i < at {
            i
        } else {
            i + 1
        };
        assert(jobs[i] == before.jobs@[a]);
    }
}

/// A readable segment of this name can be used for a request.
pub open spec fn serves_by_name(
    segments: Seq<StoredSegment>,
    request: RawHistoryJobSpec,
    segment: Seq<char>,
) -> bool {
    exists|i: int|
        0 <= i < segments.len() && (#[trigger] segments[i]).is_closed(segment) && segment_serves(
            segments[i].record,
            request,
        )
}

/// The job holds every readable segment that it can use.
pub open spec fn holds_all_compatible(
    segments: Seq<StoredSegment>,
    owners: Seq<SegmentOwner>,
    request: RawHistoryJobSpec,
    job: Seq<char>,
) -> bool {
    forall|i: int|
        0 <= i < segments.len() && !(#[trigger] segments[i]).deleting && segment_serves(
            segments[i].record,
            request,
        ) ==> owned_by(
            owners,
            segments[i].record.metadata.id@,
            SegmentOwnerKind::RawHistoryJob,
            job,
        )
}

/// The owners after a job has claimed: the rows from before, and then only
/// holds of the job on readable segments that it can use.
pub open spec fn only_claims_added(
    before: HistoryStore,
    after: HistoryStore,
    request: RawHistoryJobSpec,
    job: Seq<char>,
) -> bool {
    let held = before.owners@.len() as int;
    &&& after.owners@.len() >= held
    &&& after.owners@.take(held) == before.owners@
    &&& forall|i: int|
        held <= i < after.owners@.len() ==> (#[trigger] after.owners@[i]).kind
            == SegmentOwnerKind::RawHistoryJob && after.owners@[i].owner_id@ == job
            && serves_by_name(before.segments@, request, after.owners@[i].segment_id@)
}

/// What claiming may change: the owners, by claims of the job, and what is
/// counted for the job.
pub open spec fn claims_made(
    before: HistoryStore,
    after: HistoryStore,
    at: int,
    job: Seq<char>,
) -> bool {
    &&& after.same_material(before)
    &&& after.jobs@.len() == before.jobs@.len()
    &&& after.jobs@ == before.jobs@.update(at, after.jobs@[at])
    &&& after.jobs@[at].spec == before.jobs@[at].spec
    &&& after.jobs@[at].id@ == before.jobs@[at].id@
    &&& only_claims_added(before, after, before.jobs@[at].spec, job)
}

/// A job can use a listed segment and does not hold it yet.
pub open spec fn is_claimable(
    store: HistoryStore,
    record: SegmentRecord,
    request: RawHistoryJobSpec,
    job: Seq<char>,
) -> bool {
    segment_serves(record, request) && !owned_by(
        store.owners@,
        record.metadata.id@,
        SegmentOwnerKind::RawHistoryJob,
        job,
    )
}

/// The first `count` of the listed segments were visited, and each that could
/// be claimed was.
pub open spec fn records_claimed(
    before: HistoryStore,
    after: HistoryStore,
    records: Seq<SegmentRecord>,
    count: int,
    request: RawHistoryJobSpec,
    owner: String,
    now: u64,
) -> bool
    decreases count,
{
    if count <= 0 {
        after.same_rows(before)
    } else {
        exists|reached: HistoryStore|
            records_claimed(before, reached, records, count - 1, request, owner, now)
                && #[trigger] record_claimed(
                reached,
                after,
                records[count - 1],
                request,
                owner,
                now,
            )
    }
}

proof fn lemma_another_claimed(
    before: HistoryStore,
    reached: HistoryStore,
    after: HistoryStore,
    records: Seq<SegmentRecord>,
    count: int,
    request: RawHistoryJobSpec,
    owner: String,
    now: u64,
)
    requires
        count >= 0,
        records_claimed(before, reached, records, count, request, owner, now),
        record_claimed(reached, after, records[count], request, owner, now),
    ensures
        records_claimed(before, after, records, count + 1, request, owner, now),
{
    assert(record_claimed(reached, after, records[count + 1 - 1], request, owner, now));
}

/// A listed segment was visited.
pub open spec fn record_claimed(
    before: HistoryStore,
    after: HistoryStore,
    record: SegmentRecord,
    request: RawHistoryJobSpec,
    owner: String,
    now: u64,
) -> bool {
    if is_claimable(before, record, request, owner@) {
        before.hold_accepted(
            after,
            record.metadata.id,
            SegmentOwnerKind::RawHistoryJob,
            owner,
            now,
        )
    } else {
        after.same_rows(before)
    }
}

/// All readable segments were visited in the order of the listing, or the
/// first hold that is refused ended the claim.
pub open spec fn claim_decided(
    before: HistoryStore,
    after: HistoryStore,
    records: Seq<SegmentRecord>,
    request: RawHistoryJobSpec,
    owner: String,
    now: u64,
    outcome: Result<u64, HistoryStoreError>,
) -> bool {
    &&& normal_list(closed_records(before.segments@, before.segments@.len() as int), records)
    &&& match outcome {
        Ok(claimed) => {
            &&& records_claimed(
                before,
                after,
                records,
                records.len() as int,
                request,
                owner,
                now,
            )
            &&& claimed == after.owners@.len() - before.owners@.len()
        },
        Err(error) => exists|reached: HistoryStore, count: int|
            0 <= count < records.len() && #[trigger] records_claimed(
                before,
                reached,
                records,
                count,
                request,
                owner,
                now,
            ) && is_claimable(reached, records[count], request, owner@)
                && reached.hold_refused(
                records[count].metadata.id,
                SegmentOwnerKind::RawHistoryJob,
                owner,
                now,
                error,
            ) && after.same_rows(reached),
    }
}

/// What claiming for a job that has not ended does.
pub open spec fn claim_outcome(
    before: HistoryStore,
    after: HistoryStore,
    at: int,
    job: Seq<char>,
    now: u64,
    outcome: Result<u64, HistoryStoreError>,
) -> bool {
    let request = before.jobs@[at].spec;
    &&& claims_made(before, after, at, job)
    &&& outcome is Ok <==> holds_all_compatible(before.segments@, after.owners@, request, job)
    &&& exists|records: Seq<SegmentRecord>, owner: String|
        #[trigger] claim_decided(before, after, records, request, owner, now, outcome)
            && owner@ == job
}

proof fn lemma_closed_records(segments: Seq<StoredSegment>, count: int)
    requires
        0 <= count <= segments.len(),
    ensures
        forall|i: int|
            0 <= i < count && !(#[trigger] segments[i]).deleting ==> closed_records(
                segments,
                count,
            ).contains(segments[i].record),
        forall|r: int|
            0 <= r < closed_records(segments, count).len() ==> exists|j: int|
                0 <= j < count && !(#[trigger] segments[j]).deleting && segments[j].record
                    == #[trigger] closed_records(segments, count)[r],
    decreases count,
{
    if count > 0 {
        lemma_closed_records(segments, count - 1);
        let before = closed_records(segments, count - 1);
        let all = closed_records(segments, count);
        assert forall|i: int| 0 <= i < count && !(#[trigger] segments[i]).deleting implies all.contains(
            segments[i].record,
        ) by {
            if i < count - 1 {
                assert(before.contains(segments[i].record));
                let r = choose|r: int| 0 <= r < before.len() && before[r] == segments[i].record;
                assert(all[r] == before[r]);
            } else {
                assert(all[all.len() - 1] == segments[i].record);
            }
        }
        assert forall|r: int| 0 <= r < all.len() implies exists|j: int|
            0 <= j < count && !(#[trigger] segments[j]).deleting && segments[j].record
                == #[trigger] all[r] by {
            if r < before.len() {
                assert(all[r] == before[r]);
                let j = choose|j: int|
                    0 <= j < count - 1 && !(#[trigger] segments[j]).deleting && segments[j].record
                        == before[r];
                assert(!segments[j].deleting && segments[j].record == all[r]);
            } else {
                assert(!segments[count - 1].deleting && segments[count - 1].record == all[r]);
            }
        }
    }
}

/// Every readable segment is in the ordered list of records.
proof fn lemma_listed(store: HistoryStore, records: Seq<SegmentRecord>, i: int)
    requires
        store.wf(),
        normal_list(closed_records(store.segments@, store.segments@.len() as int), records),
        0 <= i < store.segments@.len(),
        !store.segments@[i].deleting,
    ensures
        records.contains(store.segments@[i].record),
{
    let closed = closed_records(store.segments@, store.segments@.len() as int);
    let record = store.segments@[i].record;
    lemma_closed_records(store.segments@, store.segments@.len() as int);
    assert(closed.contains(record));
    let c = choose|c: int| 0 <= c < closed.len() && closed[c] == record;
    assert(closed[c].key() == record.key());
    assert(crate::order::has_key(closed, record.key()));
    assert(crate::order::has_key(records, record.key()));
    let r = choose|r: int| 0 <= r < records.len() && #[trigger] records[r].key() == record.key();
    assert(closed.contains(records[r]));
    let d = choose|d: int| 0 <= d < closed.len() && closed[d] == records[r];
    assert(closed[d] == records[r]);
    let j = choose|j: int|
        0 <= j < store.segments@.len() && !(#[trigger] store.segments@[j]).deleting
            && store.segments@[j].record == closed[d];
    assert(records[r].key().skip(24) =~= encode_utf8(records[r].metadata.id@));
    assert(record.key().skip(24) =~= encode_utf8(record.metadata.id@));
    vstd::utf8::encode_utf8_decode_utf8(records[r].metadata.id@);
    vstd::utf8::encode_utf8_decode_utf8(record.metadata.id@);
    assert(store.segments@[j].record.metadata.id@ == store.segments@[i].record.metadata.id@);
    assert(i == j);
}

impl HistoryStore {
    /// Takes a hold, for a job that has not ended, on every readable segment
    /// that it can use and does not hold yet, in the order of the listing.
    /// A hold that cannot be taken ends the claim; those taken before stay.
    pub fn claim_compatible_segments_for_raw_history_job(
        &mut self,
        id: &RawHistoryJobId,
        now: u64,
    ) -> (outcome: Result<u64, HistoryStoreError>)
        requires
            old(self).wf(),
        ensures
            final(self).wf(),
            final(self).same_material(*old(self)),
            match first_job(old(self).jobs@, id@, 0) {
                None => final(self).same_rows(*old(self)) && (outcome matches Err(error)
                    && is_unknown_job(error, id@)),
                Some(at) => {
                    let job = old(self).jobs@[at];
                    if job.state.terminal() {
                        final(self).same_rows(*old(self)) && (outcome matches Err(error)
                            && job.refused_by_state(error))
                    } else {
                        claim_outcome(*old(self), *final(self), at, id@, now, outcome)
                    }
                },
            },
    {
        let at: usize = self.required_job(id)?;
        if self.jobs[at].state.is_terminal() {
            return Err(self.jobs[at].state_error());
        }
        let ghost before = *self;
        let ghost request = self.jobs@[at as int].spec;
        let records: Vec<SegmentRecord> = self.segments();
        let name: String = id.as_str().to_owned();
        let mut claimed: u64 = 0;
        let mut index: usize = 0;
        proof {
            assert(self.owners@.take(before.owners@.len() as int) =~= before.owners@);
            assert(self.jobs@ =~= before.jobs@.update(at as int, self.jobs@[at as int]));
        }
        while index < records.len()
            invariant
                index <= records.len(),
                before == *old(self),
                before.wf(),
                self.wf(),
                self.same_material(before),
                at < self.jobs@.len(),
                self.jobs@.len() == before.jobs@.len(),
                first_job(before.jobs@, id@, 0) == Some(at as int),
                before.jobs@[at as int].id@ == id@,
                !before.jobs@[at as int].state.terminal(),
                name@ == id@,
                request == before.jobs@[at as int].spec,
                self.jobs@ == before.jobs@.update(at as int, self.jobs@[at as int]),
                self.jobs@[at as int].spec == request,
                self.jobs@[at as int].id@ == id@,
                normal_list(
                    closed_records(before.segments@, before.segments@.len() as int),
                    records@,
                ),
                claimed <= index,
                claimed == self.owners@.len() - before.owners@.len(),
                only_claims_added(before, *self, request, id@),
                records_claimed(before, *self, records@, index as int, request, name, now),
                forall|r: int|
                    0 <= r < index && segment_serves(#[trigger] records@[r], request) ==> owned_by(
                        self.owners@,
                        records@[r].metadata.id@,
                        SegmentOwnerKind::RawHistoryJob,
                        id@,
                    ),
            decreases records@.len() - index,
        {
            let record: &SegmentRecord = &records[index];
            let ghost reached = *self;
            if segment_is_compatible(record, &self.jobs[at].spec) && !self.is_owner(
                &record.metadata.id,
                SegmentOwnerKind::RawHistoryJob,
                id.as_str(),
            ) {
                let ghost held = *self;
                proof {
                    assert(held.jobs@ == before.jobs@.update(at as int, held.jobs@[at as int]));
                    assert(held.jobs@.len() == before.jobs@.len());
                    lemma_record_is_closed(before, records@, index as int, request);
                    lemma_first_job(held.jobs@, id@, 0);
                    let found = first_job(held.jobs@, id@, 0)->0;
                    assert(held.jobs@[at as int].id@ == id@);
                    assert(found == at);
                }
                if let Err(error) = self.add_owner(
                    &record.metadata.id,
                    SegmentOwnerKind::RawHistoryJob,
                    &name,
                    now,
                ) {
                    proof {
                        let i = choose|i: int|
                            0 <= i < before.segments@.len() && (
                            #[trigger] before.segments@[i]).is_closed(record.metadata.id@)
                                && segment_serves(before.segments@[i].record, request);
                        assert(!before.segments@[i].deleting);
                        assert(!owned_by(
                            self.owners@,
                            before.segments@[i].record.metadata.id@,
                            SegmentOwnerKind::RawHistoryJob,
                            id@,
                        ));
                        assert(records_claimed(
                            before,
                            reached,
                            records@,
                            index as int,
                            request,
                            name,
                            now,
                        ));
                        assert(claim_decided(
                            before,
                            *self,
                            records@,
                            request,
                            name,
                            now,
                            Err::<u64, HistoryStoreError>(error),
                        ));
                    }
                    return Err(error);
                }
                claimed += 1;
                proof {
                    let k = before.owners@.len() as int;
                    assert(self.owners@.drop_last() == held.owners@);
                    assert(self.owners@.take(k) =~= before.owners@) by {
                        assert(held.owners@.take(k) =~= before.owners@);
                        assert forall|i: int| 0 <= i < k implies self.owners@[i]
                            == before.owners@[i] by {
                            assert(self.owners@.drop_last()[i] == held.owners@[i]);
                            assert(held.owners@.take(k)[i] == before.owners@[i]);
                        }
                    }
                    assert forall|i: int| k <= i < self.owners@.len() implies (
                    #[trigger] self.owners@[i]).kind == SegmentOwnerKind::RawHistoryJob
                        && self.owners@[i].owner_id@ == id@ && serves_by_name(
                        before.segments@,
                        request,
                        self.owners@[i].segment_id@,
                    ) by {
                        if i < held.owners@.len() {
                            assert(self.owners@.drop_last()[i] == held.owners@[i]);
                        } else {
                            assert(self.owners@[i] == self.owners@.last());
                        }
                    }
                    assert forall|r: int|
                        0 <= r < index && segment_serves(
                            #[trigger] records@[r],
                            request,
                        ) implies owned_by(
                        self.owners@,
                        records@[r].metadata.id@,
                        SegmentOwnerKind::RawHistoryJob,
                        id@,
                    ) by {
                        assert(owned_by(
                            held.owners@,
                            records@[r].metadata.id@,
                            SegmentOwnerKind::RawHistoryJob,
                            id@,
                        ));
                        let o = choose|o: int|
                            0 <= o < held.owners@.len() && (#[trigger] held.owners@[o]).holds(
                                records@[r].metadata.id@,
                                SegmentOwnerKind::RawHistoryJob,
                                id@,
                            );
                        assert(self.owners@.drop_last()[o] == self.owners@[o]);
                        assert(self.owners@[o].holds(
                            records@[r].metadata.id@,
                            SegmentOwnerKind::RawHistoryJob,
                            id@,
                        ));
                    }
                    assert(owned_by(
                        self.owners@,
                        record.metadata.id@,
                        SegmentOwnerKind::RawHistoryJob,
                        id@,
                    )) by {
                        assert(self.owners@[self.owners@.len() - 1].holds(
                            record.metadata.id@,
                            SegmentOwnerKind::RawHistoryJob,
                            id@,
                        ));
                    }
                    assert(first_job(held.jobs@, name@, 0) == Some(at as int));
                    assert(self.jobs@ == held.jobs@.update(at as int, self.jobs@[at as int]));
                    assert forall|i: int| 0 <= i < self.jobs@.len() implies self.jobs@[i]
                        == before.jobs@.update(at as int, self.jobs@[at as int])[i] by {
                        if i != at {
                            assert(self.jobs@[i] == held.jobs@[i]);
                            assert(held.jobs@[i] == before.jobs@[i]);
                        }
                    }
                    assert(self.jobs@ =~= before.jobs@.update(at as int, self.jobs@[at as int]));
                }
            }
            proof {
                assert(record_claimed(reached, *self, *record, request, name, now));
                lemma_another_claimed(
                    before,
                    reached,
                    *self,
                    records@,
                    index as int,
                    request,
                    name,
                    now,
                );
            }
            index += 1;
        }
        proof {
            assert(claim_decided(
                before,
                *self,
                records@,
                request,
                name,
                now,
                Ok::<u64, HistoryStoreError>(claimed),
            ));
            assert forall|i: int|
                0 <= i < before.segments@.len() && !(#[trigger] before.segments@[i]).deleting
                    && segment_serves(before.segments@[i].record, request) implies owned_by(
                self.owners@,
                before.segments@[i].record.metadata.id@,
                SegmentOwnerKind::RawHistoryJob,
                id@,
            ) by {
                lemma_listed(before, records@, i);
                let r = choose|r: int|
                    0 <= r < records@.len() && records@[r] == before.segments@[i].record;
                assert(segment_serves(records@[r], request));
            }
        }
        Ok(claimed)
    }
}

/// A listed record that serves is a readable segment that serves.
proof fn lemma_record_is_closed(
    store: HistoryStore,
    records: Seq<SegmentRecord>,
    r: int,
    request: RawHistoryJobSpec,
)
    requires
        normal_list(closed_records(store.segments@, store.segments@.len() as int), records),
        0 <= r < records.len(),
        segment_serves(records[r], request),
    ensures
        serves_by_name(store.segments@, request, records[r].metadata.id@),
{
    let closed = closed_records(store.segments@, store.segments@.len() as int);
    lemma_closed_records(store.segments@, store.segments@.len() as int);
    assert(closed.contains(records[r]));
    let c = choose|c: int| 0 <= c < closed.len() && closed[c] == records[r];
    assert(closed[c] == records[r]);
    let j = choose|j: int|
        0 <= j < store.segments@.len() && !(#[trigger] store.segments@[j]).deleting
            && store.segments@[j].record == closed[c];
    assert(store.segments@[j].is_closed(records[r].metadata.id@));
}

} // verus!
