//! Steps of a run: starting it, choosing the next range, writing one segment
//! from a source, and deciding after an attempt.

use crate::bytes::same_array;
use crate::frame::{BlockFrame, FrameCapabilities};
use crate::history::catalog::{
    first_bad_owner, first_job, first_reserved, is_owner_id, HistoryStore, ReservedSegment,
    SegmentOwnerClaim, SegmentReservation,
};
use crate::history::error::{CatalogProblem, HistoryStoreError, JobProblem};
use crate::history::execution::frame_fault;
use crate::history::job::{normal_list, RawHistoryJobId, RawHistoryJobSpec, StorageLimitAction};
use crate::history::layout::{entry_bytes, SegmentDescriptor, SegmentError, SegmentId};
use crate::history::lifecycle::{RawHistoryJob, RawHistoryJobState};
use crate::history::ownership::lemma_first_reserved;
use crate::history::pending::{
    law_release_undoes_admission, AdmissionUsage, PendingSegment,
};
use crate::history::publish::{CommitFailure, PublishedSegment};
use crate::history::rows::{fits_column, row_holds, SegmentOwnerKind};
use crate::history::runner::{
    is_attempt_error, segment_id, segment_name, source_attempt_error, source_error_retryable,
    verification_policy, policy_of, AcquireError, RawHistoryRunError, RawHistoryRunOutcome,
    RawHistorySourceSet, SourceEntry, SourceProblem, SourceReason,
};
use crate::history::segment::{closing_bytes, AppendedRecord};
use crate::history::store_jobs::{claim_outcome, is_unknown_job};
use crate::order::{has_key, lemma_irreflexive, precedes, Keyed};
use crate::primitives::{BlockRange, CapabilitySet, Finality, TrustModel};
use crate::request::{DataRequest, FinalityModel, SourceBudget, SourceError};
use crate::text::{hex_encode, hex_text, same_text};
use vstd::prelude::*;

verus! {

/// Runs the jobs of one store, each at most once at a time.
#[derive(Debug)]
pub struct RawHistoryRunner {
    pub sources: RawHistorySourceSet,
    pub source_budget: SourceBudget,
    /// Jobs that are being run.
    pub active: Vec<String>,
}

/// Some entry has this text.
pub open spec fn names_text(names: Seq<String>, text: Seq<char>) -> bool {
    exists|i: int| 0 <= i < names.len() && #[trigger] names[i]@ == text
}

impl RawHistoryRunner {
    /// No job is run twice.
    pub open spec fn wf(self) -> bool {
        forall|i: int, j: int|
            0 <= i < j < self.active@.len() ==> (#[trigger] self.active@[i])@ != (
            #[trigger] self.active@[j])@
    }

    /// Constructs a runner with a validated source budget.
    pub fn new(sources: RawHistorySourceSet, source_budget: SourceBudget) -> (outcome: Result<
        RawHistoryRunner,
        RawHistoryRunError,
    >)
        ensures
            match outcome {
                Ok(runner) => {
                    &&& source_budget.wf()
                    &&& runner.sources == sources
                    &&& runner.source_budget == source_budget
                    &&& runner.active@.len() == 0
                    &&& runner.wf()
                },
                Err(error) => !source_budget.wf() && error == RawHistoryRunError::InvalidSourceSet(
                    "source budget limits must be non-zero",
                ),
            },
    {
        if source_budget.validate().is_err() {
            return Err(RawHistoryRunError::InvalidSourceSet("source budget limits must be non-zero"));
        }
        Ok(RawHistoryRunner { sources, source_budget, active: Vec::new() })
    }

    pub fn source_policy_digest(&self) -> (digest: [u8; 32])
        ensures
            digest == self.sources.digest,
    {
        self.sources.policy_digest()
    }

    fn position(&self, id: &str) -> (at: Option<usize>)
        ensures
            match at {
                Some(at) => at < self.active@.len() && self.active@[at as int]@ == id@,
                None => !names_text(self.active@, id@),
            },
    {
        let mut index: usize = 0;
        while index < self.active.len()
            invariant
                index <= self.active.len(),
                forall|i: int| 0 <= i < index ==> (#[trigger] self.active@[i])@ != id@,
            decreases self.active.len() - index,
        {
            if same_text(self.active[index].as_str(), id) {
                return Some(index);
            }
            index += 1;
        }
        None
    }

    /// Enters a run, unless the job is being run already.
    pub fn enter(&mut self, id: &RawHistoryJobId) -> (outcome: Result<(), RawHistoryRunError>)
        requires
            old(self).wf(),
        ensures
            final(self).wf(),
            final(self).sources == old(self).sources,
            final(self).source_budget == old(self).source_budget,
            if names_text(old(self).active@, id@) {
                &&& final(self).active@ == old(self).active@
                &&& outcome matches Err(RawHistoryRunError::ConcurrentRun(name)) && name@ == id@
            } else {
                &&& outcome == Ok::<(), RawHistoryRunError>(())
                &&& final(self).active@.len() == old(self).active@.len() + 1
                &&& final(self).active@.drop_last() == old(self).active@
                &&& final(self).active@.last()@ == id@
            },
    {
        if let Some(at) = self.position(id.as_str()) {
            assert(self.active@[at as int]@ == id@);
            return Err(RawHistoryRunError::ConcurrentRun(id.as_str().to_owned()));
        }
        self.active.push(id.as_str().to_owned());
        assert(self.active@.drop_last() =~= old(self).active@);
        Ok(())
    }

    /// Leaves a run.
    pub fn leave(&mut self, id: &RawHistoryJobId)
        requires
            old(self).wf(),
        ensures
            final(self).wf(),
            final(self).sources == old(self).sources,
            final(self).source_budget == old(self).source_budget,
            !names_text(final(self).active@, id@),
            forall|text: Seq<char>|
                text != id@ ==> (#[trigger] names_text(final(self).active@, text) <==> names_text(
                    old(self).active@,
                    text,
                )),
    {
        if let Some(at) = self.position(id.as_str()) {
            let ghost before = self.active@;
            self.active.remove(at);
            proof {
                let after = self.active@;
                assert forall|i: int| 0 <= i < after.len() implies (#[trigger] after[i])@
                    != id@ by {
                    let from = if i < at { i } else { i + 1 };
                    assert(after[i] == before[from]);
                }
                assert forall|i: int, j: int| 0 <= i < j < after.len() implies (
                #[trigger] after[i])@ != (#[trigger] after[j])@ by {
                    let from = if i < at { i } else { i + 1 };
                    let to = if j < at { j } else { j + 1 };
                    assert(after[i] == before[from] && after[j] == before[to]);
                }
                assert forall|text: Seq<char>| text != id@ implies (#[trigger] names_text(
                    after,
                    text,
                ) <==> names_text(before, text)) by {
                    if names_text(before, text) {
                        let i = choose|i: int|
                            0 <= i < before.len() && #[trigger] before[i]@ == text;
                        let to = if i < at { i } else { i - 1 };
                        assert(after[to] == before[i]);
                    }
                    if names_text(after, text) {
                        let i = choose|i: int| 0 <= i < after.len() && #[trigger] after[i]@ == text;
                        let from = if i < at { i } else { i + 1 };
                        assert(after[i] == before[from]);
                    }
                }
            }
        }
    }
}

/// What a run does at its start.
#[derive(Debug)]
pub enum RunStart {
    Complete(RawHistoryJob),
    Cancelled(RawHistoryJob),
    Started,
}

/// What a run does next.
#[derive(Debug)]
pub enum RunStep {
    Finish(RawHistoryRunOutcome),
    /// Acquire the first `blocks` heights of a range that is left. On storage
    /// pressure the job asks for `on_limit`.
    Acquire { remaining: BlockRange, blocks: u64, on_limit: StorageLimitAction },
}

/// The run is refused because the job has failed.
pub open spec fn is_failed_refusal(error: RawHistoryRunError, job: RawHistoryJob) -> bool {
    match error {
        RawHistoryRunError::Store(refusal) => job.refused_by_state(refusal),
        _ => false,
    }
}

/// The run is refused because there is no such job.
pub open spec fn is_unknown_refusal(error: RawHistoryRunError, id: Seq<char>) -> bool {
    match error {
        RawHistoryRunError::Store(refusal) => is_unknown_job(refusal, id),
        _ => false,
    }
}

/// The text that a job is failed with when its policy has changed.
pub open spec fn policy_message(expected: Seq<char>, configured: Seq<char>) -> Seq<char> {
    "raw-history job source policy changed: expected "@ + expected + ", configured "@ + configured
}

/// The refusal of a run whose sources are not those of the job.
pub open spec fn is_policy_refusal(
    error: RawHistoryRunError,
    expected: [u8; 32],
    configured: [u8; 32],
) -> bool {
    match error {
        RawHistoryRunError::SourcePolicyChanged { expected: old_digest, configured: new_digest } => {
            old_digest@ == hex_text(expected@) && new_digest@ == hex_text(configured@)
        },
        _ => false,
    }
}

/// The most blocks that a segment of a job may take.
pub open spec fn maximum_blocks(job: RawHistoryJob, budget: SourceBudget) -> u64 {
    let smaller = if job.spec.segment.target_blocks <= budget.max_frames {
        job.spec.segment.target_blocks
    } else {
        budget.max_frames
    };
    if smaller == 0 {
        1
    } else {
        smaller
    }
}

/// The size of the next segment.
pub open spec fn first_blocks(job: RawHistoryJob, budget: SourceBudget) -> u64 {
    let left = job.remaining_ranges@[0].spec_len();
    if left <= maximum_blocks(job, budget) {
        left
    } else {
        maximum_blocks(job, budget)
    }
}

impl HistoryStore {
    /// Starts a run: takes over what is already retained, refuses sources
    /// other than those of the job, which then has failed, and counts the
    /// attempt.
    pub fn begin_run(&mut self, id: &RawHistoryJobId, policy_digest: [u8; 32], now: u64) -> (outcome:
        Result<RunStart, RawHistoryRunError>)
        requires
            old(self).wf(),
        ensures
            final(self).wf(),
            match first_job(old(self).jobs@, id@, 0) {
                None => final(self).same_rows(*old(self)) && (outcome matches Err(error)
                    && is_unknown_refusal(error, id@)),
                Some(at) => {
                    let job = old(self).jobs@[at];
                    if job.state is Complete {
                        final(self).same_rows(*old(self)) && (outcome matches Ok(
                            RunStart::Complete(held),
                        ) && held.alike(job))
                    } else if job.state is Cancelled {
                        final(self).same_rows(*old(self)) && (outcome matches Ok(
                            RunStart::Cancelled(held),
                        ) && held.alike(job))
                    } else if job.state is Failed {
                        final(self).same_rows(*old(self)) && (outcome matches Err(error)
                            && is_failed_refusal(error, job))
                    } else {
                        exists|claimed: HistoryStore, claim: Result<u64, HistoryStoreError>|
                            #[trigger] claim_outcome(*old(self), claimed, at, id@, now, claim)
                                && match claim {
                                Ok(_) => claimed.run_started(
                                    *final(self),
                                    at,
                                    policy_digest,
                                    now,
                                    outcome,
                                ),
                                Err(problem) => final(self).same_rows(claimed) && outcome
                                    == Err::<RunStart, RawHistoryRunError>(
                                    RawHistoryRunError::Store(problem),
                                ),
                            }
                    }
                },
            },
    {
        let at: usize = match self.find_job(id.as_str()) {
            Some(at) => at,
            None => {
                return Err(
                    RawHistoryRunError::Store(
                        HistoryStoreError::UnknownJob(id.as_str().to_owned()),
                    ),
                );
            },
        };
        match self.jobs[at].state {
            RawHistoryJobState::Complete => {
                return Ok(RunStart::Complete(self.jobs[at].clone()));
            },
            RawHistoryJobState::Cancelled => {
                return Ok(RunStart::Cancelled(self.jobs[at].clone()));
            },
            RawHistoryJobState::Failed => {
                return Err(RawHistoryRunError::Store(self.jobs[at].state_error()));
            },
            _ => {},
        }
        let claim: Result<u64, HistoryStoreError> =
            self.claim_compatible_segments_for_raw_history_job(id, now);
        let ghost claimed = *self;
        assert(claim_outcome(*old(self), claimed, at as int, id@, now, claim));
        if let Err(error) = claim {
            return Err(RawHistoryRunError::Store(error));
        }
        proof {
            crate::history::ownership::lemma_first_job(claimed.jobs@, id@, 0);
            let found = first_job(claimed.jobs@, id@, 0)->0;
            assert(claimed.jobs@[at as int].id@ == id@);
            assert(claimed.jobs@[found].id@ == claimed.jobs@[at as int].id@);
            assert(found == at);
        }
        if self.jobs[at].state == RawHistoryJobState::Complete {
            return Ok(RunStart::Complete(self.jobs[at].clone()));
        }
        if !same_array(&self.jobs[at].spec.source_policy_digest, &policy_digest) {
            let expected: String = hex_encode(&self.jobs[at].spec.source_policy_digest);
            let configured: String = hex_encode(&policy_digest);
            let refusal: RawHistoryRunError = RawHistoryRunError::SourcePolicyChanged {
                expected,
                configured,
            };
            if let Err(error) = self.fail_raw_history_job(id, refusal.message(), now) {
                return Err(RawHistoryRunError::Store(error));
            }
            return Err(refusal);
        }
        match self.start_raw_history_job(id, now) {
            Ok(_) => Ok(RunStart::Started),
            Err(error) => Err(RawHistoryRunError::Store(error)),
        }
    }

    /// What a run's start makes of a job once it has claimed what is retained.
    pub open spec fn run_started(
        self,
        after: HistoryStore,
        at: int,
        policy_digest: [u8; 32],
        now: u64,
        outcome: Result<RunStart, RawHistoryRunError>,
    ) -> bool {
        let job = self.jobs@[at];
        if job.state is Complete {
            after.same_rows(self) && (outcome matches Ok(RunStart::Complete(held)) && held.alike(job))
        } else {
            &&& self.only_job_changed(after, at)
            &&& if !fits_column(now) {
                after.jobs@[at] == job && outcome == Err::<RunStart, RawHistoryRunError>(
                    RawHistoryRunError::Store(HistoryStoreError::NumericRange("job update time")),
                )
            } else if job.state.terminal() {
                after.jobs@[at] == job && (outcome matches Err(error) && is_failed_refusal(
                    error,
                    job,
                ))
            } else if job.spec.source_policy_digest != policy_digest {
                &&& failed_by_policy(job, after.jobs@[at], policy_digest, now)
                &&& outcome matches Err(error) && is_policy_refusal(
                    error,
                    job.spec.source_policy_digest,
                    policy_digest,
                )
            } else if job.attempts == u64::MAX {
                after.jobs@[at] == job && outcome == Err::<RunStart, RawHistoryRunError>(
                    RawHistoryRunError::Store(HistoryStoreError::ArithmeticOverflow),
                )
            } else {
                &&& after.jobs@[at] == (RawHistoryJob {
                    state: RawHistoryJobState::Running,
                    attempts: (job.attempts + 1) as u64,
                    last_error: None,
                    updated_at_unix_ms: now,
                    ..job
                })
                &&& outcome is Ok && outcome->Ok_0 is Started
            }
        }
    }

    /// Decides what a started run does next.
    pub fn next_step(
        &mut self,
        id: &RawHistoryJobId,
        budget: SourceBudget,
        cancelled: bool,
        now: u64,
    ) -> (outcome: Result<RunStep, RawHistoryRunError>)
        requires
            old(self).wf(),
        ensures
            final(self).wf(),
            match first_job(old(self).jobs@, id@, 0) {
                None => final(self).same_rows(*old(self)) && (outcome matches Err(error)
                    && is_unknown_refusal(error, id@)),
                Some(at) => {
                    let job = old(self).jobs@[at];
                    if job.state is Complete || job.state is Cancelled {
                        &&& final(self).same_rows(*old(self))
                        &&& if job.state is Complete {
                            outcome matches Ok(
                                RunStep::Finish(RawHistoryRunOutcome::Complete(held)),
                            ) && held.alike(job)
                        } else {
                            outcome matches Ok(
                                RunStep::Finish(RawHistoryRunOutcome::Cancelled(held)),
                            ) && held.alike(job)
                        }
                    } else if job.state is Failed {
                        final(self).same_rows(*old(self)) && (outcome matches Err(error)
                            && is_failed_refusal(error, job))
                    } else if cancelled {
                        final(self).same_rows(*old(self)) && (outcome matches Ok(
                            RunStep::Finish(RawHistoryRunOutcome::Interrupted(held)),
                        ) && held.alike(job))
                    } else if job.remaining_ranges@.len() > 0 {
                        final(self).same_rows(*old(self)) && outcome == Ok::<
                            RunStep,
                            RawHistoryRunError,
                        >(
                            RunStep::Acquire {
                                remaining: job.remaining_ranges@[0],
                                blocks: first_blocks(job, budget),
                                on_limit: job.spec.segment.on_limit,
                            },
                        )
                    } else {
                        let owned = crate::history::ownership::all_owned(
                            old(self).segments@,
                            old(self).owners@,
                            id@,
                        );
                        &&& old(self).only_job_changed(*final(self), at)
                        &&& match outcome {
                            Ok(step) => {
                                &&& step matches RunStep::Finish(
                                    RawHistoryRunOutcome::Complete(held),
                                ) && held.alike(final(self).jobs@[at])
                                &&& crate::history::ownership::job_advanced(
                                    job,
                                    final(self).jobs@[at],
                                    owned,
                                    now,
                                )
                            },
                            Err(error) => {
                                &&& final(self).jobs@[at] == job
                                &&& error matches RawHistoryRunError::Store(problem) && Some(problem)
                                    == crate::history::lifecycle::progress_problem(owned, now)
                            },
                        }
                    }
                },
            },
    {
        let at: usize = match self.find_job(id.as_str()) {
            Some(at) => at,
            None => {
                return Err(
                    RawHistoryRunError::Store(
                        HistoryStoreError::UnknownJob(id.as_str().to_owned()),
                    ),
                );
            },
        };
        match self.jobs[at].state {
            RawHistoryJobState::Complete => {
                return Ok(RunStep::Finish(RawHistoryRunOutcome::Complete(self.jobs[at].clone())));
            },
            RawHistoryJobState::Cancelled => {
                return Ok(RunStep::Finish(RawHistoryRunOutcome::Cancelled(self.jobs[at].clone())));
            },
            RawHistoryJobState::Failed => {
                return Err(RawHistoryRunError::Store(self.jobs[at].state_error()));
            },
            _ => {},
        }
        if cancelled {
            return Ok(RunStep::Finish(RawHistoryRunOutcome::Interrupted(self.jobs[at].clone())));
        }
        if self.jobs[at].remaining_ranges.len() == 0 {
            return match self.reconcile_raw_history_job(id, now) {
                Ok(held) => Ok(RunStep::Finish(RawHistoryRunOutcome::Complete(held))),
                Err(error) => Err(RawHistoryRunError::Store(error)),
            };
        }
        let remaining: BlockRange = self.jobs[at].remaining_ranges[0];
        let target: u64 = self.jobs[at].spec.segment.target_blocks;
        let smaller: u64 = if target <= budget.max_frames {
            target
        } else {
            budget.max_frames
        };
        let maximum: u64 = if smaller == 0 {
            1
        } else {
            smaller
        };
        let left: u64 = remaining.len();
        let blocks: u64 = if left <= maximum {
            left
        } else {
            maximum
        };
        let on_limit: StorageLimitAction = self.jobs[at].spec.segment.on_limit;
        Ok(RunStep::Acquire { remaining, blocks, on_limit })
    }
}

/// The job has failed because its policy has changed.
pub open spec fn failed_by_policy(
    before: RawHistoryJob,
    after: RawHistoryJob,
    policy_digest: [u8; 32],
    now: u64,
) -> bool {
    &&& after.last_error matches Some(text) && text@ == policy_message(
        hex_text(before.spec.source_policy_digest@),
        hex_text(policy_digest@),
    )
    &&& after == (RawHistoryJob {
        state: RawHistoryJobState::Failed,
        last_error: after.last_error,
        updated_at_unix_ms: now,
        ..before
    })
}

/// What a run does after an attempt that failed.
#[derive(Debug)]
pub enum AttemptDecision {
    /// Try again with fewer blocks.
    Retry { blocks: u64 },
    Interrupted,
    /// Record storage pressure, and stop.
    Backpressure(HistoryStoreError),
    /// Record that the job has failed, and return the error.
    Fail(RawHistoryRunError),
    /// Return the error; the job may be resumed.
    Return(RawHistoryRunError),
}

/// Whether the store's budget is what refused.
pub open spec fn is_budget_refusal(error: HistoryStoreError) -> bool {
    error is LogicalBudget || error is PhysicalBudget
}

/// What follows from an attempt that failed: too large a segment is halved
/// down to one block, storage pressure pauses or fails the job as it asks,
/// sources that may come back leave it as it is, and anything else fails it.
pub open spec fn attempt_decision(
    error: AcquireError,
    range: BlockRange,
    blocks: u64,
    on_limit: StorageLimitAction,
) -> AttemptDecision {
    match error {
        AcquireError::Resize => if blocks > 1 {
            AttemptDecision::Retry { blocks: ((blocks + 1) / 2) as u64 }
        } else {
            AttemptDecision::Fail(
                RawHistoryRunError::Store(
                    HistoryStoreError::InvalidJob(
                        JobProblem::BlockTooLarge { start: range.start, end: range.end },
                    ),
                ),
            )
        },
        AcquireError::Interrupted => AttemptDecision::Interrupted,
        AcquireError::Store(error) => if is_budget_refusal(error) && on_limit
            == StorageLimitAction::Pause {
            AttemptDecision::Backpressure(error)
        } else {
            AttemptDecision::Fail(RawHistoryRunError::Store(error))
        },
        AcquireError::Sources { reasons, retryable } => if retryable {
            AttemptDecision::Return(RawHistoryRunError::SourcesUnavailable { range, reasons })
        } else {
            AttemptDecision::Fail(RawHistoryRunError::NoCompatibleSource { range, reasons })
        },
    }
}

/// Decides after an attempt that failed.
pub fn decide_after_attempt(
    error: AcquireError,
    range: BlockRange,
    blocks: u64,
    on_limit: StorageLimitAction,
) -> (decision: AttemptDecision)
    requires
        blocks > 0,
    ensures
        decision == attempt_decision(error, range, blocks, on_limit),
        decision matches AttemptDecision::Retry { blocks: fewer } ==> 0 < fewer < blocks,
{
    match error {
        AcquireError::Resize => {
            if blocks > 1 {
                AttemptDecision::Retry { blocks: blocks / 2 + blocks % 2 }
            } else {
                AttemptDecision::Fail(
                    RawHistoryRunError::Store(
                        HistoryStoreError::InvalidJob(
                            JobProblem::BlockTooLarge { start: range.start, end: range.end },
                        ),
                    ),
                )
            }
        },
        AcquireError::Interrupted => AttemptDecision::Interrupted,
        AcquireError::Store(error) => {
            let budget = match &error {
                HistoryStoreError::LogicalBudget { .. } => true,
                HistoryStoreError::PhysicalBudget { .. } => true,
                _ => false,
            };
            if budget && on_limit == StorageLimitAction::Pause {
                AttemptDecision::Backpressure(error)
            } else {
                AttemptDecision::Fail(RawHistoryRunError::Store(error))
            }
        },
        AcquireError::Sources { reasons, retryable } => {
            if retryable {
                AttemptDecision::Return(RawHistoryRunError::SourcesUnavailable { range, reasons })
            } else {
                AttemptDecision::Fail(RawHistoryRunError::NoCompatibleSource { range, reasons })
            }
        },
    }
}

/// The request for one segment of a job.
pub fn segment_request(request: &RawHistoryJobSpec, range: BlockRange) -> (asked: DataRequest)
    ensures
        asked.chain_id == request.chain_id,
        asked.range == range,
        asked.required == request.required_capabilities,
        asked.allow_filtered == request.material.allow_filtered,
        asked.projection.alike(request.material.projection),
        asked.log_fields == request.material.log_fields,
        asked.filters.alike(request.material.filters),
        asked.minimum_finality == Finality::Finalized,
        asked.verification_policy == policy_of(request.verification),
{
    DataRequest {
        chain_id: request.chain_id,
        range,
        required: request.required_capabilities,
        allow_filtered: request.material.allow_filtered,
        projection: request.material.projection.clone(),
        log_fields: request.material.log_fields,
        filters: request.material.filters.clone(),
        minimum_finality: Finality::Finalized,
        verification_policy: verification_policy(request.verification),
    }
}

/// A source whose descriptor can serve a job.
pub open spec fn source_serves(source: SourceEntry, request: RawHistoryJobSpec) -> bool {
    &&& source.chain_id == request.chain_id
    &&& source.finality == FinalityModel::Finalized
    &&& source.complete_capabilities.derivable().has_all(request.required_capabilities)
    &&& source.trust.spec_rank() >= request.minimum_trust.spec_rank()
}

pub fn source_is_compatible(source: &SourceEntry, request: &RawHistoryJobSpec) -> (serves: bool)
    ensures
        serves == source_serves(*source, *request),
{
    source.chain_id == request.chain_id && source.finality == FinalityModel::Finalized
        && source.complete_capabilities.with_derivable().contains_all(
        request.required_capabilities,
    ) && source.trust.rank() >= request.minimum_trust.rank()
}

/// A plan that gives a job what it needs.
pub open spec fn plan_serves(
    complete: CapabilitySet,
    trust: TrustModel,
    request: RawHistoryJobSpec,
) -> bool {
    &&& complete.derivable().has_all(request.required_capabilities)
    &&& trust.spec_rank() >= request.minimum_trust.spec_rank()
}

pub fn plan_is_complete(complete: CapabilitySet, trust: TrustModel, request: &RawHistoryJobSpec) -> (
    serves: bool)
    ensures
        serves == plan_serves(complete, trust, *request),
{
    complete.with_derivable().contains_all(request.required_capabilities) && trust.rank()
        >= request.minimum_trust.rank()
}

/// Why sources did not serve so far.
#[derive(Debug)]
pub struct Attempts {
    pub reasons: Vec<SourceReason>,
    pub retryable: bool,
}

impl Attempts {
    pub fn new() -> (attempts: Attempts)
        ensures
            attempts.reasons@.len() == 0,
            !attempts.retryable,
    {
        Attempts { reasons: Vec::new(), retryable: false }
    }

    /// Notes what became of one source, before it was opened.
    pub fn note(&mut self, source_id: &String, problem: SourceProblem)
        ensures
            final(self).reasons@ == old(self).reasons@.push(
                SourceReason { source_id: *source_id, problem },
            ),
            final(self).retryable == (old(self).retryable || (
            problem matches SourceProblem::Error(error) && crate::history::runner::is_retryable(
                error,
            ))),
    {
        let retryable = match &problem {
            SourceProblem::Error(error) => source_error_retryable(error),
            _ => false,
        };
        self.retryable = self.retryable || retryable;
        self.reasons.push(SourceReason { source_id: source_id.clone(), problem });
    }

    /// Notes that a source failed while it was streamed. Anything else ends
    /// the acquisition.
    pub fn absorb(&mut self, error: AcquireError) -> (ended: Option<AcquireError>)
        ensures
            match error {
                AcquireError::Sources { reasons, retryable } => {
                    &&& ended is None
                    &&& final(self).reasons@ == old(self).reasons@ + reasons@
                    &&& final(self).retryable == (old(self).retryable || retryable)
                },
                other => ended == Some(other) && *final(self) == *old(self),
            },
    {
        match error {
            AcquireError::Sources { reasons, retryable } => {
                let mut more: Vec<SourceReason> = reasons;
                self.reasons.append(&mut more);
                self.retryable = self.retryable || retryable;
                None
            },
            other => Some(other),
        }
    }

    /// The end of an acquisition that no source served.
    pub fn exhausted(self) -> (error: AcquireError)
        ensures
            error == (AcquireError::Sources {
                reasons: self.reasons,
                retryable: self.retryable,
            }),
    {
        AcquireError::Sources { reasons: self.reasons, retryable: self.retryable }
    }
}

/// One segment that is being acquired from one source.
pub struct SegmentAcquisition {
    pub job_id: String,
    pub source_id: String,
    pub request: RawHistoryJobSpec,
    pub segment_id: SegmentId,
    pub range: BlockRange,
    pub trust: TrustModel,
    pub pending: Option<PendingSegment>,
}

/// Refusals of a frame that a smaller segment may avoid.
pub open spec fn asks_for_resize(error: SegmentError) -> bool {
    error is SegmentLogicalBudget || error is SegmentPhysicalBudget || error is CapabilityMismatch
}

/// What a refused frame means for the acquisition.
pub open spec fn append_error(error: HistoryStoreError) -> AcquireError {
    match error {
        HistoryStoreError::Segment(refusal) => if asks_for_resize(refusal) {
            AcquireError::Resize
        } else {
            AcquireError::Store(error)
        },
        other => AcquireError::Store(other),
    }
}

fn append_refused(error: HistoryStoreError) -> (result: AcquireError)
    ensures
        result == append_error(error),
{
    let resize = match &error {
        HistoryStoreError::Segment(SegmentError::SegmentLogicalBudget { .. }) => true,
        HistoryStoreError::Segment(SegmentError::SegmentPhysicalBudget { .. }) => true,
        HistoryStoreError::Segment(SegmentError::CapabilityMismatch) => true,
        _ => false,
    };
    if resize {
        AcquireError::Resize
    } else {
        AcquireError::Store(error)
    }
}

impl SegmentAcquisition {
    /// The segment being written is sound, and the reservation of its name is
    /// its own.
    pub open spec fn inv(self, store: HistoryStore) -> bool {
        &&& self.range.wf()
        &&& self.pending matches Some(pending) ==> {
            &&& pending.inv()
            &&& pending.id@ == self.segment_id@
            &&& pending.holds_own_reservation(store)
        }
    }

    /// Everything but the segment being written is as it was.
    pub open spec fn same_identity(self, other: SegmentAcquisition) -> bool {
        &&& self.job_id == other.job_id
        &&& self.source_id == other.source_id
        &&& self.request == other.request
        &&& self.segment_id == other.segment_id
        &&& self.range == other.range
        &&& self.trust == other.trust
    }

    /// Starts to acquire a range of a job from a source.
    pub fn new(job: &RawHistoryJob, source_id: &String, range: BlockRange, trust: TrustModel) -> (
        acquisition: SegmentAcquisition)
        ensures
            acquisition.job_id@ == job.id@,
            acquisition.source_id == *source_id,
            acquisition.request.alike(job.spec),
            acquisition.segment_id@ == segment_name(job.identity, range),
            acquisition.range == range,
            acquisition.trust == trust,
            acquisition.pending is None,
    {
        SegmentAcquisition {
            job_id: job.id.as_str().to_owned(),
            source_id: source_id.clone(),
            request: job.spec.clone(),
            segment_id: segment_id(&job.identity, range),
            range,
            trust,
            pending: None,
        }
    }

    /// The descriptor of the segment that starts with a frame.
    pub open spec fn descriptor_for(self, frame: BlockFrame) -> SegmentDescriptor {
        SegmentDescriptor {
            chain_id: self.request.chain_id,
            range: self.range,
            material_shape: self.request.material.spec_shape_id(),
            present_capabilities: frame.spec_present(),
            complete_capabilities: frame.spec_complete(),
            verification: self.request.verification,
            trust: self.trust,
        }
    }

    /// What the job reserves for a segment.
    pub open spec fn reservation(self) -> SegmentReservation {
        SegmentReservation {
            maximum_logical_bytes: self.request.segment.maximum_logical_bytes,
            maximum_physical_bytes: self.request.segment.maximum_physical_bytes,
        }
    }

    /// The reservations once the segment being written is given up.
    pub open spec fn released(self, reservations: Seq<ReservedSegment>) -> Seq<ReservedSegment> {
        match (self.pending, first_reserved(reservations, self.segment_id@, 0)) {
            (Some(_), Some(at)) => reservations.remove(at),
            _ => reservations,
        }
    }

    /// Gives up the segment being written.
    pub fn abandon(&mut self, store: &mut HistoryStore)
        requires
            old(store).wf(),
            old(self).inv(*old(store)),
        ensures
            final(store).wf(),
            final(store).same_but_reservations(*old(store)),
            final(store).reservations@ == old(self).released(old(store).reservations@),
            final(self).same_identity(*old(self)),
            final(self).pending is None,
    {
        if let Some(pending) = self.pending.take() {
            pending.abort(store);
        }
    }

    /// Ends the acquisition after an error of the source.
    pub fn on_source_error(&mut self, store: &mut HistoryStore, error: SourceError) -> (result:
        AcquireError)
        requires
            old(store).wf(),
            old(self).inv(*old(store)),
        ensures
            final(store).wf(),
            final(store).same_but_reservations(*old(store)),
            final(store).reservations@ == old(self).released(old(store).reservations@),
            final(self).same_identity(*old(self)),
            final(self).pending is None,
            is_attempt_error(old(self).source_id@, error, result),
    {
        self.abandon(store);
        source_attempt_error(&self.source_id, error)
    }

    /// What keeps a frame from being looked at: cancellation, or a frame that
    /// does not hold what the job's profile promises.
    pub open spec fn early_refusal(
        self,
        frame: BlockFrame,
        cancelled: bool,
        result: AcquireError,
    ) -> bool {
        if cancelled {
            result == AcquireError::Interrupted
        } else {
            match frame_fault(self.request.profile, frame) {
                Some(fault) => is_attempt_error(
                    self.source_id@,
                    SourceError::InvalidPlan(fault),
                    result,
                ),
                None => false,
            }
        }
    }

    /// The first frame does not hold all that the job asks for.
    pub open spec fn first_frame_lacks(self, frame: BlockFrame) -> bool {
        self.pending is None && !frame.spec_complete().derivable().has_all(
            self.request.required_capabilities,
        )
    }

    /// The first reason not to start a segment with a frame.
    pub open spec fn start_problem(
        self,
        store: HistoryStore,
        frame: BlockFrame,
        usage: AdmissionUsage,
        now: u64,
    ) -> Option<HistoryStoreError> {
        match store.admission_problem(
            self.segment_id,
            self.reservation(),
            self.request.indexes,
            usage,
            now,
        ) {
            Some(problem) => Some(problem),
            None => match self.descriptor_for(frame).problem() {
                Some(problem) => Some(HistoryStoreError::Segment(problem)),
                None => None,
            },
        }
    }

    /// A segment that was just started with a frame.
    pub open spec fn is_fresh(
        self,
        store: HistoryStore,
        frame: BlockFrame,
        fresh: PendingSegment,
    ) -> bool {
        &&& fresh.starts(
            self.segment_id@,
            self.descriptor_for(frame),
            self.request.segment.compression,
            self.reservation(),
            self.request.profile,
            self.request.indexes,
        )
        &&& fresh.writer@.limits == store.writer_limits(self.reservation())
    }

    /// Writes the next frame of the source. The first one starts the segment.
    /// Whatever refuses a frame gives the segment up.
    pub fn on_frame(
        &mut self,
        store: &mut HistoryStore,
        frame: &BlockFrame,
        shape_problem: Option<&'static str>,
        logical: &[u8],
        usage: AdmissionUsage,
        cancelled: bool,
        now: u64,
    ) -> (outcome: Result<AppendedRecord, AcquireError>)
        requires
            old(store).wf(),
            old(self).inv(*old(store)),
        ensures
            final(store).wf(),
            final(self).inv(*final(store)),
            final(self).same_identity(*old(self)),
            final(store).same_but_reservations(*old(store)),
            if cancelled || frame_fault(old(self).request.profile, *frame) is Some {
                &&& outcome matches Err(error) && old(self).early_refusal(*frame, cancelled, error)
                &&& final(self).pending is None
                &&& final(store).reservations@ == old(self).released(old(store).reservations@)
            } else if old(self).first_frame_lacks(*frame) {
                &&& outcome matches Err(error) && is_attempt_error(
                    old(self).source_id@,
                    SourceError::InvalidPlan("first frame lacks required complete capabilities"),
                    error,
                )
                &&& final(self).pending is None
                &&& final(store).reservations@ == old(store).reservations@
            } else {
                match old(self).pending {
                    Some(pending) => {
                        &&& written(
                            pending,
                            final(self).pending,
                            *frame,
                            shape_problem,
                            logical@,
                            outcome,
                        )
                        &&& final(store).reservations@ == if outcome is Ok {
                            old(store).reservations@
                        } else {
                            old(self).released(old(store).reservations@)
                        }
                    },
                    None => match old(self).start_problem(*old(store), *frame, usage, now) {
                        Some(problem) => {
                            &&& outcome == Err::<AppendedRecord, AcquireError>(
                                AcquireError::Store(problem),
                            )
                            &&& final(self).pending is None
                            &&& final(store).reservations@ == old(store).reservations@
                        },
                        None => exists|fresh: PendingSegment|
                            {
                                &&& #[trigger] old(self).is_fresh(*old(store), *frame, fresh)
                                &&& written(
                                    fresh,
                                    final(self).pending,
                                    *frame,
                                    shape_problem,
                                    logical@,
                                    outcome,
                                )
                                &&& final(store).reservations@ == if outcome is Ok {
                                    old(store).reservations@.push(
                                        ReservedSegment {
                                            id: old(self).segment_id,
                                            reservation: old(self).reservation(),
                                        },
                                    )
                                } else {
                                    old(store).reservations@
                                }
                            },
                    },
                }
            },
    {
        if cancelled {
            self.abandon(store);
            return Err(AcquireError::Interrupted);
        }
        if let Err(reason) = self.request.validate_frame_profile(frame) {
            self.abandon(store);
            return Err(source_attempt_error(&self.source_id, SourceError::InvalidPlan(reason)));
        }
        match self.pending.take() {
            Some(pending) => self.write(store, pending, frame, shape_problem, logical),
            None => {
                let capabilities: FrameCapabilities = frame.capabilities();
                if !capabilities.complete.with_derivable().contains_all(
                    self.request.required_capabilities,
                ) {
                    return Err(
                        source_attempt_error(
                            &self.source_id,
                            SourceError::InvalidPlan(
                                "first frame lacks required complete capabilities",
                            ),
                        ),
                    );
                }
                let descriptor: SegmentDescriptor = SegmentDescriptor {
                    chain_id: self.request.chain_id,
                    range: self.range,
                    material_shape: self.request.material.shape_id(),
                    present_capabilities: capabilities.present,
                    complete_capabilities: capabilities.complete,
                    verification: self.request.verification,
                    trust: self.trust,
                };
                let reservation: SegmentReservation = SegmentReservation {
                    maximum_logical_bytes: self.request.segment.maximum_logical_bytes,
                    maximum_physical_bytes: self.request.segment.maximum_physical_bytes,
                };
                let ghost before = *store;
                let fresh: PendingSegment = match store.begin_segment_profiled(
                    self.segment_id.clone(),
                    descriptor,
                    self.request.segment.compression,
                    reservation,
                    self.request.profile,
                    self.request.indexes,
                    usage,
                    now,
                ) {
                    Ok(fresh) => fresh,
                    Err(error) => {
                        return Err(AcquireError::Store(error));
                    },
                };
                let ghost admitted = *store;
                proof {
                    assert(old(self).is_fresh(*old(store), *frame, fresh));
                    lemma_first_reserved(before.reservations@, self.segment_id@, 0);
                    assert(fresh.holds_own_reservation(*store));
                }
                let outcome = self.write(store, fresh, frame, shape_problem, logical);
                proof {
                    if outcome is Err {
                        law_release_undoes_admission(
                            before,
                            admitted,
                            *store,
                            ReservedSegment {
                                id: old(self).segment_id,
                                reservation: old(self).reservation(),
                            },
                        );
                    }
                }
                outcome
            },
        }
    }

    /// Writes a frame to a started segment, which a refusal gives up.
    fn write(
        &mut self,
        store: &mut HistoryStore,
        pending: PendingSegment,
        frame: &BlockFrame,
        shape_problem: Option<&'static str>,
        logical: &[u8],
    ) -> (outcome: Result<AppendedRecord, AcquireError>)
        requires
            old(store).wf(),
            old(self).range.wf(),
            old(self).pending is None,
            pending.inv(),
            pending.id@ == old(self).segment_id@,
            pending.holds_own_reservation(*old(store)),
        ensures
            final(store).wf(),
            final(self).inv(*final(store)),
            final(self).same_identity(*old(self)),
            final(store).same_but_reservations(*old(store)),
            written(pending, final(self).pending, *frame, shape_problem, logical@, outcome),
            final(store).reservations@ == (match first_reserved(
                old(store).reservations@,
                pending.id@,
                0,
            ) {
                Some(at) if outcome is Err => old(store).reservations@.remove(at),
                _ => old(store).reservations@,
            }),
    {
        let mut pending: PendingSegment = pending;
        match pending.append(frame, shape_problem, logical) {
            Ok(record) => {
                self.pending = Some(pending);
                Ok(record)
            },
            Err(error) => {
                pending.abort(store);
                Err(append_refused(error))
            },
        }
    }

    /// Publishes the segment under the claim of the job.
    pub fn finish(self, store: &mut HistoryStore, index: &[u8], now: u64) -> (outcome: Result<
        PublishedSegment,
        FinishFailure,
    >)
        requires
            old(store).wf(),
            self.inv(*old(store)),
        ensures
            final(store).wf(),
            match self.pending {
                None => {
                    &&& final(store).same_rows(*old(store))
                    &&& outcome matches Err(failure) && !failure.released && is_attempt_error(
                        self.source_id@,
                        SourceError::InvalidPlan("source returned no frames"),
                        failure.error,
                    )
                },
                Some(pending) => if !is_owner_id(self.job_id@) {
                    &&& final(store).same_rows(*old(store))
                    &&& outcome == Err::<PublishedSegment, FinishFailure>(
                        FinishFailure {
                            error: AcquireError::Store(
                                HistoryStoreError::InvalidOwnerId(self.job_id),
                            ),
                            released: false,
                        },
                    )
                } else {
                    let claims = seq![self.claim()];
                    match outcome {
                        Ok(published) => {
                            &&& pending.publish_problem(*old(store), claims, index@, now) is None
                            &&& pending.is_published(
                                *old(store),
                                *final(store),
                                claims,
                                index@,
                                now,
                            )
                            &&& published.record@ == pending.record_view(index@, now)
                            &&& published.closing@ == closing_bytes(pending.writer@, index@)
                            &&& row_holds(published.row, published.record@)
                        },
                        Err(failure) => {
                            &&& failure.error matches AcquireError::Store(error) && match pending.publish_problem(
                                *old(store),
                                claims,
                                index@,
                                now,
                            ) {
                                Some(problem) => problem == (CommitFailure {
                                    error,
                                    released: failure.released,
                                }),
                                None => !failure.released && pending.progress_fails(
                                    *old(store),
                                    claims,
                                    index@,
                                    now,
                                    error,
                                ),
                            }
                            &&& final(store).same_but_reservations(*old(store))
                            &&& final(store).reservations@ == if failure.released {
                                self.released(old(store).reservations@)
                            } else {
                                old(store).reservations@
                            }
                        },
                    }
                },
            },
    {
        let pending: PendingSegment = match self.pending {
            Some(pending) => pending,
            None => {
                return Err(
                    FinishFailure {
                        error: source_attempt_error(
                            &self.source_id,
                            SourceError::InvalidPlan("source returned no frames"),
                        ),
                        released: false,
                    },
                );
            },
        };
        let mut claims: Vec<SegmentOwnerClaim> = Vec::new();
        claims.push(
            SegmentOwnerClaim { kind: SegmentOwnerKind::RawHistoryJob, owner_id: self.job_id },
        );
        proof {
            assert(claims@ =~= seq![self.claim()]);
            reveal_with_fuel(first_bad_owner, 2);
            assert forall|normal: Seq<SegmentOwnerClaim>| #[trigger]
                normal_list(claims@, normal) implies normal == claims@ by {
                lemma_single_normal(claims@, normal);
            }
        }
        match pending.commit(store, &claims, index, now) {
            Ok(published) => Ok(published),
            Err(failure) => Err(
                FinishFailure {
                    error: AcquireError::Store(failure.error),
                    released: failure.released,
                },
            ),
        }
    }

    /// The claim that the job has on its segments.
    pub open spec fn claim(self) -> SegmentOwnerClaim {
        SegmentOwnerClaim { kind: SegmentOwnerKind::RawHistoryJob, owner_id: self.job_id }
    }
}

/// Why a segment was not published, and whether its reservation was given
/// back.
#[derive(Debug)]
pub struct FinishFailure {
    pub error: AcquireError,
    pub released: bool,
}

/// Why a started segment refuses a frame.
pub open spec fn append_problem(
    pending: PendingSegment,
    frame: BlockFrame,
    shape_problem: Option<&'static str>,
    logical: Seq<u8>,
) -> Option<HistoryStoreError> {
    if pending.indexes.transaction_hash && !(frame.transactions is Complete) {
        Some(
            HistoryStoreError::CatalogIntegrity(
                CatalogProblem::Text("transaction locators require complete transaction material"),
            ),
        )
    } else {
        match pending.writer@.refusal(frame.spec_facts(shape_problem), logical) {
            Some(refusal) => Some(HistoryStoreError::Segment(refusal.error)),
            None => None,
        }
    }
}

/// A segment is written one frame further.
pub open spec fn grew(
    before: PendingSegment,
    after: PendingSegment,
    frame: BlockFrame,
    shape_problem: Option<&'static str>,
    logical: Seq<u8>,
    record: AppendedRecord,
) -> bool {
    let facts = frame.spec_facts(shape_problem);
    &&& after.same_identity(before)
    &&& before.writer@.compression.stored(logical) == Some(record.stored@)
    &&& record.entry@ == entry_bytes(before.writer@.next_entry(facts, logical, record.stored@))
    &&& after.writer@ == before.writer@.after(facts, logical, record.stored@)
    &&& after.block_locators@ == before.block_locators_after(frame)
    &&& after.transaction_locators@ == before.transaction_locators_after(frame)
}

/// What writing a frame makes of a started segment.
pub open spec fn written(
    before: PendingSegment,
    after: Option<PendingSegment>,
    frame: BlockFrame,
    shape_problem: Option<&'static str>,
    logical: Seq<u8>,
    outcome: Result<AppendedRecord, AcquireError>,
) -> bool {
    match (append_problem(before, frame, shape_problem, logical), outcome) {
        (Some(problem), Err(error)) => after is None && error == append_error(problem),
        (None, Ok(record)) => match after {
            Some(pending) => grew(before, pending, frame, shape_problem, logical, record),
            None => false,
        },
        _ => false,
    }
}

proof fn lemma_single_normal(given: Seq<SegmentOwnerClaim>, normal: Seq<SegmentOwnerClaim>)
    requires
        normal_list(given, normal),
        given.len() == 1,
    ensures
        normal == given,
{
    let key = given[0].key();
    assert(has_key(given, key));
    assert(has_key(normal, key));
    assert forall|i: int| 0 <= i < normal.len() implies normal[i] == given[0] by {
        assert(given.contains(normal[i]));
    }
    if normal.len() > 1 {
        lemma_irreflexive(key);
        assert(precedes(normal[0].key(), normal[1].key()));
    }
    assert(normal =~= given);
}

} // verus!
