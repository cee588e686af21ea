//! What a failed attempt makes of a job, and the words that are kept with it.

use crate::history::acquisition::{
    attempt_decision, decide_after_attempt, is_unknown_refusal, AttemptDecision,
};
use crate::history::catalog::{first_job, HistoryStore};
use crate::history::error::HistoryStoreError;
use crate::history::job::{RawHistoryJobId, StorageLimitAction};
use crate::history::lifecycle::{RawHistoryJob, RawHistoryJobState};
use crate::history::rows::fits_column;
use crate::history::runner::{AcquireError, RawHistoryRunError, RawHistoryRunOutcome};
use crate::primitives::BlockRange;
use vstd::prelude::*;

verus! {

/// What a run does after a failed attempt that does not end it in an error.
#[derive(Debug)]
pub enum AttemptStep {
    /// Try again with fewer blocks.
    Retry { blocks: u64 },
    Finish(RawHistoryRunOutcome),
}

/// A job that has ended, or a time that no column holds, keeps a job as it is.
pub open spec fn stop_is_refused(job: RawHistoryJob, now: u64) -> bool {
    !fits_column(now) || job.state.terminal()
}

/// Why a job is kept as it is.
pub open spec fn is_stop_refusal(job: RawHistoryJob, now: u64, error: RawHistoryRunError) -> bool {
    error matches RawHistoryRunError::Store(refusal) && if !fits_column(now) {
        refusal == HistoryStoreError::NumericRange("job update time")
    } else {
        job.refused_by_state(refusal)
    }
}

/// The job was put into a state for a reason, which is kept with it in words.
pub open spec fn is_stopped(
    before: RawHistoryJob,
    after: RawHistoryJob,
    state: RawHistoryJobState,
    words: Seq<char>,
    now: u64,
) -> bool {
    &&& after.last_error matches Some(text) && text@ == words
    &&& after == (RawHistoryJob {
        state,
        last_error: after.last_error,
        updated_at_unix_ms: now,
        ..before
    })
}

impl HistoryStore {
    /// What a decision makes of the job, and of its run.
    pub open spec fn attempt_settled(
        self,
        after: HistoryStore,
        id: Seq<char>,
        decision: AttemptDecision,
        now: u64,
        outcome: Result<AttemptStep, RawHistoryRunError>,
    ) -> bool {
        match decision {
            AttemptDecision::Retry { blocks } => {
                &&& after.same_rows(self)
                &&& outcome == Ok::<AttemptStep, RawHistoryRunError>(AttemptStep::Retry { blocks })
            },
            AttemptDecision::Return(error) => {
                &&& after.same_rows(self)
                &&& outcome == Err::<AttemptStep, RawHistoryRunError>(error)
            },
            _ => match first_job(self.jobs@, id, 0) {
                None => {
                    &&& after.same_rows(self)
                    &&& outcome matches Err(error) && is_unknown_refusal(error, id)
                },
                Some(at) => self.job_settled(after, at, decision, now, outcome),
            },
        }
    }

    /// What a decision that ends the run makes of a job that there is.
    pub open spec fn job_settled(
        self,
        after: HistoryStore,
        at: int,
        decision: AttemptDecision,
        now: u64,
        outcome: Result<AttemptStep, RawHistoryRunError>,
    ) -> bool {
        let job = self.jobs@[at];
        match decision {
            AttemptDecision::Backpressure(problem) => {
                &&& self.only_job_changed(after, at)
                &&& if stop_is_refused(job, now) {
                    &&& after.jobs@[at] == job
                    &&& outcome matches Err(error) && is_stop_refusal(job, now, error)
                } else {
                    &&& is_stopped(
                        job,
                        after.jobs@[at],
                        RawHistoryJobState::StorageBackpressured,
                        problem.spec_message(),
                        now,
                    )
                    &&& outcome matches Ok(
                        AttemptStep::Finish(RawHistoryRunOutcome::StorageBackpressured(held)),
                    ) && held.alike(after.jobs@[at])
                }
            },
            AttemptDecision::Fail(error) => {
                &&& self.only_job_changed(after, at)
                &&& if stop_is_refused(job, now) {
                    &&& after.jobs@[at] == job
                    &&& outcome matches Err(refusal) && is_stop_refusal(job, now, refusal)
                } else {
                    &&& is_stopped(
                        job,
                        after.jobs@[at],
                        RawHistoryJobState::Failed,
                        error.spec_message(),
                        now,
                    )
                    &&& outcome == Err::<AttemptStep, RawHistoryRunError>(error)
                }
            },
            _ => {
                &&& after.same_rows(self)
                &&& outcome matches Ok(
                    AttemptStep::Finish(RawHistoryRunOutcome::Interrupted(held)),
                ) && held.alike(job)
            },
        }
    }

    /// Decides after an attempt that failed, and records with the job what
    /// stopped it.
    pub fn settle_attempt(
        &mut self,
        id: &RawHistoryJobId,
        error: AcquireError,
        range: BlockRange,
        blocks: u64,
        on_limit: StorageLimitAction,
        now: u64,
    ) -> (outcome: Result<AttemptStep, RawHistoryRunError>)
        requires
            old(self).wf(),
            blocks > 0,
        ensures
            final(self).wf(),
            old(self).attempt_settled(
                *final(self),
                id@,
                attempt_decision(error, range, blocks, on_limit),
                now,
                outcome,
            ),
            outcome matches Ok(AttemptStep::Retry { blocks: fewer }) ==> 0 < fewer < blocks,
    {
        match decide_after_attempt(error, range, blocks, on_limit) {
            AttemptDecision::Retry { blocks: fewer } => Ok(AttemptStep::Retry { blocks: fewer }),
            AttemptDecision::Return(error) => Err(error),
            AttemptDecision::Interrupted => match self.find_job(id.as_str()) {
                Some(at) => Ok(
                    AttemptStep::Finish(RawHistoryRunOutcome::Interrupted(self.jobs[at].clone())),
                ),
                None => Err(
                    RawHistoryRunError::Store(
                        HistoryStoreError::UnknownJob(id.as_str().to_owned()),
                    ),
                ),
            },
            AttemptDecision::Backpressure(problem) => {
                match self.backpressure_raw_history_job(id, problem.message(), now) {
                    Ok(job) => Ok(
                        AttemptStep::Finish(RawHistoryRunOutcome::StorageBackpressured(job)),
                    ),
                    Err(refusal) => Err(RawHistoryRunError::Store(refusal)),
                }
            },
            AttemptDecision::Fail(error) => {
                match self.fail_raw_history_job(id, error.message(), now) {
                    Ok(_) => Err(error),
                    Err(refusal) => Err(RawHistoryRunError::Store(refusal)),
                }
            },
        }
    }
}

} // verus!
