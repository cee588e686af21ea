//! Lifecycle of raw-history jobs, and the progress that their segments make.

use crate::history::error::{CatalogProblem, HistoryStoreError};
use crate::history::job::{RawHistoryJobId, RawHistoryJobSpec};
use crate::history::rows::{fits_column, u64_i64};
use crate::primitives::BlockRange;
use crate::ranges::{all_wf, reports_all_gaps, requested_gaps, separated};
use crate::request::clone_list;
use crate::text::same_text;
use vstd::prelude::*;

verus! {

/// Durable lifecycle state of resumable raw acquisition.
#[derive(Clone, Copy, Debug, PartialEq, Eq, Structural)]
pub enum RawHistoryJobState {
    Queued,
    Running,
    StorageBackpressured,
    Complete,
    Cancelled,
    Failed,
}

impl RawHistoryJobState {
    pub open spec fn spec_str(self) -> &'static str {
        match self {
            RawHistoryJobState::Queued => "queued",
            RawHistoryJobState::Running => "running",
            RawHistoryJobState::StorageBackpressured => "storage_backpressured",
            RawHistoryJobState::Complete => "complete",
            RawHistoryJobState::Cancelled => "cancelled",
            RawHistoryJobState::Failed => "failed",
        }
    }

    /// The text that stands for the state in the catalog.
    pub fn as_str(self) -> (text: &'static str)
        ensures
            text == self.spec_str(),
    {
        match self {
            RawHistoryJobState::Queued => "queued",
            RawHistoryJobState::Running => "running",
            RawHistoryJobState::StorageBackpressured => "storage_backpressured",
            RawHistoryJobState::Complete => "complete",
            RawHistoryJobState::Cancelled => "cancelled",
            RawHistoryJobState::Failed => "failed",
        }
    }

    /// Reads a state from its text.
    pub fn parse(value: String) -> (state: Result<RawHistoryJobState, HistoryStoreError>)
        ensures
            match state {
                Ok(state) => state.spec_str()@ == value@,
                Err(error) => {
                    &&& error == HistoryStoreError::CatalogIntegrity(
                        CatalogProblem::UnknownJobState(value),
                    )
                    &&& forall|state: RawHistoryJobState| (#[trigger] state.spec_str())@ != value@
                },
            },
    {
        if same_text(value.as_str(), "queued") {
            Ok(RawHistoryJobState::Queued)
        } else if same_text(value.as_str(), "running") {
            Ok(RawHistoryJobState::Running)
        } else if same_text(value.as_str(), "storage_backpressured") {
            Ok(RawHistoryJobState::StorageBackpressured)
        } else if same_text(value.as_str(), "complete") {
            Ok(RawHistoryJobState::Complete)
        } else if same_text(value.as_str(), "cancelled") {
            Ok(RawHistoryJobState::Cancelled)
        } else if same_text(value.as_str(), "failed") {
            Ok(RawHistoryJobState::Failed)
        } else {
            Err(HistoryStoreError::CatalogIntegrity(CatalogProblem::UnknownJobState(value)))
        }
    }

    pub open spec fn terminal(self) -> bool {
        self is Complete || self is Cancelled || self is Failed
    }

    pub fn is_terminal(self) -> (terminal: bool)
        ensures
            terminal == self.terminal(),
    {
        match self {
            RawHistoryJobState::Complete => true,
            RawHistoryJobState::Cancelled => true,
            RawHistoryJobState::Failed => true,
            _ => false,
        }
    }

    /// The state after committed segments have been counted: complete once
    /// nothing is left, unless the job was cancelled or has failed.
    pub open spec fn reconciled(self, nothing_left: bool) -> RawHistoryJobState {
        if nothing_left && !(self is Cancelled) && !(self is Failed) {
            RawHistoryJobState::Complete
        } else {
            self
        }
    }

    pub fn after_progress(self, nothing_left: bool) -> (state: RawHistoryJobState)
        ensures
            state == self.reconciled(nothing_left),
    {
        match self {
            RawHistoryJobState::Cancelled => self,
            RawHistoryJobState::Failed => self,
            _ => if nothing_left {
                RawHistoryJobState::Complete
            } else {
                self
            },
        }
    }
}

/// The text of a job state names that state alone, so that reading it gives
/// the state back.
pub proof fn law_job_state_text_is_unique(left: RawHistoryJobState, right: RawHistoryJobState)
    requires
        left.spec_str()@ == right.spec_str()@,
    ensures
        left == right,
{
    reveal_strlit("queued");
    reveal_strlit("running");
    reveal_strlit("storage_backpressured");
    reveal_strlit("complete");
    reveal_strlit("cancelled");
    reveal_strlit("failed");
    assert("queued"@.len() == 6 && "queued"@[0] == 'q');
    assert("running"@.len() == 7);
    assert("storage_backpressured"@.len() == 21);
    assert("complete"@.len() == 8);
    assert("cancelled"@.len() == 9);
    assert("failed"@.len() == 6 && "failed"@[0] == 'f');
}

/// Inspectable durable raw-history job and derived committed progress.
#[derive(Debug)]
pub struct RawHistoryJob {
    pub id: RawHistoryJobId,
    pub identity: [u8; 32],
    pub spec: RawHistoryJobSpec,
    pub state: RawHistoryJobState,
    pub attempts: u64,
    pub committed_segments: u64,
    pub committed_logical_bytes: u64,
    pub committed_physical_bytes: u64,
    pub remaining_ranges: Vec<BlockRange>,
    pub last_error: Option<String>,
    pub created_at_unix_ms: u64,
    pub updated_at_unix_ms: u64,
}

impl Clone for RawHistoryJob {
    fn clone(&self) -> (copy: RawHistoryJob)
        ensures
            copy.alike(*self),
    {
        RawHistoryJob {
            id: self.id.clone(),
            identity: self.identity,
            spec: self.spec.clone(),
            state: self.state,
            attempts: self.attempts,
            committed_segments: self.committed_segments,
            committed_logical_bytes: self.committed_logical_bytes,
            committed_physical_bytes: self.committed_physical_bytes,
            remaining_ranges: clone_list(&self.remaining_ranges),
            last_error: match &self.last_error {
                Some(error) => Some(error.clone()),
                None => None,
            },
            created_at_unix_ms: self.created_at_unix_ms,
            updated_at_unix_ms: self.updated_at_unix_ms,
        }
    }
}

impl RawHistoryJob {
    /// Both are the same job in the same state.
    pub open spec fn alike(self, other: RawHistoryJob) -> bool {
        &&& self.id == other.id
        &&& self.identity == other.identity
        &&& self.spec.alike(other.spec)
        &&& self.state == other.state
        &&& self.attempts == other.attempts
        &&& self.committed_segments == other.committed_segments
        &&& self.committed_logical_bytes == other.committed_logical_bytes
        &&& self.committed_physical_bytes == other.committed_physical_bytes
        &&& self.remaining_ranges@ == other.remaining_ranges@
        &&& self.last_error == other.last_error
        &&& self.created_at_unix_ms == other.created_at_unix_ms
        &&& self.updated_at_unix_ms == other.updated_at_unix_ms
    }
}

/// Metadata released by explicit terminal job deletion.
#[derive(Debug)]
pub struct RawHistoryJobDeletion {
    pub jobs: u64,
    pub ranges: u64,
    pub owners: u64,
    pub released_segments: Vec<String>,
}

/// What the segments of a job amount to.
pub struct Progress {
    pub covered: Seq<BlockRange>,
    pub logical_bytes: int,
    pub physical_bytes: int,
}

/// One closed segment that a job owns.
#[derive(Clone, Copy, Debug)]
pub struct OwnedSegment {
    pub range: BlockRange,
    pub logical_bytes: u64,
    pub physical_bytes: u64,
}

/// What the first `count` segments amount to.
pub open spec fn progress_of(segments: Seq<OwnedSegment>, count: int) -> Progress
    decreases count,
{
    if count <= 0 {
        Progress { covered: Seq::empty(), logical_bytes: 0, physical_bytes: 0 }
    } else {
        let before = progress_of(segments, count - 1);
        let segment = segments[count - 1];
        Progress {
            covered: before.covered.push(segment.range),
            logical_bytes: before.logical_bytes + segment.logical_bytes,
            physical_bytes: before.physical_bytes + segment.physical_bytes,
        }
    }
}

proof fn lemma_progress_grows(segments: Seq<OwnedSegment>, shorter: int, longer: int)
    requires
        0 <= shorter <= longer,
    ensures
        progress_of(segments, shorter).logical_bytes <= progress_of(segments, longer).logical_bytes,
        progress_of(segments, shorter).physical_bytes <= progress_of(
            segments,
            longer,
        ).physical_bytes,
    decreases longer,
{
    if shorter < longer {
        lemma_progress_grows(segments, shorter, longer - 1);
    }
}

/// Why progress cannot be recorded.
pub open spec fn progress_problem(segments: Seq<OwnedSegment>, now: u64) -> Option<
    HistoryStoreError,
> {
    let progress = progress_of(segments, segments.len() as int);
    if progress.logical_bytes > u64::MAX || progress.physical_bytes > u64::MAX {
        Some(HistoryStoreError::ArithmeticOverflow)
    } else if segments.len() > i64::MAX {
        Some(HistoryStoreError::NumericRange("committed segment count"))
    } else if progress.logical_bytes > i64::MAX {
        Some(HistoryStoreError::NumericRange("committed logical bytes"))
    } else if progress.physical_bytes > i64::MAX {
        Some(HistoryStoreError::NumericRange("committed physical bytes"))
    } else if !fits_column(now) {
        Some(HistoryStoreError::NumericRange("job update time"))
    } else {
        None
    }
}

/// Progress to record for a job.
#[derive(Debug)]
pub struct JobProgress {
    pub state: RawHistoryJobState,
    pub committed_segments: u64,
    pub committed_logical_bytes: u64,
    pub committed_physical_bytes: u64,
    pub remaining_ranges: Vec<BlockRange>,
}

/// The counters, what is left and the next state follow from the segments.
pub open spec fn is_progress(
    requested: Seq<BlockRange>,
    state: RawHistoryJobState,
    segments: Seq<OwnedSegment>,
    recorded: JobProgress,
) -> bool {
    let progress = progress_of(segments, segments.len() as int);
    &&& recorded.committed_segments == segments.len()
    &&& recorded.committed_logical_bytes == progress.logical_bytes
    &&& recorded.committed_physical_bytes == progress.physical_bytes
    &&& reports_all_gaps(requested, progress.covered, recorded.remaining_ranges@)
    &&& recorded.state == state.reconciled(recorded.remaining_ranges@.len() == 0)
}

/// Counts the segments that a job owns, and what they leave open.
pub fn job_progress(
    requested: &Vec<BlockRange>,
    state: RawHistoryJobState,
    segments: &Vec<OwnedSegment>,
    now: u64,
) -> (outcome: Result<JobProgress, HistoryStoreError>)
    requires
        all_wf(requested@),
        forall|i: int| 0 <= i < segments@.len() ==> (#[trigger] segments@[i]).range.wf(),
    ensures
        match outcome {
            Ok(recorded) => progress_problem(segments@, now) is None && is_progress(
                requested@,
                state,
                segments@,
                recorded,
            ),
            Err(error) => Some(error) == progress_problem(segments@, now),
        },
{
    let mut covered: Vec<BlockRange> = Vec::new();
    let mut logical: u64 = 0;
    let mut physical: u64 = 0;
    let mut index: usize = 0;
    while index < segments.len()
        invariant
            index <= segments@.len(),
            forall|i: int| 0 <= i < segments@.len() ==> (#[trigger] segments@[i]).range.wf(),
            all_wf(covered@),
            covered@ == progress_of(segments@, index as int).covered,
            logical == progress_of(segments@, index as int).logical_bytes,
            physical == progress_of(segments@, index as int).physical_bytes,
        decreases segments@.len() - index,
    {
        let segment: OwnedSegment = segments[index];
        proof {
            lemma_progress_grows(segments@, index + 1, segments@.len() as int);
        }
        covered.push(segment.range);
        logical = match logical.checked_add(segment.logical_bytes) {
            Some(logical) => logical,
            None => {
                return Err(HistoryStoreError::ArithmeticOverflow);
            },
        };
        physical = match physical.checked_add(segment.physical_bytes) {
            Some(physical) => physical,
            None => {
                return Err(HistoryStoreError::ArithmeticOverflow);
            },
        };
        index += 1;
    }
    let remaining_ranges: Vec<BlockRange> = requested_gaps(requested.as_slice(), covered.as_slice());
    let count: u64 = segments.len() as u64;
    u64_i64(count, "committed segment count")?;
    u64_i64(logical, "committed logical bytes")?;
    u64_i64(physical, "committed physical bytes")?;
    u64_i64(now, "job update time")?;
    Ok(
        JobProgress {
            state: state.after_progress(remaining_ranges.len() == 0),
            committed_segments: count,
            committed_logical_bytes: logical,
            committed_physical_bytes: physical,
            remaining_ranges,
        },
    )
}

impl RawHistoryJob {
    /// A job whose request is in canonical form.
    pub open spec fn wf(self) -> bool {
        separated(self.spec.ranges@) && self.spec.ranges@.len() > 0
    }

    /// The refusal names the job and the state that it is in.
    pub open spec fn refused_by_state(self, error: HistoryStoreError) -> bool {
        match error {
            HistoryStoreError::JobState { id, state } => id@ == self.id@ && state
                == self.state.spec_str(),
            _ => false,
        }
    }

    /// Marks queued or resumable work running, and counts the attempt.
    pub fn start(&mut self, now: u64) -> (outcome: Result<(), HistoryStoreError>)
        ensures
            match outcome {
                Ok(()) => {
                    &&& fits_column(now) && !old(self).state.terminal() && old(self).attempts
                        < u64::MAX
                    &&& *final(self) == (RawHistoryJob {
                        state: RawHistoryJobState::Running,
                        attempts: (old(self).attempts + 1) as u64,
                        last_error: None,
                        updated_at_unix_ms: now,
                        ..*old(self)
                    })
                },
                Err(error) => {
                    &&& *final(self) == *old(self)
                    &&& if !fits_column(now) {
                        error == HistoryStoreError::NumericRange("job update time")
                    } else if old(self).state.terminal() {
                        old(self).refused_by_state(error)
                    } else {
                        old(self).attempts == u64::MAX && error
                            == HistoryStoreError::ArithmeticOverflow
                    }
                },
            },
    {
        u64_i64(now, "job update time")?;
        if self.state.is_terminal() {
            return Err(self.state_error());
        }
        let attempts: u64 = match self.attempts.checked_add(1) {
            Some(attempts) => attempts,
            None => {
                return Err(HistoryStoreError::ArithmeticOverflow);
            },
        };
        self.state = RawHistoryJobState::Running;
        self.attempts = attempts;
        self.last_error = None;
        self.updated_at_unix_ms = now;
        Ok(())
    }

    /// The refusal of a job that has ended.
    pub fn state_error(&self) -> (error: HistoryStoreError)
        ensures
            self.refused_by_state(error),
    {
        HistoryStoreError::JobState {
            id: self.id.as_str().to_owned(),
            state: self.state.as_str(),
        }
    }

    fn leave(&mut self, state: RawHistoryJobState, error: String, now: u64) -> (outcome: Result<
        (),
        HistoryStoreError,
    >)
        ensures
            match outcome {
                Ok(()) => {
                    &&& fits_column(now) && !old(self).state.terminal()
                    &&& *final(self) == (RawHistoryJob {
                        state,
                        last_error: Some(error),
                        updated_at_unix_ms: now,
                        ..*old(self)
                    })
                },
                Err(refusal) => {
                    &&& *final(self) == *old(self)
                    &&& if !fits_column(now) {
                        refusal == HistoryStoreError::NumericRange("job update time")
                    } else {
                        old(self).state.terminal() && old(self).refused_by_state(refusal)
                    }
                },
            },
    {
        u64_i64(now, "job update time")?;
        if self.state.is_terminal() {
            return Err(self.state_error());
        }
        self.state = state;
        self.last_error = Some(error);
        self.updated_at_unix_ms = now;
        Ok(())
    }

    /// Records storage backpressure without discarding resumable coverage.
    pub fn backpressure(&mut self, error: String, now: u64) -> (outcome: Result<
        (),
        HistoryStoreError,
    >)
        ensures
            match outcome {
                Ok(()) => {
                    &&& fits_column(now) && !old(self).state.terminal()
                    &&& *final(self) == (RawHistoryJob {
                        state: RawHistoryJobState::StorageBackpressured,
                        last_error: Some(error),
                        updated_at_unix_ms: now,
                        ..*old(self)
                    })
                },
                Err(refusal) => {
                    &&& *final(self) == *old(self)
                    &&& if !fits_column(now) {
                        refusal == HistoryStoreError::NumericRange("job update time")
                    } else {
                        old(self).state.terminal() && old(self).refused_by_state(refusal)
                    }
                },
            },
    {
        self.leave(RawHistoryJobState::StorageBackpressured, error, now)
    }

    /// Marks a job that has not ended as failed.
    pub fn fail(&mut self, error: String, now: u64) -> (outcome: Result<(), HistoryStoreError>)
        ensures
            match outcome {
                Ok(()) => {
                    &&& fits_column(now) && !old(self).state.terminal()
                    &&& *final(self) == (RawHistoryJob {
                        state: RawHistoryJobState::Failed,
                        last_error: Some(error),
                        updated_at_unix_ms: now,
                        ..*old(self)
                    })
                },
                Err(refusal) => {
                    &&& *final(self) == *old(self)
                    &&& if !fits_column(now) {
                        refusal == HistoryStoreError::NumericRange("job update time")
                    } else {
                        old(self).state.terminal() && old(self).refused_by_state(refusal)
                    }
                },
            },
    {
        self.leave(RawHistoryJobState::Failed, error, now)
    }

    /// Cancels work without deleting its retained segments. A job that has
    /// ended stays as it is.
    pub fn cancel(&mut self, now: u64) -> (outcome: Result<(), HistoryStoreError>)
        ensures
            match outcome {
                Ok(()) => {
                    &&& fits_column(now)
                    &&& *final(self) == (if old(self).state.terminal() {
                        *old(self)
                    } else {
                        RawHistoryJob {
                            state: RawHistoryJobState::Cancelled,
                            updated_at_unix_ms: now,
                            ..*old(self)
                        }
                    })
                },
                Err(error) => {
                    &&& !fits_column(now)
                    &&& *final(self) == *old(self)
                    &&& error == HistoryStoreError::NumericRange("job update time")
                },
            },
    {
        u64_i64(now, "job update time")?;
        if !self.state.is_terminal() {
            self.state = RawHistoryJobState::Cancelled;
            self.updated_at_unix_ms = now;
        }
        Ok(())
    }

    /// The job after its segments have been counted.
    pub open spec fn reconciled(self, recorded: JobProgress, now: u64) -> RawHistoryJob {
        RawHistoryJob {
            state: recorded.state,
            committed_segments: recorded.committed_segments,
            committed_logical_bytes: recorded.committed_logical_bytes,
            committed_physical_bytes: recorded.committed_physical_bytes,
            remaining_ranges: recorded.remaining_ranges,
            updated_at_unix_ms: now,
            ..self
        }
    }

    /// Records what the job's segments amount to.
    pub fn record(&mut self, recorded: JobProgress, now: u64)
        ensures
            *final(self) == old(self).reconciled(recorded, now),
    {
        self.state = recorded.state;
        self.committed_segments = recorded.committed_segments;
        self.committed_logical_bytes = recorded.committed_logical_bytes;
        self.committed_physical_bytes = recorded.committed_physical_bytes;
        self.remaining_ranges = recorded.remaining_ranges;
        self.updated_at_unix_ms = now;
    }
}

} // verus!
