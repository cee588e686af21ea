//! What the raw-history store refuses, and why.

use crate::history::layout::{SegmentError, SegmentId};
use crate::primitives::{BlockNumber, InvalidRange};
use crate::text::{decimal_digits, push_decimal};
use vstd::prelude::*;

verus! {

/// Why a raw-history job is not acceptable.
#[derive(Debug)]
pub enum JobProblem {
    Text(&'static str),
    InvalidId(String),
    BeforeMerge { merge_block: BlockNumber, start: BlockNumber },
    Incompatible(String),
    BlockTooLarge { start: BlockNumber, end: BlockNumber },
}

impl JobProblem {
    /// The text that a caller is shown.
    pub open spec fn spec_message(self) -> Seq<char> {
        match self {
            JobProblem::Text(text) => text@,
            JobProblem::InvalidId(id) => "invalid job ID `"@ + id@ + "`"@,
            JobProblem::BeforeMerge { merge_block, start } => {
                "post_merge_execution_rpc starts at Merge block "@ + decimal_digits(
                    merge_block.0 as nat,
                ) + "; requested range starts at "@ + decimal_digits(start.0 as nat)
            },
            JobProblem::Incompatible(id) => {
                "segment is incompatible with raw-history job `"@ + id@ + "`"@
            },
            JobProblem::BlockTooLarge { start, end } => {
                "one block in range BlockRange { start: BlockNumber("@ + decimal_digits(
                    start.0 as nat,
                ) + "), end: BlockNumber("@ + decimal_digits(end.0 as nat)
                    + ") } exceeds the configured segment limits"@
            },
        }
    }

    pub fn message(&self) -> (text: String)
        ensures
            text@ == self.spec_message(),
    {
        match self {
            JobProblem::Text(text) => (*text).to_owned(),
            JobProblem::InvalidId(id) => {
                let mut text: String = "invalid job ID `".to_owned();
                text.append(id.as_str());
                text.append("`");
                text
            },
            JobProblem::BeforeMerge { merge_block, start } => {
                let mut text: String = "post_merge_execution_rpc starts at Merge block ".to_owned();
                push_decimal(&mut text, merge_block.0);
                text.append("; requested range starts at ");
                push_decimal(&mut text, start.0);
                text
            },
            JobProblem::Incompatible(id) => {
                let mut text: String =
                    "segment is incompatible with raw-history job `".to_owned();
                text.append(id.as_str());
                text.append("`");
                text
            },
            JobProblem::BlockTooLarge { start, end } => {
                let mut text: String =
                    "one block in range BlockRange { start: BlockNumber(".to_owned();
                push_decimal(&mut text, start.0);
                text.append("), end: BlockNumber(");
                push_decimal(&mut text, end.0);
                text.append(") } exceeds the configured segment limits");
                text
            },
        }
    }
}

/// What of the durable catalog contradicts itself or its files.
#[derive(Debug)]
pub enum CatalogProblem {
    Text(&'static str),
    UnknownOwnerKind(String),
    UnknownJobState(String),
    FormatVersion(u16),
    FrameEncodingVersion(u16),
    Range(InvalidRange),
    NotThirtyTwoBytes(&'static str),
    UnknownTrust(u8),
    UnknownProfile(i64),
    MetadataDiffers(SegmentId),
    InvalidRelativePath(String),
    InvalidSegmentPath(String),
    InvalidDeletingPath(String),
    UnsafeName(String),
    IdentityMismatch(String),
    InvalidSpec(JobProblem),
    MissingFile(SegmentId),
    FailedValidation(SegmentId, SegmentError),
}

/// Why the raw-history store refuses a request.
#[derive(Debug)]
pub enum HistoryStoreError {
    InvalidConfig(&'static str),
    UnsupportedSchema(i64),
    InvalidReservation,
    InvalidOwnerId(String),
    InvalidJob(JobProblem),
    JobConflict(String),
    UnknownJob(String),
    JobState { id: String, state: &'static str },
    LogicalBudget { limit: u64, observed: u64 },
    PhysicalBudget { limit: u64, observed: u64 },
    ExistingBudgetExceeded {
        logical_limit: u64,
        logical_observed: u64,
        physical_limit: u64,
        physical_observed: u64,
    },
    PathCollision(SegmentId),
    UnknownSegment(SegmentId),
    MissingReservation(SegmentId),
    ReservationExceeded,
    OwnedSegment { id: SegmentId, owners: u64 },
    CatalogIntegrity(CatalogProblem),
    NumericRange(&'static str),
    ClockBeforeEpoch,
    ArithmeticOverflow,
    Segment(SegmentError),
    /// A uniqueness rule of the catalog's tables would be broken.
    Duplicate(&'static str),
}

} // verus!
