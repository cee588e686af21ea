//! The words in which the sink tells what it refuses.

use crate::artifacts::batch::BatchProblem;
use crate::artifacts::segment::ArtifactSegmentError;
use crate::artifacts::sink::ArtifactSinkError;
use crate::text::{decimal_digits, push_decimal, push_range, range_text};
use vstd::prelude::*;

verus! {

impl ArtifactSegmentError {
    /// What is wrong with an artifact segment, in words.
    pub open spec fn spec_message(self) -> Seq<char> {
        match self {
            ArtifactSegmentError::Encoding => "artifact segment encoding failed"@,
            ArtifactSegmentError::Delta => "artifact delta failed validation"@,
            ArtifactSegmentError::InvalidLimits => "artifact segment limits are invalid"@,
            ArtifactSegmentError::Numeric(name) => {
                "artifact segment numeric value for "@ + name@ + " overflowed"@
            },
            ArtifactSegmentError::Magic => "artifact segment has invalid magic"@,
            ArtifactSegmentError::Version(version) => {
                "artifact segment version "@ + decimal_digits(version as nat) + " is unsupported"@
            },
            ArtifactSegmentError::UnknownCompression(codec) => {
                "artifact segment compression "@ + decimal_digits(codec as nat) + " is unsupported"@
            },
            ArtifactSegmentError::Snappy => "artifact segment Snappy codec failed"@,
            ArtifactSegmentError::Deflate => "artifact segment I/O failed"@,
            ArtifactSegmentError::Truncated => "artifact segment is truncated"@,
            ArtifactSegmentError::Contract => {
                "artifact segment contract does not match the processor"@
            },
            ArtifactSegmentError::Directory => "artifact segment directory is malformed"@,
            ArtifactSegmentError::ContentChecksum => {
                "artifact segment content checksum does not match"@
            },
            ArtifactSegmentError::RecordsChecksum => {
                "artifact segment ordered-record checksum does not match"@
            },
            ArtifactSegmentError::DecodedLength { expected, actual } => {
                "artifact segment record decoded to "@ + decimal_digits(actual as nat)
                    + " bytes, expected "@ + decimal_digits(expected as nat)
            },
            ArtifactSegmentError::OutOfOrder { expected, received } => {
                "artifact segment expected block "@ + decimal_digits(expected.0 as nat)
                    + ", received "@ + decimal_digits(received.0 as nat)
            },
            ArtifactSegmentError::ParentLink(block) => {
                "artifact segment parent link failed at block "@ + decimal_digits(block.0 as nat)
            },
            ArtifactSegmentError::OutsideRange(block) => {
                "artifact block "@ + decimal_digits(block.0 as nat)
                    + " is outside the segment range"@
            },
            ArtifactSegmentError::RecordIdentity(block) => {
                "artifact record identity does not match block "@ + decimal_digits(block.0 as nat)
            },
            ArtifactSegmentError::InvalidLimit(limit) => {
                "artifact scan limit "@ + decimal_digits(limit as nat) + " is outside 1..=10000"@
            },
            ArtifactSegmentError::ArtifactTooLarge { observed, limit } => {
                "artifact uses "@ + decimal_digits(observed as nat) + " logical bytes, exceeding "@
                    + decimal_digits(limit as nat)
            },
            ArtifactSegmentError::SegmentLogicalLimit { projected, limit } => {
                "artifact segment would use "@ + decimal_digits(projected as nat)
                    + " logical bytes, exceeding "@ + decimal_digits(limit as nat)
            },
            ArtifactSegmentError::SegmentPhysicalLimit { projected, limit } => {
                "artifact segment would use "@ + decimal_digits(projected as nat)
                    + " physical bytes, exceeding "@ + decimal_digits(limit as nat)
            },
            ArtifactSegmentError::Incomplete { expected, observed } => {
                "artifact segment is incomplete: expected "@ + decimal_digits(expected as nat)
                    + " artifacts, observed "@ + decimal_digits(observed as nat)
            },
        }
    }

    /// Tells what is wrong with an artifact segment.
    pub fn message(&self) -> (text: String)
        ensures
            text@ == self.spec_message(),
    {
        match self {
            ArtifactSegmentError::Encoding => "artifact segment encoding failed".to_owned(),
            ArtifactSegmentError::Delta => "artifact delta failed validation".to_owned(),
            ArtifactSegmentError::InvalidLimits => "artifact segment limits are invalid".to_owned(),
            ArtifactSegmentError::Numeric(name) => {
                let mut text: String = "artifact segment numeric value for ".to_owned();
                text.append(*name);
                text.append(" overflowed");
                text
            },
            ArtifactSegmentError::Magic => "artifact segment has invalid magic".to_owned(),
            ArtifactSegmentError::Version(version) => {
                let mut text: String = "artifact segment version ".to_owned();
                push_decimal(&mut text, *version as u64);
                text.append(" is unsupported");
                text
            },
            ArtifactSegmentError::UnknownCompression(codec) => {
                let mut text: String = "artifact segment compression ".to_owned();
                push_decimal(&mut text, *codec as u64);
                text.append(" is unsupported");
                text
            },
            ArtifactSegmentError::Snappy => "artifact segment Snappy codec failed".to_owned(),
            ArtifactSegmentError::Deflate => "artifact segment I/O failed".to_owned(),
            ArtifactSegmentError::Truncated => "artifact segment is truncated".to_owned(),
            ArtifactSegmentError::Contract => {
                "artifact segment contract does not match the processor".to_owned()
            },
            ArtifactSegmentError::Directory => "artifact segment directory is malformed".to_owned(),
            ArtifactSegmentError::ContentChecksum => {
                "artifact segment content checksum does not match".to_owned()
            },
            ArtifactSegmentError::RecordsChecksum => {
                "artifact segment ordered-record checksum does not match".to_owned()
            },
            ArtifactSegmentError::DecodedLength { expected, actual } => {
                let mut text: String = "artifact segment record decoded to ".to_owned();
                push_decimal(&mut text, *actual as u64);
                text.append(" bytes, expected ");
                push_decimal(&mut text, *expected as u64);
                text
            },
            ArtifactSegmentError::OutOfOrder { expected, received } => {
                let mut text: String = "artifact segment expected block ".to_owned();
                push_decimal(&mut text, expected.0);
                text.append(", received ");
                push_decimal(&mut text, received.0);
                text
            },
            ArtifactSegmentError::ParentLink(block) => {
                let mut text: String = "artifact segment parent link failed at block ".to_owned();
                push_decimal(&mut text, block.0);
                text
            },
            ArtifactSegmentError::OutsideRange(block) => {
                let mut text: String = "artifact block ".to_owned();
                push_decimal(&mut text, block.0);
                text.append(" is outside the segment range");
                text
            },
            ArtifactSegmentError::RecordIdentity(block) => {
                let mut text: String = "artifact record identity does not match block ".to_owned();
                push_decimal(&mut text, block.0);
                text
            },
            ArtifactSegmentError::InvalidLimit(limit) => {
                let mut text: String = "artifact scan limit ".to_owned();
                push_decimal(&mut text, *limit as u64);
                text.append(" is outside 1..=10000");
                text
            },
            ArtifactSegmentError::ArtifactTooLarge { observed, limit } => {
                let mut text: String = "artifact uses ".to_owned();
                push_decimal(&mut text, *observed);
                text.append(" logical bytes, exceeding ");
                push_decimal(&mut text, *limit);
                text
            },
            ArtifactSegmentError::SegmentLogicalLimit { projected, limit } => {
                let mut text: String = "artifact segment would use ".to_owned();
                push_decimal(&mut text, *projected);
                text.append(" logical bytes, exceeding ");
                push_decimal(&mut text, *limit);
                text
            },
            ArtifactSegmentError::SegmentPhysicalLimit { projected, limit } => {
                let mut text: String = "artifact segment would use ".to_owned();
                push_decimal(&mut text, *projected);
                text.append(" physical bytes, exceeding ");
                push_decimal(&mut text, *limit);
                text
            },
            ArtifactSegmentError::Incomplete { expected, observed } => {
                let mut text: String = "artifact segment is incomplete: expected ".to_owned();
                push_decimal(&mut text, *expected);
                text.append(" artifacts, observed ");
                push_decimal(&mut text, *observed);
                text
            },
        }
    }
}

impl BatchProblem {
    /// What is wrong with a batch, in words. How a reversed range and an invalid
    /// delta are told is this library's choice.
    pub open spec fn spec_message(self) -> Seq<char> {
        match self {
            BatchProblem::Empty => "artifact batch is empty"@,
            BatchProblem::ReversedRange { start, end } => {
                "invalid block range "@ + decimal_digits(start.0 as nat) + "..="@
                    + decimal_digits(end.0 as nat)
            },
            BatchProblem::OneDeltaPerBlock => {
                "artifact batch must have exactly one delta per block"@
            },
            BatchProblem::InvalidDelta(block) => {
                "invalid delta at block "@ + decimal_digits(block.0 as nat)
            },
            BatchProblem::NotContiguous => {
                "artifact batch must be contiguous, parent-linked, and single-chain"@
            },
            BatchProblem::BytesOverflow => "artifact bytes overflowed"@,
        }
    }

    /// Tells what is wrong with a batch.
    pub fn message(&self) -> (text: String)
        ensures
            text@ == self.spec_message(),
    {
        match self {
            BatchProblem::Empty => "artifact batch is empty".to_owned(),
            BatchProblem::ReversedRange { start, end } => {
                let mut text: String = "invalid block range ".to_owned();
                push_decimal(&mut text, start.0);
                text.append("..=");
                push_decimal(&mut text, end.0);
                text
            },
            BatchProblem::OneDeltaPerBlock => {
                "artifact batch must have exactly one delta per block".to_owned()
            },
            BatchProblem::InvalidDelta(block) => {
                let mut text: String = "invalid delta at block ".to_owned();
                push_decimal(&mut text, block.0);
                text
            },
            BatchProblem::NotContiguous => {
                "artifact batch must be contiguous, parent-linked, and single-chain".to_owned()
            },
            BatchProblem::BytesOverflow => "artifact bytes overflowed".to_owned(),
        }
    }
}

impl ArtifactSinkError {
    /// Why the sink refuses, in words.
    pub open spec fn spec_message(self) -> Seq<char> {
        match self {
            ArtifactSinkError::InvalidConfig => "artifact sink configuration is invalid"@,
            ArtifactSinkError::EmptyBatch => "artifact sink received an empty batch"@,
            ArtifactSinkError::Batch(problem) => {
                "artifact sink batch is invalid: "@ + problem.spec_message()
            },
            ArtifactSinkError::Conflict(range) => {
                "artifact sink conflicts with retained range "@ + range_text(range)
            },
            ArtifactSinkError::CoverageGap(block) => {
                "artifact sink coverage has a gap at block "@ + decimal_digits(block.0 as nat)
            },
            ArtifactSinkError::InvalidScanLimit(limit) => {
                "artifact sink scan limit "@ + decimal_digits(limit as nat)
                    + " is outside 1..=10000"@
            },
            ArtifactSinkError::AggregatePhysicalLimit { projected, limit } => {
                "artifact sink would use "@ + decimal_digits(projected as nat)
                    + " physical bytes, exceeding "@ + decimal_digits(limit as nat)
            },
            ArtifactSinkError::Segment(error) => {
                "artifact segment failed: "@ + error.spec_message()
            },
        }
    }

    /// Tells why the sink refuses.
    pub fn message(&self) -> (text: String)
        ensures
            text@ == self.spec_message(),
    {
        match self {
            ArtifactSinkError::InvalidConfig => "artifact sink configuration is invalid".to_owned(),
            ArtifactSinkError::EmptyBatch => "artifact sink received an empty batch".to_owned(),
            ArtifactSinkError::Batch(problem) => {
                let mut text: String = "artifact sink batch is invalid: ".to_owned();
                text.append(problem.message().as_str());
                text
            },
            ArtifactSinkError::Conflict(range) => {
                let mut text: String = "artifact sink conflicts with retained range ".to_owned();
                push_range(&mut text, *range);
                text
            },
            ArtifactSinkError::CoverageGap(block) => {
                let mut text: String = "artifact sink coverage has a gap at block ".to_owned();
                push_decimal(&mut text, block.0);
                text
            },
            ArtifactSinkError::InvalidScanLimit(limit) => {
                let mut text: String = "artifact sink scan limit ".to_owned();
                push_decimal(&mut text, *limit as u64);
                text.append(" is outside 1..=10000");
                text
            },
            ArtifactSinkError::AggregatePhysicalLimit { projected, limit } => {
                let mut text: String = "artifact sink would use ".to_owned();
                push_decimal(&mut text, *projected);
                text.append(" physical bytes, exceeding ");
                push_decimal(&mut text, *limit);
                text
            },
            ArtifactSinkError::Segment(error) => {
                let mut text: String = "artifact segment failed: ".to_owned();
                text.append(error.message().as_str());
                text
            },
        }
    }
}

} // verus!
