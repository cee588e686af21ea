//! The words in which the store tells what it refuses.

use crate::history::error::{CatalogProblem, HistoryStoreError};
use crate::history::layout::SegmentError;
use crate::text::{decimal_digits, push_decimal, push_hash, push_range, push_signed};
use crate::text::{hash_text, range_text, signed_digits};
use vstd::prelude::*;

verus! {

impl SegmentError {
    /// What is wrong with a segment, in words.
    pub open spec fn spec_message(self) -> Seq<char> {
        match self {
            SegmentError::InvalidId(id) => "invalid segment ID `"@ + id@ + "`"@,
            SegmentError::InvalidDescriptor(problem) => "invalid segment descriptor: "@ + problem@,
            SegmentError::InvalidLimits => {
                "segment limits must be non-zero and frame <= segment logical limit"@
            },
            SegmentError::WriterPoisoned => {
                "segment writer is poisoned after an earlier append failure"@
            },
            SegmentError::InvalidFrame(problem) => "invalid frame: "@ + problem@,
            SegmentError::ChainMismatch { expected, actual } => {
                "segment chain mismatch: expected "@ + decimal_digits(expected.0 as nat)
                    + ", received "@ + decimal_digits(actual.0 as nat)
            },
            SegmentError::NonFinalized(block) => {
                "block "@ + decimal_digits(block.0 as nat) + " is not finalized"@
            },
            SegmentError::OutOfOrder { expected, actual } => {
                "block order mismatch: expected "@ + decimal_digits(expected.0 as nat)
                    + ", received "@ + decimal_digits(actual.0 as nat)
            },
            SegmentError::ParentMismatch { block, expected, actual } => {
                "parent mismatch at block "@ + decimal_digits(block.0 as nat) + ": expected "@
                    + hash_text(expected.0@) + ", received "@ + hash_text(actual.0@)
            },
            SegmentError::CapabilityMismatch => {
                "frame capabilities do not match the segment material shape"@
            },
            SegmentError::FrameOversized { limit, observed } => {
                "single frame exceeds logical limit "@ + decimal_digits(limit as nat)
                    + " bytes (observed "@ + decimal_digits(observed as nat) + ")"@
            },
            SegmentError::SegmentLogicalBudget { limit, observed } => {
                "segment exceeds logical limit "@ + decimal_digits(limit as nat)
                    + " bytes (observed "@ + decimal_digits(observed as nat) + ")"@
            },
            SegmentError::SegmentPhysicalBudget { limit, observed } => {
                "segment exceeds physical limit "@ + decimal_digits(limit as nat)
                    + " bytes (observed "@ + decimal_digits(observed as nat) + ")"@
            },
            SegmentError::IncompleteRange { expected, actual } => {
                "segment is incomplete: expected "@ + decimal_digits(expected as nat)
                    + " frames, received "@ + decimal_digits(actual as nat)
            },
            SegmentError::IndexLength { expected, actual } => {
                "temporary seek index length mismatch: expected "@ + decimal_digits(expected as nat)
                    + ", observed "@ + decimal_digits(actual as nat)
            },
            SegmentError::Truncated => "segment is truncated"@,
            SegmentError::HeaderMagic => "invalid segment header magic"@,
            SegmentError::FormatVersion(version) => {
                "unsupported segment format version "@ + decimal_digits(version as nat)
            },
            SegmentError::FrameEncodingVersion(version) => {
                "unsupported frame encoding version "@ + decimal_digits(version as nat)
            },
            SegmentError::UnknownCompression(codec) => {
                "unknown compression codec "@ + decimal_digits(codec as nat)
            },
            SegmentError::UnknownVerification(class) => {
                "unknown verification class "@ + decimal_digits(class as nat)
            },
            SegmentError::UnknownTrust(trust) => {
                "unknown trust model "@ + decimal_digits(trust as nat)
            },
            SegmentError::NonFinalizedEncoding(tag) => {
                "raw segments must encode finalized data, received finality tag "@
                    + decimal_digits(tag as nat)
            },
            SegmentError::Reserved => "segment reserved bytes are non-zero"@,
            SegmentError::UnknownCapabilities => "segment contains unknown capability bits"@,
            SegmentError::TrailerMagic => "invalid segment trailer magic"@,
            SegmentError::DirectoryMagic => "invalid segment directory magic"@,
            SegmentError::DirectoryBounds => "segment directory lies outside file bounds"@,
            SegmentError::DirectoryLength { expected, actual } => {
                "segment directory length mismatch: expected "@ + decimal_digits(expected as nat)
                    + ", observed "@ + decimal_digits(actual as nat)
            },
            SegmentError::RecordBounds(block) => {
                "record for block "@ + decimal_digits(block.0 as nat)
                    + " lies outside the payload area"@
            },
            SegmentError::AnchorMismatch => {
                "segment first/last anchors do not match its seek directory"@
            },
            SegmentError::OrderedHashDigest => "segment ordered canonical hash digest mismatch"@,
            SegmentError::RecordsChecksum => "segment records checksum mismatch"@,
            SegmentError::ContentChecksum => "segment content checksum mismatch"@,
            SegmentError::RecordChecksum(block) => {
                "record checksum mismatch for block "@ + decimal_digits(block.0 as nat)
            },
            SegmentError::DecodedLength { expected, actual } => {
                "decoded record length mismatch: expected "@ + decimal_digits(expected as nat)
                    + ", observed "@ + decimal_digits(actual as nat)
            },
            SegmentError::DecodedIdentity(block) => {
                "decoded record identity mismatch for block "@ + decimal_digits(block.0 as nat)
            },
            SegmentError::BlockOutOfRange { block, range } => {
                "block "@ + decimal_digits(block.0 as nat) + " is outside segment range "@
                    + range_text(range)
            },
            SegmentError::ArithmeticOverflow => "segment size arithmetic overflow"@,
            SegmentError::Deflate => "segment I/O failed"@,
            SegmentError::Snappy => "snappy codec failed"@,
        }
    }

    /// Tells what is wrong with a segment.
    pub fn message(&self) -> (text: String)
        ensures
            text@ == self.spec_message(),
    {
        match self {
            SegmentError::InvalidId(id) => {
                let mut text: String = "invalid segment ID `".to_owned();
                text.append(id.as_str());
                text.append("`");
                text
            },
            SegmentError::InvalidDescriptor(problem) => {
                let mut text: String = "invalid segment descriptor: ".to_owned();
                text.append(*problem);
                text
            },
            SegmentError::InvalidLimits => {
                "segment limits must be non-zero and frame <= segment logical limit".to_owned()
            },
            SegmentError::WriterPoisoned => {
                "segment writer is poisoned after an earlier append failure".to_owned()
            },
            SegmentError::InvalidFrame(problem) => {
                let mut text: String = "invalid frame: ".to_owned();
                text.append(*problem);
                text
            },
            SegmentError::ChainMismatch { expected, actual } => {
                let mut text: String = "segment chain mismatch: expected ".to_owned();
                push_decimal(&mut text, expected.0);
                text.append(", received ");
                push_decimal(&mut text, actual.0);
                text
            },
            SegmentError::NonFinalized(block) => {
                let mut text: String = "block ".to_owned();
                push_decimal(&mut text, block.0);
                text.append(" is not finalized");
                text
            },
            SegmentError::OutOfOrder { expected, actual } => {
                let mut text: String = "block order mismatch: expected ".to_owned();
                push_decimal(&mut text, expected.0);
                text.append(", received ");
                push_decimal(&mut text, actual.0);
                text
            },
            SegmentError::ParentMismatch { block, expected, actual } => {
                let mut text: String = "parent mismatch at block ".to_owned();
                push_decimal(&mut text, block.0);
                text.append(": expected ");
                push_hash(&mut text, &expected.0);
                text.append(", received ");
                push_hash(&mut text, &actual.0);
                text
            },
            SegmentError::CapabilityMismatch => {
                "frame capabilities do not match the segment material shape".to_owned()
            },
            SegmentError::FrameOversized { limit, observed } => {
                let mut text: String = "single frame exceeds logical limit ".to_owned();
                push_decimal(&mut text, *limit);
                text.append(" bytes (observed ");
                push_decimal(&mut text, *observed);
                text.append(")");
                text
            },
            SegmentError::SegmentLogicalBudget { limit, observed } => {
                let mut text: String = "segment exceeds logical limit ".to_owned();
                push_decimal(&mut text, *limit);
                text.append(" bytes (observed ");
                push_decimal(&mut text, *observed);
                text.append(")");
                text
            },
            SegmentError::SegmentPhysicalBudget { limit, observed } => {
                let mut text: String = "segment exceeds physical limit ".to_owned();
                push_decimal(&mut text, *limit);
                text.append(" bytes (observed ");
                push_decimal(&mut text, *observed);
                text.append(")");
                text
            },
            SegmentError::IncompleteRange { expected, actual } => {
                let mut text: String = "segment is incomplete: expected ".to_owned();
                push_decimal(&mut text, *expected);
                text.append(" frames, received ");
                push_decimal(&mut text, *actual);
                text
            },
            SegmentError::IndexLength { expected, actual } => {
                let mut text: String = "temporary seek index length mismatch: expected ".to_owned();
                push_decimal(&mut text, *expected);
                text.append(", observed ");
                push_decimal(&mut text, *actual);
                text
            },
            SegmentError::Truncated => "segment is truncated".to_owned(),
            SegmentError::HeaderMagic => "invalid segment header magic".to_owned(),
            SegmentError::FormatVersion(version) => {
                let mut text: String = "unsupported segment format version ".to_owned();
                push_decimal(&mut text, *version as u64);
                text
            },
            SegmentError::FrameEncodingVersion(version) => {
                let mut text: String = "unsupported frame encoding version ".to_owned();
                push_decimal(&mut text, *version as u64);
                text
            },
            SegmentError::UnknownCompression(codec) => {
                let mut text: String = "unknown compression codec ".to_owned();
                push_decimal(&mut text, *codec as u64);
                text
            },
            SegmentError::UnknownVerification(class) => {
                let mut text: String = "unknown verification class ".to_owned();
                push_decimal(&mut text, *class as u64);
                text
            },
            SegmentError::UnknownTrust(trust) => {
                let mut text: String = "unknown trust model ".to_owned();
                push_decimal(&mut text, *trust as u64);
                text
            },
            SegmentError::NonFinalizedEncoding(tag) => {
                let mut text: String =
                    "raw segments must encode finalized data, received finality tag ".to_owned();
                push_decimal(&mut text, *tag as u64);
                text
            },
            SegmentError::Reserved => "segment reserved bytes are non-zero".to_owned(),
            SegmentError::UnknownCapabilities => {
                "segment contains unknown capability bits".to_owned()
            },
            SegmentError::TrailerMagic => "invalid segment trailer magic".to_owned(),
            SegmentError::DirectoryMagic => "invalid segment directory magic".to_owned(),
            SegmentError::DirectoryBounds => {
                "segment directory lies outside file bounds".to_owned()
            },
            SegmentError::DirectoryLength { expected, actual } => {
                let mut text: String = "segment directory length mismatch: expected ".to_owned();
                push_decimal(&mut text, *expected);
                text.append(", observed ");
                push_decimal(&mut text, *actual);
                text
            },
            SegmentError::RecordBounds(block) => {
                let mut text: String = "record for block ".to_owned();
                push_decimal(&mut text, block.0);
                text.append(" lies outside the payload area");
                text
            },
            SegmentError::AnchorMismatch => {
                "segment first/last anchors do not match its seek directory".to_owned()
            },
            SegmentError::OrderedHashDigest => {
                "segment ordered canonical hash digest mismatch".to_owned()
            },
            SegmentError::RecordsChecksum => "segment records checksum mismatch".to_owned(),
            SegmentError::ContentChecksum => "segment content checksum mismatch".to_owned(),
            SegmentError::RecordChecksum(block) => {
                let mut text: String = "record checksum mismatch for block ".to_owned();
                push_decimal(&mut text, block.0);
                text
            },
            SegmentError::DecodedLength { expected, actual } => {
                let mut text: String = "decoded record length mismatch: expected ".to_owned();
                push_decimal(&mut text, *expected as u64);
                text.append(", observed ");
                push_decimal(&mut text, *actual as u64);
                text
            },
            SegmentError::DecodedIdentity(block) => {
                let mut text: String = "decoded record identity mismatch for block ".to_owned();
                push_decimal(&mut text, block.0);
                text
            },
            SegmentError::BlockOutOfRange { block, range } => {
                let mut text: String = "block ".to_owned();
                push_decimal(&mut text, block.0);
                text.append(" is outside segment range ");
                push_range(&mut text, *range);
                text
            },
            SegmentError::ArithmeticOverflow => "segment size arithmetic overflow".to_owned(),
            SegmentError::Deflate => "segment I/O failed".to_owned(),
            SegmentError::Snappy => "snappy codec failed".to_owned(),
        }
    }
}

impl CatalogProblem {
    /// What the catalog contradicts, in words. How a reversed range is told is
    /// this library's choice.
    pub open spec fn spec_message(self) -> Seq<char> {
        match self {
            CatalogProblem::Text(text) => text@,
            CatalogProblem::UnknownOwnerKind(kind) => "unknown owner kind `"@ + kind@ + "`"@,
            CatalogProblem::UnknownJobState(state) => {
                "unknown raw-history job state `"@ + state@ + "`"@
            },
            CatalogProblem::FormatVersion(version) => {
                "unsupported segment format version "@ + decimal_digits(version as nat)
            },
            CatalogProblem::FrameEncodingVersion(version) => {
                "unsupported frame encoding version "@ + decimal_digits(version as nat)
            },
            CatalogProblem::Range(range) => {
                "invalid block range "@ + decimal_digits(range.start.0 as nat) + "..="@
                    + decimal_digits(range.end.0 as nat)
            },
            CatalogProblem::NotThirtyTwoBytes(name) => name@ + " must be 32 bytes"@,
            CatalogProblem::UnknownTrust(trust) => {
                "unknown trust model "@ + decimal_digits(trust as nat)
            },
            CatalogProblem::UnknownProfile(profile) => {
                "unknown raw-history profile "@ + signed_digits(profile as int)
            },
            CatalogProblem::MetadataDiffers(id) => {
                "catalog metadata differs from closed segment `"@ + id@ + "`"@
            },
            CatalogProblem::InvalidRelativePath(path) => {
                "invalid relative segment path `"@ + path@ + "`"@
            },
            CatalogProblem::InvalidSegmentPath(path) => "invalid segment path `"@ + path@ + "`"@,
            CatalogProblem::InvalidDeletingPath(path) => "invalid deleting path `"@ + path@ + "`"@,
            CatalogProblem::UnsafeName(name) => "unsafe catalog file name `"@ + name@ + "`"@,
            CatalogProblem::IdentityMismatch(id) => {
                "raw-history job `"@ + id@ + "` identity mismatch"@
            },
            CatalogProblem::InvalidSpec(problem) => {
                "invalid raw-history job: "@ + problem.spec_message()
            },
            CatalogProblem::MissingFile(id) => {
                "catalogued segment `"@ + id@ + "` failed validation: segment I/O failed"@
            },
            CatalogProblem::FailedValidation(id, error) => {
                "catalogued segment `"@ + id@ + "` failed validation: "@ + error.spec_message()
            },
        }
    }

    /// Tells what the catalog contradicts.
    pub fn message(&self) -> (text: String)
        ensures
            text@ == self.spec_message(),
    {
        match self {
            CatalogProblem::Text(text) => (*text).to_owned(),
            CatalogProblem::UnknownOwnerKind(kind) => {
                let mut text: String = "unknown owner kind `".to_owned();
                text.append(kind.as_str());
                text.append("`");
                text
            },
            CatalogProblem::UnknownJobState(state) => {
                let mut text: String = "unknown raw-history job state `".to_owned();
                text.append(state.as_str());
                text.append("`");
                text
            },
            CatalogProblem::FormatVersion(version) => {
                let mut text: String = "unsupported segment format version ".to_owned();
                push_decimal(&mut text, *version as u64);
                text
            },
            CatalogProblem::FrameEncodingVersion(version) => {
                let mut text: String = "unsupported frame encoding version ".to_owned();
                push_decimal(&mut text, *version as u64);
                text
            },
            CatalogProblem::Range(range) => {
                let mut text: String = "invalid block range ".to_owned();
                push_decimal(&mut text, range.start.0);
                text.append("..=");
                push_decimal(&mut text, range.end.0);
                text
            },
            CatalogProblem::NotThirtyTwoBytes(name) => {
                let mut text: String = (*name).to_owned();
                text.append(" must be 32 bytes");
                text
            },
            CatalogProblem::UnknownTrust(trust) => {
                let mut text: String = "unknown trust model ".to_owned();
                push_decimal(&mut text, *trust as u64);
                text
            },
            CatalogProblem::UnknownProfile(profile) => {
                let mut text: String = "unknown raw-history profile ".to_owned();
                push_signed(&mut text, *profile);
                text
            },
            CatalogProblem::MetadataDiffers(id) => {
                let mut text: String = "catalog metadata differs from closed segment `".to_owned();
                text.append(id.as_str());
                text.append("`");
                text
            },
            CatalogProblem::InvalidRelativePath(path) => {
                let mut text: String = "invalid relative segment path `".to_owned();
                text.append(path.as_str());
                text.append("`");
                text
            },
            CatalogProblem::InvalidSegmentPath(path) => {
                let mut text: String = "invalid segment path `".to_owned();
                text.append(path.as_str());
                text.append("`");
                text
            },
            CatalogProblem::InvalidDeletingPath(path) => {
                let mut text: String = "invalid deleting path `".to_owned();
                text.append(path.as_str());
                text.append("`");
                text
            },
            CatalogProblem::UnsafeName(name) => {
                let mut text: String = "unsafe catalog file name `".to_owned();
                text.append(name.as_str());
                text.append("`");
                text
            },
            CatalogProblem::IdentityMismatch(id) => {
                let mut text: String = "raw-history job `".to_owned();
                text.append(id.as_str());
                text.append("` identity mismatch");
                text
            },
            CatalogProblem::InvalidSpec(problem) => {
                let mut text: String = "invalid raw-history job: ".to_owned();
                text.append(problem.message().as_str());
                text
            },
            CatalogProblem::MissingFile(id) => {
                let mut text: String = "catalogued segment `".to_owned();
                text.append(id.as_str());
                text.append("` failed validation: segment I/O failed");
                text
            },
            CatalogProblem::FailedValidation(id, error) => {
                let mut text: String = "catalogued segment `".to_owned();
                text.append(id.as_str());
                text.append("` failed validation: ");
                text.append(error.message().as_str());
                text
            },
        }
    }
}

impl HistoryStoreError {
    /// Why the store refuses, in words.
    pub open spec fn spec_message(self) -> Seq<char> {
        match self {
            HistoryStoreError::InvalidConfig(problem) => {
                "invalid history-store configuration: "@ + problem@
            },
            HistoryStoreError::UnsupportedSchema(version) => {
                "invalid history-store configuration: history catalog schema "@
                    + signed_digits(version as int) + " is unsupported"@
            },
            HistoryStoreError::InvalidReservation => "invalid segment reservation"@,
            HistoryStoreError::InvalidOwnerId(id) => "invalid owner ID `"@ + id@ + "`"@,
            HistoryStoreError::InvalidJob(problem) => {
                "invalid raw-history job: "@ + problem.spec_message()
            },
            HistoryStoreError::JobConflict(id) => {
                "raw-history job identity conflicts with existing job `"@ + id@ + "`"@
            },
            HistoryStoreError::UnknownJob(id) => "unknown raw-history job `"@ + id@ + "`"@,
            HistoryStoreError::JobState { id, state } => {
                "raw-history job `"@ + id@ + "` cannot transition from "@ + state@
            },
            HistoryStoreError::LogicalBudget { limit, observed } => {
                "raw-history logical budget "@ + decimal_digits(limit as nat)
                    + " bytes would be exceeded ("@ + decimal_digits(observed as nat) + " bytes)"@
            },
            HistoryStoreError::PhysicalBudget { limit, observed } => {
                "raw-history physical budget "@ + decimal_digits(limit as nat)
                    + " bytes would be exceeded ("@ + decimal_digits(observed as nat) + " bytes)"@
            },
            HistoryStoreError::ExistingBudgetExceeded {
                logical_limit,
                logical_observed,
                physical_limit,
                physical_observed,
            } => {
                "existing raw history exceeds configured budgets: logical "@
                    + decimal_digits(logical_observed as nat) + "/"@
                    + decimal_digits(logical_limit as nat) + ", physical "@
                    + decimal_digits(physical_observed as nat) + "/"@
                    + decimal_digits(physical_limit as nat)
            },
            HistoryStoreError::PathCollision(id) => {
                "segment path already exists for `SegmentId(\""@ + id@ + "\")`"@
            },
            HistoryStoreError::UnknownSegment(id) => {
                "unknown or unreadable segment `SegmentId(\""@ + id@ + "\")`"@
            },
            HistoryStoreError::MissingReservation(id) => {
                "missing reservation for closed segment `SegmentId(\""@ + id@ + "\")`"@
            },
            HistoryStoreError::ReservationExceeded => "segment exceeded its durable reservation"@,
            HistoryStoreError::OwnedSegment { id, owners } => {
                "segment `SegmentId(\""@ + id@ + "\")` still has "@ + decimal_digits(owners as nat)
                    + " durable owners"@
            },
            HistoryStoreError::CatalogIntegrity(problem) => {
                "raw-history catalog integrity failure: "@ + problem.spec_message()
            },
            HistoryStoreError::NumericRange(name) => {
                "numeric value `"@ + name@ + "` cannot be represented by SQLite"@
            },
            HistoryStoreError::ClockBeforeEpoch => "system clock precedes the Unix epoch"@,
            HistoryStoreError::ArithmeticOverflow => "raw-history size arithmetic overflow"@,
            HistoryStoreError::Segment(error) => error.spec_message(),
            HistoryStoreError::Duplicate(table) => {
                "history catalog failed: UNIQUE constraint failed: "@ + table@
            },
        }
    }

    /// Tells why the store refuses.
    pub fn message(&self) -> (text: String)
        ensures
            text@ == self.spec_message(),
    {
        match self {
            HistoryStoreError::InvalidConfig(problem) => {
                let mut text: String = "invalid history-store configuration: ".to_owned();
                text.append(*problem);
                text
            },
            HistoryStoreError::UnsupportedSchema(version) => {
                let mut text: String =
                    "invalid history-store configuration: history catalog schema ".to_owned();
                push_signed(&mut text, *version);
                text.append(" is unsupported");
                text
            },
            HistoryStoreError::InvalidReservation => "invalid segment reservation".to_owned(),
            HistoryStoreError::InvalidOwnerId(id) => {
                let mut text: String = "invalid owner ID `".to_owned();
                text.append(id.as_str());
                text.append("`");
                text
            },
            HistoryStoreError::InvalidJob(problem) => {
                let mut text: String = "invalid raw-history job: ".to_owned();
                text.append(problem.message().as_str());
                text
            },
            HistoryStoreError::JobConflict(id) => {
                let mut text: String =
                    "raw-history job identity conflicts with existing job `".to_owned();
                text.append(id.as_str());
                text.append("`");
                text
            },
            HistoryStoreError::UnknownJob(id) => {
                let mut text: String = "unknown raw-history job `".to_owned();
                text.append(id.as_str());
                text.append("`");
                text
            },
            HistoryStoreError::JobState { id, state } => {
                let mut text: String = "raw-history job `".to_owned();
                text.append(id.as_str());
                text.append("` cannot transition from ");
                text.append(*state);
                text
            },
            HistoryStoreError::LogicalBudget { limit, observed } => {
                let mut text: String = "raw-history logical budget ".to_owned();
                push_decimal(&mut text, *limit);
                text.append(" bytes would be exceeded (");
                push_decimal(&mut text, *observed);
                text.append(" bytes)");
                text
            },
            HistoryStoreError::PhysicalBudget { limit, observed } => {
                let mut text: String = "raw-history physical budget ".to_owned();
                push_decimal(&mut text, *limit);
                text.append(" bytes would be exceeded (");
                push_decimal(&mut text, *observed);
                text.append(" bytes)");
                text
            },
            HistoryStoreError::ExistingBudgetExceeded {
                logical_limit,
                logical_observed,
                physical_limit,
                physical_observed,
            } => {
                let mut text: String =
                    "existing raw history exceeds configured budgets: logical ".to_owned();
                push_decimal(&mut text, *logical_observed);
                text.append("/");
                push_decimal(&mut text, *logical_limit);
                text.append(", physical ");
                push_decimal(&mut text, *physical_observed);
                text.append("/");
                push_decimal(&mut text, *physical_limit);
                text
            },
            HistoryStoreError::PathCollision(id) => {
                let mut text: String = "segment path already exists for `SegmentId(\"".to_owned();
                text.append(id.as_str());
                text.append("\")`");
                text
            },
            HistoryStoreError::UnknownSegment(id) => {
                let mut text: String = "unknown or unreadable segment `SegmentId(\"".to_owned();
                text.append(id.as_str());
                text.append("\")`");
                text
            },
            HistoryStoreError::MissingReservation(id) => {
                let mut text: String =
                    "missing reservation for closed segment `SegmentId(\"".to_owned();
                text.append(id.as_str());
                text.append("\")`");
                text
            },
            HistoryStoreError::ReservationExceeded => {
                "segment exceeded its durable reservation".to_owned()
            },
            HistoryStoreError::OwnedSegment { id, owners } => {
                let mut text: String = "segment `SegmentId(\"".to_owned();
                text.append(id.as_str());
                text.append("\")` still has ");
                push_decimal(&mut text, *owners);
                text.append(" durable owners");
                text
            },
            HistoryStoreError::CatalogIntegrity(problem) => {
                let mut text: String = "raw-history catalog integrity failure: ".to_owned();
                text.append(problem.message().as_str());
                text
            },
            HistoryStoreError::NumericRange(name) => {
                let mut text: String = "numeric value `".to_owned();
                text.append(*name);
                text.append("` cannot be represented by SQLite");
                text
            },
            HistoryStoreError::ClockBeforeEpoch => {
                "system clock precedes the Unix epoch".to_owned()
            },
            HistoryStoreError::ArithmeticOverflow => {
                "raw-history size arithmetic overflow".to_owned()
            },
            HistoryStoreError::Segment(error) => error.message(),
            HistoryStoreError::Duplicate(table) => {
                let mut text: String =
                    "history catalog failed: UNIQUE constraint failed: ".to_owned();
                text.append(*table);
                text
            },
        }
    }
}

} // verus!
