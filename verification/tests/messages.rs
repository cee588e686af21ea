//! The words in which the library tells what it refuses.

use leani_history::artifacts::batch::BatchProblem;
use leani_history::artifacts::segment::ArtifactSegmentError;
use leani_history::artifacts::sink::ArtifactSinkError;
use leani_history::history::error::{CatalogProblem, HistoryStoreError, JobProblem};
use leani_history::history::layout::{SegmentError, SegmentId};
use leani_history::history::runner::{RawHistoryRunError, SourceProblem, SourceReason};
use leani_history::primitives::{
    BlockHash, BlockNumber, BlockRange, ChainId, TransactionHash,
};
use leani_history::request::SourceError;
use leani_history::xatu::catalog::XatuTable;
use leani_history::xatu::error::{DataProblem, XatuError};

fn range(start: u64, end: u64) -> BlockRange {
    BlockRange::new(BlockNumber(start), BlockNumber(end)).expect("range")
}

fn segment(name: &str) -> SegmentId {
    SegmentId::new(name.to_owned()).expect("segment ID")
}

fn reason(source: &str, problem: SourceProblem) -> SourceReason {
    SourceReason { source_id: source.to_owned(), problem }
}

#[test]
fn segment_problems_are_told() {
    assert_eq!(SegmentError::InvalidId("a b".to_owned()).message(), "invalid segment ID `a b`");
    assert_eq!(
        SegmentError::ChainMismatch { expected: ChainId(1), actual: ChainId(10) }.message(),
        "segment chain mismatch: expected 1, received 10"
    );
    assert_eq!(
        SegmentError::ParentMismatch {
            block: BlockNumber(7),
            expected: BlockHash([0xab; 32]),
            actual: BlockHash([0x01; 32]),
        }
        .message(),
        format!(
            "parent mismatch at block 7: expected 0x{}, received 0x{}",
            "ab".repeat(32),
            "01".repeat(32)
        )
    );
    assert_eq!(
        SegmentError::FrameOversized { limit: u64::MAX, observed: 0 }.message(),
        "single frame exceeds logical limit 18446744073709551615 bytes (observed 0)"
    );
    assert_eq!(
        SegmentError::BlockOutOfRange { block: BlockNumber(9), range: range(1, 8) }.message(),
        "block 9 is outside segment range BlockRange { start: BlockNumber(1), end: BlockNumber(8) }"
    );
    assert_eq!(
        SegmentError::DecodedLength { expected: 12, actual: 13 }.message(),
        "decoded record length mismatch: expected 12, observed 13"
    );
    assert_eq!(SegmentError::UnknownTrust(9).message(), "unknown trust model 9");
    assert_eq!(SegmentError::Truncated.message(), "segment is truncated");
}

#[test]
fn store_refusals_are_told() {
    assert_eq!(
        HistoryStoreError::UnsupportedSchema(-1).message(),
        "invalid history-store configuration: history catalog schema -1 is unsupported"
    );
    assert_eq!(
        HistoryStoreError::UnsupportedSchema(i64::MIN).message(),
        "invalid history-store configuration: history catalog schema -9223372036854775808 is unsupported"
    );
    assert_eq!(
        HistoryStoreError::InvalidJob(JobProblem::Text("chain ID must be non-zero")).message(),
        "invalid raw-history job: chain ID must be non-zero"
    );
    assert_eq!(
        HistoryStoreError::JobState { id: "job".to_owned(), state: "complete" }.message(),
        "raw-history job `job` cannot transition from complete"
    );
    assert_eq!(
        HistoryStoreError::LogicalBudget { limit: 10, observed: 11 }.message(),
        "raw-history logical budget 10 bytes would be exceeded (11 bytes)"
    );
    assert_eq!(
        HistoryStoreError::ExistingBudgetExceeded {
            logical_limit: 1,
            logical_observed: 2,
            physical_limit: 3,
            physical_observed: 4,
        }
        .message(),
        "existing raw history exceeds configured budgets: logical 2/1, physical 4/3"
    );
    assert_eq!(
        HistoryStoreError::UnknownSegment(segment("kept-1")).message(),
        "unknown or unreadable segment `SegmentId(\"kept-1\")`"
    );
    assert_eq!(
        HistoryStoreError::OwnedSegment { id: segment("kept-1"), owners: 2 }.message(),
        "segment `SegmentId(\"kept-1\")` still has 2 durable owners"
    );
    assert_eq!(
        HistoryStoreError::NumericRange("chain ID").message(),
        "numeric value `chain ID` cannot be represented by SQLite"
    );
    assert_eq!(
        HistoryStoreError::Segment(SegmentError::HeaderMagic).message(),
        "invalid segment header magic"
    );
}

#[test]
fn catalog_contradictions_are_told() {
    let told = |problem: CatalogProblem| HistoryStoreError::CatalogIntegrity(problem).message();
    assert_eq!(
        told(CatalogProblem::UnknownOwnerKind("x".to_owned())),
        "raw-history catalog integrity failure: unknown owner kind `x`"
    );
    assert_eq!(
        told(CatalogProblem::NotThirtyTwoBytes("material shape")),
        "raw-history catalog integrity failure: material shape must be 32 bytes"
    );
    assert_eq!(
        told(CatalogProblem::UnknownProfile(-3)),
        "raw-history catalog integrity failure: unknown raw-history profile -3"
    );
    assert_eq!(
        told(CatalogProblem::MetadataDiffers(segment("kept-1"))),
        "raw-history catalog integrity failure: catalog metadata differs from closed segment `kept-1`"
    );
    assert_eq!(
        told(CatalogProblem::UnsafeName("../x".to_owned())),
        "raw-history catalog integrity failure: unsafe catalog file name `../x`"
    );
    assert_eq!(
        told(CatalogProblem::FailedValidation(segment("kept-1"), SegmentError::ContentChecksum)),
        "raw-history catalog integrity failure: catalogued segment `kept-1` failed validation: segment content checksum mismatch"
    );
    assert_eq!(
        told(CatalogProblem::InvalidSpec(JobProblem::Incompatible("job".to_owned()))),
        "raw-history catalog integrity failure: invalid raw-history job: segment is incompatible with raw-history job `job`"
    );
}

#[test]
fn a_run_tells_every_reason_with_its_quotation_marks_escaped() {
    let error = RawHistoryRunError::NoCompatibleSource {
        range: range(5, 6),
        reasons: vec![
            reason("first", SourceProblem::IncompatibleDescriptor),
            reason("second", SourceProblem::IncompletePlan),
            reason(
                "third",
                SourceProblem::Error(SourceError::SegmentUnavailable(segment("kept-1"))),
            ),
        ],
    };
    assert_eq!(
        error.message(),
        "no source could satisfy raw-history range BlockRange { start: BlockNumber(5), end: BlockNumber(6) }: [\"first: incompatible descriptor\", \"second: incomplete plan\", \"third: source unavailable: unknown or unreadable segment `SegmentId(\\\"kept-1\\\")`\"]"
    );
    let error = RawHistoryRunError::SourcesUnavailable { range: range(5, 5), reasons: Vec::new() };
    assert_eq!(
        error.message(),
        "all compatible sources are temporarily unavailable for BlockRange { start: BlockNumber(5), end: BlockNumber(5) }: []"
    );
    assert_eq!(
        RawHistoryRunError::DuplicateSource("x".to_owned()).message(),
        "invalid raw-history source set: duplicate source ID `x`"
    );
    assert_eq!(
        RawHistoryRunError::Store(HistoryStoreError::UnknownJob("job".to_owned())).message(),
        "unknown raw-history job `job`"
    );
}

#[test]
fn source_problems_are_told() {
    assert_eq!(
        SourceError::MissingMaterial {
            gaps: vec![range(1, 2), range(4, 4)],
            required: 4,
            available: 1,
        }
        .message(),
        "source lacks material in [BlockRange { start: BlockNumber(1), end: BlockNumber(2) }, BlockRange { start: BlockNumber(4), end: BlockNumber(4) }]: required 4, available 1"
    );
    assert_eq!(
        SourceError::UnsupportedBlockVersion(b"ca\"p".to_vec()).message(),
        "corrupt frame: unsupported Xatu beacon block version \"ca\\\"p\"; execution-size rules must be updated explicitly"
    );
    assert_eq!(
        SourceError::UnsupportedBlockVersion(vec![0x61, 0xff]).message(),
        "corrupt frame: unsupported Xatu beacon block version \"a\u{fffd}\"; execution-size rules must be updated explicitly"
    );
    assert_eq!(
        SourceError::CorruptRows(DataProblem::MissingBeaconBlock(3)).message(),
        "corrupt frame: missing beacon block 3"
    );
    assert_eq!(
        SourceError::CorruptColumn { column: "slot", data_type: "Utf8".to_owned() }.message(),
        "corrupt frame: slot has unexpected Arrow type Utf8"
    );
}

#[test]
fn data_problems_are_told() {
    let hex = DataProblem::InvalidHex {
        column: "block_hash",
        element: None,
        row: 2,
        byte: b'g',
        position: 5,
    };
    assert_eq!(
        hex.message(),
        "block_hash at row 2 has invalid hex: Invalid character 'g' at position 5"
    );
    let quoted = DataProblem::InvalidHex {
        column: "blob_hashes",
        element: Some(1),
        row: 2,
        byte: b'\'',
        position: 0,
    };
    assert_eq!(
        quoted.message(),
        "blob_hashes element 1 at row 2 has invalid hex: Invalid character '\\'' at position 0"
    );
    assert_eq!(
        DataProblem::ByteLength {
            column: "block_hash",
            element: None,
            row: 0,
            length: 31,
            expected: 32,
        }
        .message(),
        "block_hash at row 0 has 31 bytes; expected 32 raw bytes or 0x-prefixed hex"
    );
    assert_eq!(
        DataProblem::Overflow { column: "slot", width: "u32", row: 4 }.message(),
        "slot overflows u32 at row 4"
    );
    assert_eq!(
        DataProblem::BlobGasDisagreement(TransactionHash([0x10; 32])).message(),
        format!("blob gas/hash-count disagreement for 0x{}", "10".repeat(32))
    );
    assert_eq!(
        XatuError::Data(DataProblem::Duplicate("execution block")).message(),
        "Xatu projected data is invalid: duplicate execution block row"
    );
    assert_eq!(
        XatuError::Schema {
            table: XatuTable::CanonicalExecutionBlock,
            missing: vec!["a".to_owned(), "b".to_owned()],
        }
        .message(),
        "Xatu table canonical_execution_block is missing required columns: [\"a\", \"b\"]"
    );
    assert_eq!(
        XatuError::IncompleteRange {
            table: XatuTable::CanonicalExecutionBlock,
            range: range(1, 2),
            expected: 2,
            actual: 1,
        }
        .message(),
        "Xatu table canonical_execution_block does not completely cover BlockRange { start: BlockNumber(1), end: BlockNumber(2) }: expected 2 rows, received 1"
    );
    assert_eq!(
        XatuError::Budget { resource: "rows", actual: 3, limit: 2 }.message(),
        "Xatu projection exceeded the rows budget: 3 > 2"
    );
}

#[test]
fn sink_refusals_are_told() {
    assert_eq!(
        ArtifactSinkError::Conflict(range(1, 4)).message(),
        "artifact sink conflicts with retained range BlockRange { start: BlockNumber(1), end: BlockNumber(4) }"
    );
    assert_eq!(
        ArtifactSinkError::Batch(BatchProblem::NotContiguous).message(),
        "artifact sink batch is invalid: artifact batch must be contiguous, parent-linked, and single-chain"
    );
    assert_eq!(
        ArtifactSinkError::InvalidScanLimit(10_001).message(),
        "artifact sink scan limit 10001 is outside 1..=10000"
    );
    assert_eq!(
        ArtifactSinkError::Segment(ArtifactSegmentError::OutOfOrder {
            expected: BlockNumber(2),
            received: BlockNumber(3),
        })
        .message(),
        "artifact segment failed: artifact segment expected block 2, received 3"
    );
    assert_eq!(
        ArtifactSegmentError::Incomplete { expected: 4, observed: 3 }.message(),
        "artifact segment is incomplete: expected 4 artifacts, observed 3"
    );
}
