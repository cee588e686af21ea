//! Catalog records of closed segments, and the table rows that hold them.

use crate::bytes::{array32, array32_at, lemma_array32};
use crate::history::error::{CatalogProblem, HistoryStoreError};
use crate::history::job::{RawHistoryIndexPolicy, RawHistoryProfile};
use crate::history::layout::{
    is_segment_id, Compression, MaterialShapeId, SegmentDescriptor, SegmentError, SegmentId,
    VerificationClass, FORMAT_VERSION, FRAME_ENCODING_VERSION,
};
use crate::history::segment::{SegmentFacts, SegmentMetadata};
use crate::primitives::{
    BlockHash, BlockNumber, BlockRange, CapabilitySet, ChainId, InvalidRange, TrustModel,
    CAPABILITY_BITS,
};
use crate::text::same_text;
use vstd::prelude::*;

verus! {

/// A number that a signed column can hold.
pub open spec fn fits_column(value: u64) -> bool {
    value <= i64::MAX
}

/// Refuses a number that a signed column cannot hold.
pub fn u64_i64(value: u64, name: &'static str) -> (column: Result<i64, HistoryStoreError>)
    ensures
        column == (if fits_column(value) {
            Ok::<i64, HistoryStoreError>(value as i64)
        } else {
            Err(HistoryStoreError::NumericRange(name))
        }),
{
    if value <= i64::MAX as u64 {
        Ok(value as i64)
    } else {
        Err(HistoryStoreError::NumericRange(name))
    }
}

/// Refuses a negative column.
pub fn i64_u64(column: i64, name: &'static str) -> (value: Result<u64, HistoryStoreError>)
    ensures
        value == (if 0 <= column {
            Ok::<u64, HistoryStoreError>(column as u64)
        } else {
            Err(HistoryStoreError::NumericRange(name))
        }),
{
    if column < 0 {
        return Err(HistoryStoreError::NumericRange(name));
    }
    Ok(column as u64)
}

/// Refuses a column that is no 32-bit number.
pub fn i64_u32(column: i64, name: &'static str) -> (value: Result<u32, HistoryStoreError>)
    ensures
        value == (if 0 <= column <= u32::MAX {
            Ok::<u32, HistoryStoreError>(column as u32)
        } else {
            Err(HistoryStoreError::NumericRange(name))
        }),
{
    if column < 0 || column > u32::MAX as i64 {
        return Err(HistoryStoreError::NumericRange(name));
    }
    Ok(column as u32)
}

/// Refuses a column that is no 16-bit number.
pub fn i64_u16(column: i64, name: &'static str) -> (value: Result<u16, HistoryStoreError>)
    ensures
        value == (if 0 <= column <= u16::MAX {
            Ok::<u16, HistoryStoreError>(column as u16)
        } else {
            Err(HistoryStoreError::NumericRange(name))
        }),
{
    if column < 0 || column > u16::MAX as i64 {
        return Err(HistoryStoreError::NumericRange(name));
    }
    Ok(column as u16)
}

/// Refuses a column that is no byte.
pub fn i64_u8(column: i64, name: &'static str) -> (value: Result<u8, HistoryStoreError>)
    ensures
        value == (if 0 <= column <= u8::MAX {
            Ok::<u8, HistoryStoreError>(column as u8)
        } else {
            Err(HistoryStoreError::NumericRange(name))
        }),
{
    if column < 0 || column > u8::MAX as i64 {
        return Err(HistoryStoreError::NumericRange(name));
    }
    Ok(column as u8)
}

/// Refuses a blob that is not 32 bytes long.
pub fn blob32(blob: &Vec<u8>, name: &'static str) -> (value: Result<[u8; 32], HistoryStoreError>)
    ensures
        value == (if blob@.len() == 32 {
            Ok::<[u8; 32], HistoryStoreError>(array32(blob@))
        } else {
            Err(
                HistoryStoreError::CatalogIntegrity(CatalogProblem::NotThirtyTwoBytes(name)),
            )
        }),
{
    if blob.len() != 32 {
        return Err(HistoryStoreError::CatalogIntegrity(CatalogProblem::NotThirtyTwoBytes(name)));
    }
    assert(blob@.subrange(0, 32) =~= blob@);
    Ok(array32_at(blob.as_slice(), 0))
}

/// Why a retained segment must not be deleted.
#[derive(Clone, Copy, Debug, PartialEq, Eq, Structural)]
pub enum SegmentOwnerKind {
    RawHistoryJob,
    ProcessorJob,
    OperatorPin,
}

impl SegmentOwnerKind {
    pub open spec fn spec_str(self) -> &'static str {
        match self {
            SegmentOwnerKind::RawHistoryJob => "raw_history_job",
            SegmentOwnerKind::ProcessorJob => "processor_job",
            SegmentOwnerKind::OperatorPin => "operator_pin",
        }
    }

    /// The text that stands for the kind in the catalog.
    pub fn as_str(self) -> (text: &'static str)
        ensures
            text == self.spec_str(),
    {
        match self {
            SegmentOwnerKind::RawHistoryJob => "raw_history_job",
            SegmentOwnerKind::ProcessorJob => "processor_job",
            SegmentOwnerKind::OperatorPin => "operator_pin",
        }
    }

    /// Reads a kind from its text.
    pub fn parse(value: String) -> (kind: Result<SegmentOwnerKind, HistoryStoreError>)
        ensures
            match kind {
                Ok(kind) => kind.spec_str()@ == value@,
                Err(error) => {
                    &&& error == HistoryStoreError::CatalogIntegrity(
                        CatalogProblem::UnknownOwnerKind(value),
                    )
                    &&& forall|kind: SegmentOwnerKind| (#[trigger] kind.spec_str())@ != value@
                },
            },
    {
        if same_text(value.as_str(), "raw_history_job") {
            Ok(SegmentOwnerKind::RawHistoryJob)
        } else if same_text(value.as_str(), "processor_job") {
            Ok(SegmentOwnerKind::ProcessorJob)
        } else if same_text(value.as_str(), "operator_pin") {
            Ok(SegmentOwnerKind::OperatorPin)
        } else {
            Err(HistoryStoreError::CatalogIntegrity(CatalogProblem::UnknownOwnerKind(value)))
        }
    }
}

/// The text of an owner kind names that kind alone, so that reading it gives
/// the kind back.
pub proof fn law_owner_kind_text_is_unique(left: SegmentOwnerKind, right: SegmentOwnerKind)
    requires
        left.spec_str()@ == right.spec_str()@,
    ensures
        left == right,
{
    reveal_strlit("raw_history_job");
    reveal_strlit("processor_job");
    reveal_strlit("operator_pin");
    assert("raw_history_job"@.len() == 15);
    assert("processor_job"@.len() == 13);
    assert("operator_pin"@.len() == 12);
}

/// Catalog representation of one closed segment.
#[derive(Debug)]
pub struct SegmentRecord {
    pub metadata: SegmentMetadata,
    pub profile: RawHistoryProfile,
    pub indexes: RawHistoryIndexPolicy,
    pub relative_path: String,
    pub created_at_unix_ms: u64,
}

/// What a catalog record says.
pub struct RecordView {
    pub id: Seq<char>,
    pub facts: SegmentFacts,
    pub profile: RawHistoryProfile,
    pub indexes: RawHistoryIndexPolicy,
    pub relative_path: Seq<char>,
    pub created_at_unix_ms: u64,
}

impl View for SegmentRecord {
    type V = RecordView;

    open spec fn view(&self) -> RecordView {
        RecordView {
            id: self.metadata.id@,
            facts: self.metadata.facts(),
            profile: self.profile,
            indexes: self.indexes,
            relative_path: self.relative_path@,
            created_at_unix_ms: self.created_at_unix_ms,
        }
    }
}

impl Clone for SegmentRecord {
    fn clone(&self) -> (copy: SegmentRecord)
        ensures
            copy == *self,
    {
        SegmentRecord {
            metadata: self.metadata.clone(),
            profile: self.profile,
            indexes: self.indexes,
            relative_path: self.relative_path.clone(),
            created_at_unix_ms: self.created_at_unix_ms,
        }
    }
}

/// One row of the segment table.
#[derive(Debug)]
pub struct SegmentRow {
    pub segment_id: String,
    pub chain_id: i64,
    pub start_block: i64,
    pub end_block: i64,
    pub material_shape: Vec<u8>,
    pub present_capabilities: i64,
    pub complete_capabilities: i64,
    pub verification_class: i64,
    pub trust_model: i64,
    pub format_version: i64,
    pub frame_encoding_version: i64,
    pub compression: i64,
    pub history_profile: i64,
    pub merge_block: Option<i64>,
    pub block_hash_indexed: i64,
    pub transaction_hash_indexed: i64,
    pub relative_path: String,
    pub logical_bytes: i64,
    pub physical_bytes: i64,
    pub first_parent_hash: Vec<u8>,
    pub last_hash: Vec<u8>,
    pub ordered_hash_digest: Vec<u8>,
    pub records_checksum: Vec<u8>,
    pub content_checksum: Vec<u8>,
    pub created_at_unix_ms: i64,
}

/// The first number of a record that its row cannot hold.
pub open spec fn row_overflow(
    facts: SegmentFacts,
    profile: RawHistoryProfile,
    created_at_unix_ms: u64,
) -> Option<&'static str> {
    if !fits_column(facts.descriptor.chain_id.0) {
        Some("chain ID")
    } else if !fits_column(facts.descriptor.range.start.0) {
        Some("start block")
    } else if !fits_column(facts.descriptor.range.end.0) {
        Some("end block")
    } else if profile matches RawHistoryProfile::PostMergeExecutionRpc { merge_block }
        && !fits_column(merge_block.0) {
        Some("Merge block")
    } else if !fits_column(facts.logical_bytes) {
        Some("logical bytes")
    } else if !fits_column(facts.physical_bytes) {
        Some("physical bytes")
    } else if !fits_column(created_at_unix_ms) {
        Some("segment creation time")
    } else {
        None
    }
}

/// The row that holds a record.
pub open spec fn row_holds(row: SegmentRow, record: RecordView) -> bool {
    let descriptor = record.facts.descriptor;
    &&& row.segment_id@ == record.id
    &&& row.chain_id == descriptor.chain_id.0
    &&& row.start_block == descriptor.range.start.0
    &&& row.end_block == descriptor.range.end.0
    &&& row.material_shape@ == descriptor.material_shape.0@
    &&& row.present_capabilities == descriptor.present_capabilities.bits
    &&& row.complete_capabilities == descriptor.complete_capabilities.bits
    &&& row.verification_class == descriptor.verification.spec_rank()
    &&& row.trust_model == descriptor.trust.spec_rank()
    &&& row.format_version == FORMAT_VERSION
    &&& row.frame_encoding_version == FRAME_ENCODING_VERSION
    &&& row.compression == record.facts.compression.spec_byte()
    &&& match record.profile {
        RawHistoryProfile::ProcessorReuse => row.history_profile == 0 && row.merge_block is None,
        RawHistoryProfile::PostMergeExecutionRpc { merge_block } => row.history_profile == 1
            && row.merge_block == Some(merge_block.0 as i64),
    }
    &&& row.block_hash_indexed == (if record.indexes.block_hash {
        1i64
    } else {
        0i64
    })
    &&& row.transaction_hash_indexed == (if record.indexes.transaction_hash {
        1i64
    } else {
        0i64
    })
    &&& row.relative_path@ == record.relative_path
    &&& row.logical_bytes == record.facts.logical_bytes
    &&& row.physical_bytes == record.facts.physical_bytes
    &&& row.first_parent_hash@ == record.facts.first_parent_hash.0@
    &&& row.last_hash@ == record.facts.last_hash.0@
    &&& row.ordered_hash_digest@ == record.facts.ordered_hash_digest@
    &&& row.records_checksum@ == record.facts.records_checksum@
    &&& row.content_checksum@ == record.facts.content_checksum@
    &&& row.created_at_unix_ms == record.created_at_unix_ms
}

fn bytes_of(array: &[u8; 32]) -> (bytes: Vec<u8>)
    ensures
        bytes@ == array@,
{
    let mut bytes: Vec<u8> = Vec::new();
    crate::bytes::push_bytes(&mut bytes, array);
    assert(bytes@ =~= array@);
    bytes
}

fn flag(value: bool) -> (column: i64)
    ensures
        column == (if value {
            1i64
        } else {
            0i64
        }),
{
    if value {
        1
    } else {
        0
    }
}

impl SegmentRow {
    /// The row of a record, unless one of its numbers fits no column.
    pub fn encode(record: &SegmentRecord) -> (outcome: Result<SegmentRow, HistoryStoreError>)
        ensures
            match outcome {
                Ok(row) => row_overflow(
                    record.metadata.facts(),
                    record.profile,
                    record.created_at_unix_ms,
                ) is None && row_holds(row, record@),
                Err(error) => match row_overflow(
                    record.metadata.facts(),
                    record.profile,
                    record.created_at_unix_ms,
                ) {
                    Some(name) => error == HistoryStoreError::NumericRange(name),
                    None => false,
                },
            },
    {
        let metadata: &SegmentMetadata = &record.metadata;
        let descriptor: &SegmentDescriptor = &metadata.descriptor;
        let chain_id: i64 = u64_i64(descriptor.chain_id.0, "chain ID")?;
        let start_block: i64 = u64_i64(descriptor.range.start.0, "start block")?;
        let end_block: i64 = u64_i64(descriptor.range.end.0, "end block")?;
        let history_profile: i64 = match record.profile {
            RawHistoryProfile::ProcessorReuse => 0,
            RawHistoryProfile::PostMergeExecutionRpc { .. } => 1,
        };
        let merge_block: Option<i64> = match record.profile {
            RawHistoryProfile::ProcessorReuse => None,
            RawHistoryProfile::PostMergeExecutionRpc { merge_block } => Some(
                u64_i64(merge_block.0, "Merge block")?,
            ),
        };
        let logical_bytes: i64 = u64_i64(metadata.logical_bytes, "logical bytes")?;
        let physical_bytes: i64 = u64_i64(metadata.physical_bytes, "physical bytes")?;
        let created_at_unix_ms: i64 = u64_i64(record.created_at_unix_ms, "segment creation time")?;
        Ok(
            SegmentRow {
                segment_id: metadata.id.as_str().to_owned(),
                chain_id,
                start_block,
                end_block,
                material_shape: bytes_of(&descriptor.material_shape.0),
                present_capabilities: descriptor.present_capabilities.bits() as i64,
                complete_capabilities: descriptor.complete_capabilities.bits() as i64,
                verification_class: descriptor.verification.rank() as i64,
                trust_model: descriptor.trust.rank() as i64,
                format_version: FORMAT_VERSION as i64,
                frame_encoding_version: FRAME_ENCODING_VERSION as i64,
                compression: metadata.compression.byte() as i64,
                history_profile,
                merge_block,
                block_hash_indexed: flag(record.indexes.block_hash),
                transaction_hash_indexed: flag(record.indexes.transaction_hash),
                relative_path: record.relative_path.clone(),
                logical_bytes,
                physical_bytes,
                first_parent_hash: bytes_of(&metadata.first_parent_hash.0),
                last_hash: bytes_of(&metadata.last_hash.0),
                ordered_hash_digest: bytes_of(&metadata.ordered_hash_digest),
                records_checksum: bytes_of(&metadata.records_checksum),
                content_checksum: bytes_of(&metadata.content_checksum),
                created_at_unix_ms,
            },
        )
    }

    /// What a row says of the segment's identity and range.
    pub open spec fn identity_problem(self) -> Option<HistoryStoreError> {
        if !(0 <= self.format_version <= u16::MAX) {
            Some(HistoryStoreError::NumericRange("segment format version"))
        } else if self.format_version != FORMAT_VERSION {
            Some(
                HistoryStoreError::CatalogIntegrity(
                    CatalogProblem::FormatVersion(self.format_version as u16),
                ),
            )
        } else if !(0 <= self.frame_encoding_version <= u16::MAX) {
            Some(HistoryStoreError::NumericRange("frame encoding version"))
        } else if self.frame_encoding_version != FRAME_ENCODING_VERSION {
            Some(
                HistoryStoreError::CatalogIntegrity(
                    CatalogProblem::FrameEncodingVersion(self.frame_encoding_version as u16),
                ),
            )
        } else if !is_segment_id(self.segment_id@) {
            Some(HistoryStoreError::Segment(SegmentError::InvalidId(self.segment_id)))
        } else if self.chain_id < 0 {
            Some(HistoryStoreError::NumericRange("chain ID"))
        } else if self.start_block < 0 {
            Some(HistoryStoreError::NumericRange("start block"))
        } else if self.end_block < 0 {
            Some(HistoryStoreError::NumericRange("end block"))
        } else if self.start_block > self.end_block {
            Some(
                HistoryStoreError::CatalogIntegrity(
                    CatalogProblem::Range(
                        InvalidRange {
                            start: BlockNumber(self.start_block as u64),
                            end: BlockNumber(self.end_block as u64),
                        },
                    ),
                ),
            )
        } else {
            None
        }
    }

    /// What is wrong with the material columns.
    pub open spec fn material_problem(self) -> Option<HistoryStoreError> {
        if self.material_shape@.len() != 32 {
            Some(
                HistoryStoreError::CatalogIntegrity(
                    CatalogProblem::NotThirtyTwoBytes("material shape"),
                ),
            )
        } else if !(0 <= self.present_capabilities <= u16::MAX) {
            Some(HistoryStoreError::NumericRange("present capabilities"))
        } else if !(0 <= self.complete_capabilities <= u16::MAX) {
            Some(HistoryStoreError::NumericRange("complete capabilities"))
        } else if (self.present_capabilities as u16) & !CAPABILITY_BITS != 0 {
            Some(
                HistoryStoreError::CatalogIntegrity(
                    CatalogProblem::Text("unknown present capability bits"),
                ),
            )
        } else if (self.complete_capabilities as u16) & !CAPABILITY_BITS != 0 {
            Some(
                HistoryStoreError::CatalogIntegrity(
                    CatalogProblem::Text("unknown complete capability bits"),
                ),
            )
        } else if !(0 <= self.verification_class <= u8::MAX) {
            Some(HistoryStoreError::NumericRange("verification class"))
        } else if self.verification_class > 2 {
            Some(
                HistoryStoreError::Segment(
                    SegmentError::UnknownVerification(self.verification_class as u8),
                ),
            )
        } else if !(0 <= self.trust_model <= u8::MAX) {
            Some(HistoryStoreError::NumericRange("trust model"))
        } else if self.trust_model > 3 {
            Some(
                HistoryStoreError::CatalogIntegrity(
                    CatalogProblem::UnknownTrust(self.trust_model as u8),
                ),
            )
        } else if !(0 <= self.compression <= u8::MAX) {
            Some(HistoryStoreError::NumericRange("compression"))
        } else if self.compression > 2 {
            Some(
                HistoryStoreError::Segment(SegmentError::UnknownCompression(self.compression as u8)),
            )
        } else if self.history_profile != 0 && self.history_profile != 1 {
            Some(
                HistoryStoreError::CatalogIntegrity(
                    CatalogProblem::UnknownProfile(self.history_profile),
                ),
            )
        } else if self.history_profile == 1 && self.merge_block is None {
            Some(
                HistoryStoreError::CatalogIntegrity(
                    CatalogProblem::Text("post-Merge execution-RPC segment lacks Merge block"),
                ),
            )
        } else if self.history_profile == 1 && self.merge_block->0 < 0 {
            Some(HistoryStoreError::NumericRange("Merge block"))
        } else {
            None
        }
    }

    /// What is wrong with the sizes, digests and time.
    pub open spec fn content_problem(self) -> Option<HistoryStoreError> {
        if self.logical_bytes < 0 {
            Some(HistoryStoreError::NumericRange("logical bytes"))
        } else if self.physical_bytes < 0 {
            Some(HistoryStoreError::NumericRange("physical bytes"))
        } else if self.first_parent_hash@.len() != 32 {
            Some(
                HistoryStoreError::CatalogIntegrity(
                    CatalogProblem::NotThirtyTwoBytes("first parent hash"),
                ),
            )
        } else if self.last_hash@.len() != 32 {
            Some(
                HistoryStoreError::CatalogIntegrity(CatalogProblem::NotThirtyTwoBytes("last hash")),
            )
        } else if self.ordered_hash_digest@.len() != 32 {
            Some(
                HistoryStoreError::CatalogIntegrity(
                    CatalogProblem::NotThirtyTwoBytes("ordered hash digest"),
                ),
            )
        } else if self.records_checksum@.len() != 32 {
            Some(
                HistoryStoreError::CatalogIntegrity(
                    CatalogProblem::NotThirtyTwoBytes("records checksum"),
                ),
            )
        } else if self.content_checksum@.len() != 32 {
            Some(
                HistoryStoreError::CatalogIntegrity(
                    CatalogProblem::NotThirtyTwoBytes("content checksum"),
                ),
            )
        } else if self.created_at_unix_ms < 0 {
            Some(HistoryStoreError::NumericRange("segment creation time"))
        } else {
            None
        }
    }

    /// The first reason to refuse a row.
    pub open spec fn problem(self) -> Option<HistoryStoreError> {
        if self.identity_problem() is Some {
            self.identity_problem()
        } else if self.material_problem() is Some {
            self.material_problem()
        } else {
            self.content_problem()
        }
    }

    /// The descriptor that an acceptable row stands for.
    pub open spec fn spec_descriptor(self) -> SegmentDescriptor {
        SegmentDescriptor {
            chain_id: ChainId(self.chain_id as u64),
            range: BlockRange {
                start: BlockNumber(self.start_block as u64),
                end: BlockNumber(self.end_block as u64),
            },
            material_shape: MaterialShapeId(array32(self.material_shape@)),
            present_capabilities: CapabilitySet { bits: self.present_capabilities as u16 },
            complete_capabilities: CapabilitySet { bits: self.complete_capabilities as u16 },
            verification: VerificationClass::spec_from_byte(self.verification_class as u8)->Ok_0,
            trust: TrustModel::spec_from_rank(self.trust_model as u8)->0,
        }
    }

    /// The record that an acceptable row stands for. Log locators are never
    /// recorded.
    pub open spec fn spec_record(self) -> RecordView {
        RecordView {
            id: self.segment_id@,
            facts: SegmentFacts {
                descriptor: self.spec_descriptor(),
                compression: Compression::spec_from_byte(self.compression as u8)->Ok_0,
                logical_bytes: self.logical_bytes as u64,
                physical_bytes: self.physical_bytes as u64,
                first_parent_hash: BlockHash(array32(self.first_parent_hash@)),
                last_hash: BlockHash(array32(self.last_hash@)),
                ordered_hash_digest: array32(self.ordered_hash_digest@),
                records_checksum: array32(self.records_checksum@),
                content_checksum: array32(self.content_checksum@),
            },
            profile: if self.history_profile == 0 {
                RawHistoryProfile::ProcessorReuse
            } else {
                RawHistoryProfile::PostMergeExecutionRpc {
                    merge_block: BlockNumber(self.merge_block->0 as u64),
                }
            },
            indexes: RawHistoryIndexPolicy {
                block_hash: self.block_hash_indexed != 0,
                transaction_hash: self.transaction_hash_indexed != 0,
                logs: false,
            },
            relative_path: self.relative_path@,
            created_at_unix_ms: self.created_at_unix_ms as u64,
        }
    }

    /// The record that a row holds, or the first thing wrong with the row.
    pub fn decode(self) -> (outcome: Result<SegmentRecord, HistoryStoreError>)
        ensures
            match outcome {
                Ok(record) => {
                    &&& self.problem() is None
                    &&& record@ == self.spec_record()
                    &&& record.metadata.descriptor.range.wf()
                },
                Err(error) => Some(error) == self.problem(),
            },
    {
        let format_version: u16 = i64_u16(self.format_version, "segment format version")?;
        if format_version != FORMAT_VERSION {
            return Err(
                HistoryStoreError::CatalogIntegrity(CatalogProblem::FormatVersion(format_version)),
            );
        }
        let frame_encoding_version: u16 = i64_u16(
            self.frame_encoding_version,
            "frame encoding version",
        )?;
        if frame_encoding_version != FRAME_ENCODING_VERSION {
            return Err(
                HistoryStoreError::CatalogIntegrity(
                    CatalogProblem::FrameEncodingVersion(frame_encoding_version),
                ),
            );
        }
        let id: SegmentId = match SegmentId::new(self.segment_id) {
            Ok(id) => id,
            Err(error) => {
                return Err(HistoryStoreError::Segment(error));
            },
        };
        let chain_id: u64 = i64_u64(self.chain_id, "chain ID")?;
        let start: u64 = i64_u64(self.start_block, "start block")?;
        let end: u64 = i64_u64(self.end_block, "end block")?;
        let range: BlockRange = match BlockRange::new(BlockNumber(start), BlockNumber(end)) {
            Ok(range) => range,
            Err(invalid) => {
                return Err(HistoryStoreError::CatalogIntegrity(CatalogProblem::Range(invalid)));
            },
        };
        let material_shape: [u8; 32] = blob32(&self.material_shape, "material shape")?;
        let present_bits: u16 = i64_u16(self.present_capabilities, "present capabilities")?;
        let complete_bits: u16 = i64_u16(self.complete_capabilities, "complete capabilities")?;
        let present_capabilities: CapabilitySet = match CapabilitySet::from_bits(present_bits) {
            Some(set) => set,
            None => {
                return Err(
                    HistoryStoreError::CatalogIntegrity(
                        CatalogProblem::Text("unknown present capability bits"),
                    ),
                );
            },
        };
        let complete_capabilities: CapabilitySet = match CapabilitySet::from_bits(complete_bits) {
            Some(set) => set,
            None => {
                return Err(
                    HistoryStoreError::CatalogIntegrity(
                        CatalogProblem::Text("unknown complete capability bits"),
                    ),
                );
            },
        };
        let class_byte: u8 = i64_u8(self.verification_class, "verification class")?;
        let verification: VerificationClass = match VerificationClass::from_byte(class_byte) {
            Ok(class) => class,
            Err(error) => {
                return Err(HistoryStoreError::Segment(error));
            },
        };
        let trust_byte: u8 = i64_u8(self.trust_model, "trust model")?;
        let trust: TrustModel = match TrustModel::from_rank(trust_byte) {
            Some(trust) => trust,
            None => {
                return Err(
                    HistoryStoreError::CatalogIntegrity(CatalogProblem::UnknownTrust(trust_byte)),
                );
            },
        };
        let compression_byte: u8 = i64_u8(self.compression, "compression")?;
        let compression: Compression = match Compression::from_byte(compression_byte) {
            Ok(compression) => compression,
            Err(error) => {
                return Err(HistoryStoreError::Segment(error));
            },
        };
        let profile: RawHistoryProfile = if self.history_profile == 0 {
            RawHistoryProfile::ProcessorReuse
        } else if self.history_profile == 1 {
            match self.merge_block {
                Some(column) => RawHistoryProfile::PostMergeExecutionRpc {
                    merge_block: BlockNumber(i64_u64(column, "Merge block")?),
                },
                None => {
                    return Err(
                        HistoryStoreError::CatalogIntegrity(
                            CatalogProblem::Text(
                                "post-Merge execution-RPC segment lacks Merge block",
                            ),
                        ),
                    );
                },
            }
        } else {
            return Err(
                HistoryStoreError::CatalogIntegrity(
                    CatalogProblem::UnknownProfile(self.history_profile),
                ),
            );
        };
        let logical_bytes: u64 = i64_u64(self.logical_bytes, "logical bytes")?;
        let physical_bytes: u64 = i64_u64(self.physical_bytes, "physical bytes")?;
        let first_parent_hash: [u8; 32] = blob32(&self.first_parent_hash, "first parent hash")?;
        let last_hash: [u8; 32] = blob32(&self.last_hash, "last hash")?;
        let ordered_hash_digest: [u8; 32] = blob32(
            &self.ordered_hash_digest,
            "ordered hash digest",
        )?;
        let records_checksum: [u8; 32] = blob32(&self.records_checksum, "records checksum")?;
        let content_checksum: [u8; 32] = blob32(&self.content_checksum, "content checksum")?;
        let created_at_unix_ms: u64 = i64_u64(self.created_at_unix_ms, "segment creation time")?;
        Ok(
            SegmentRecord {
                metadata: SegmentMetadata {
                    id,
                    descriptor: SegmentDescriptor {
                        chain_id: ChainId(chain_id),
                        range,
                        material_shape: MaterialShapeId(material_shape),
                        present_capabilities,
                        complete_capabilities,
                        verification,
                        trust,
                    },
                    compression,
                    logical_bytes,
                    physical_bytes,
                    first_parent_hash: BlockHash(first_parent_hash),
                    last_hash: BlockHash(last_hash),
                    ordered_hash_digest,
                    records_checksum,
                    content_checksum,
                },
                profile,
                indexes: RawHistoryIndexPolicy {
                    block_hash: self.block_hash_indexed != 0,
                    transaction_hash: self.transaction_hash_indexed != 0,
                    logs: false,
                },
                relative_path: self.relative_path,
                created_at_unix_ms,
            },
        )
    }
}

/// Reading a row gives back the record that was written to it, for every
/// record of a segment that could be closed.
pub proof fn law_row_round_trip(row: SegmentRow, record: RecordView)
    requires
        row_overflow(record.facts, record.profile, record.created_at_unix_ms) is None,
        row_holds(row, record),
        is_segment_id(record.id),
        record.facts.descriptor.wf(),
        !record.indexes.logs,
    ensures
        row.problem() is None,
        row.spec_record() == record,
{
    lemma_array32(record.facts.descriptor.material_shape.0);
    lemma_array32(record.facts.first_parent_hash.0);
    lemma_array32(record.facts.last_hash.0);
    lemma_array32(record.facts.ordered_hash_digest);
    lemma_array32(record.facts.records_checksum);
    lemma_array32(record.facts.content_checksum);
}

/// Refuses metadata of a file that differs from what the catalog says.
pub fn ensure_metadata_matches(expected: &SegmentMetadata, actual: &SegmentMetadata) -> (outcome:
    Result<(), HistoryStoreError>)
    ensures
        outcome == (if expected.id@ == actual.id@ && expected.facts() == actual.facts() {
            Ok::<(), HistoryStoreError>(())
        } else {
            Err(HistoryStoreError::CatalogIntegrity(CatalogProblem::MetadataDiffers(expected.id)))
        }),
{
    if !expected.same(actual) {
        return Err(
            HistoryStoreError::CatalogIntegrity(
                CatalogProblem::MetadataDiffers(expected.id.clone()),
            ),
        );
    }
    Ok(())
}

} // verus!
