//! Writing, opening and reading artifact segment files.

use crate::bytes::{
    array32, array32_at, be16, be32, be64, from_be16, from_be32, from_be64, lemma_array32,
    lemma_be64_round_trip, push_bytes, push_u64, same_array, same_bytes, u16_at, u32_at, u64_at,
};
use crate::codec::{
    snappy_compress, snappy_compressed, snappy_decompress, snappy_decompressed, zlib_compress,
    zlib_compressed, zlib_decompress, zlib_decompressed,
};
use crate::digest::{absorbed, blake3_digest, hasher_finalize, hasher_new, hasher_update};
use crate::primitives::{BlockHash, BlockNumber, BlockRange, BlockRef, ChainId};
use crate::text::same_text;
use vstd::prelude::*;

verus! {

/// Version of the artifact segment layout.
pub const FORMAT_VERSION: u16 = 2;

pub const HEADER_PREFIX_BYTES: u64 = 16;

pub const DIRECTORY_PREFIX_BYTES: u64 = 16;

pub const DIRECTORY_ENTRY_BYTES: u64 = 96;

pub const TRAILER_BYTES: u64 = 104;

/// Artifact segment codec and layout failure.
#[derive(Clone, Copy, Debug)]
pub enum ArtifactSegmentError {
    Encoding,
    Delta,
    InvalidLimits,
    Numeric(&'static str),
    Magic,
    Version(u16),
    UnknownCompression(u8),
    Snappy,
    Deflate,
    Truncated,
    Contract,
    Directory,
    ContentChecksum,
    RecordsChecksum,
    DecodedLength { expected: usize, actual: usize },
    OutOfOrder { expected: BlockNumber, received: BlockNumber },
    ParentLink(BlockNumber),
    OutsideRange(BlockNumber),
    RecordIdentity(BlockNumber),
    InvalidLimit(usize),
    ArtifactTooLarge { observed: u64, limit: u64 },
    SegmentLogicalLimit { projected: u64, limit: u64 },
    SegmentPhysicalLimit { projected: u64, limit: u64 },
    Incomplete { expected: u64, observed: u64 },
}

/// Per-artifact compression. Each record remains independently seekable.
#[derive(Clone, Copy, Debug, PartialEq, Eq, Structural)]
pub enum ArtifactCompression {
    Uncompressed,
    Snappy,
    Deflate,
}

impl Default for ArtifactCompression {
    fn default() -> (compression: ArtifactCompression)
        ensures
            compression == ArtifactCompression::Uncompressed,
    {
        ArtifactCompression::Uncompressed
    }
}

impl ArtifactCompression {
    pub open spec fn spec_byte(self) -> u8 {
        match self {
            ArtifactCompression::Uncompressed => 0u8,
            ArtifactCompression::Snappy => 1u8,
            ArtifactCompression::Deflate => 2u8,
        }
    }

    pub fn byte(self) -> (byte: u8)
        ensures
            byte == self.spec_byte(),
    {
        match self {
            ArtifactCompression::Uncompressed => 0u8,
            ArtifactCompression::Snappy => 1u8,
            ArtifactCompression::Deflate => 2u8,
        }
    }

    pub open spec fn spec_from_byte(value: u8) -> Result<ArtifactCompression, ArtifactSegmentError> {
        if value == 0 {
            Ok(ArtifactCompression::Uncompressed)
        } else if value == 1 {
            Ok(ArtifactCompression::Snappy)
        } else if value == 2 {
            Ok(ArtifactCompression::Deflate)
        } else {
            Err(ArtifactSegmentError::UnknownCompression(value))
        }
    }

    pub fn from_byte(value: u8) -> (compression: Result<ArtifactCompression, ArtifactSegmentError>)
        ensures
            compression == ArtifactCompression::spec_from_byte(value),
    {
        match value {
            0 => Ok(ArtifactCompression::Uncompressed),
            1 => Ok(ArtifactCompression::Snappy),
            2 => Ok(ArtifactCompression::Deflate),
            other => Err(ArtifactSegmentError::UnknownCompression(other)),
        }
    }

    /// The stored form of `input`, if the codec can hold it.
    pub open spec fn stored(self, input: Seq<u8>) -> Option<Seq<u8>> {
        match self {
            ArtifactCompression::Uncompressed => Some(input),
            ArtifactCompression::Snappy => snappy_compressed(input),
            ArtifactCompression::Deflate => zlib_compressed(input),
        }
    }

    /// What a stored record holds, if it is one of this codec's.
    pub open spec fn unpacked(self, input: Seq<u8>) -> Option<Seq<u8>> {
        match self {
            ArtifactCompression::Uncompressed => Some(input),
            ArtifactCompression::Snappy => snappy_decompressed(input),
            ArtifactCompression::Deflate => zlib_decompressed(input),
        }
    }

    /// How a codec call fails.
    pub open spec fn failure(self) -> ArtifactSegmentError {
        match self {
            ArtifactCompression::Snappy => ArtifactSegmentError::Snappy,
            _ => ArtifactSegmentError::Deflate,
        }
    }

    /// The outcome of decoding a stored record of known logical length.
    pub open spec fn decoded(self, input: Seq<u8>, expected: usize) -> Result<
        Seq<u8>,
        ArtifactSegmentError,
    > {
        match self.unpacked(input) {
            None => Err(self.failure()),
            Some(output) => if output.len() == expected {
                Ok(output)
            } else {
                Err(
                    ArtifactSegmentError::DecodedLength { expected, actual: output.len() as usize },
                )
            },
        }
    }

    /// Compresses one record. Decoding the outcome gives the record back.
    pub fn encode(self, input: &[u8]) -> (output: Result<Vec<u8>, ArtifactSegmentError>)
        ensures
            output is Ok <==> self.stored(input@) is Some,
            output matches Ok(bytes) ==> {
                &&& self.stored(input@) == Some(bytes@)
                &&& self.unpacked(bytes@) == Some(input@)
            },
            output matches Err(error) ==> error == self.failure(),
    {
        match self {
            ArtifactCompression::Uncompressed => {
                let mut output: Vec<u8> = Vec::new();
                push_bytes(&mut output, input);
                assert(output@ =~= input@);
                Ok(output)
            },
            ArtifactCompression::Snappy => match snappy_compress(input) {
                Ok(output) => Ok(output),
                Err(_) => Err(ArtifactSegmentError::Snappy),
            },
            ArtifactCompression::Deflate => match zlib_compress(input) {
                Ok(output) => Ok(output),
                Err(_) => Err(ArtifactSegmentError::Deflate),
            },
        }
    }

    /// Decompresses one record, which must be `expected` bytes long.
    pub fn decode(self, input: &[u8], expected: usize) -> (output: Result<
        Vec<u8>,
        ArtifactSegmentError,
    >)
        ensures
            match output {
                Ok(bytes) => self.decoded(input@, expected) == Ok::<Seq<u8>, ArtifactSegmentError>(
                    bytes@,
                ),
                Err(error) => self.decoded(input@, expected) == Err::<
                    Seq<u8>,
                    ArtifactSegmentError,
                >(error),
            },
    {
        let output: Vec<u8> = match self {
            ArtifactCompression::Uncompressed => {
                let mut output: Vec<u8> = Vec::new();
                push_bytes(&mut output, input);
                assert(output@ =~= input@);
                output
            },
            ArtifactCompression::Snappy => match snappy_decompress(input) {
                Ok(output) => output,
                Err(_) => {
                    return Err(ArtifactSegmentError::Snappy);
                },
            },
            ArtifactCompression::Deflate => match zlib_decompress(input) {
                Ok(output) => output,
                Err(_) => {
                    return Err(ArtifactSegmentError::Deflate);
                },
            },
        };
        if output.len() != expected {
            return Err(
                ArtifactSegmentError::DecodedLength { expected, actual: output.len() },
            );
        }
        Ok(output)
    }
}

/// The identity under which a processor maps blocks to deltas.
#[derive(Debug)]
pub struct ProcessorContract {
    pub id: String,
    pub instance: String,
    pub version: String,
    pub code_hash: BlockHash,
    pub config_hash: BlockHash,
    pub delta_schema_version: u16,
}

/// A processor contract as plain values.
pub struct ContractView {
    pub id: Seq<char>,
    pub instance: Seq<char>,
    pub version: Seq<char>,
    pub code_hash: BlockHash,
    pub config_hash: BlockHash,
    pub delta_schema_version: u16,
}

impl View for ProcessorContract {
    type V = ContractView;

    open spec fn view(&self) -> ContractView {
        ContractView {
            id: self.id@,
            instance: self.instance@,
            version: self.version@,
            code_hash: self.code_hash,
            config_hash: self.config_hash,
            delta_schema_version: self.delta_schema_version,
        }
    }
}

impl Clone for ProcessorContract {
    fn clone(&self) -> (copy: ProcessorContract)
        ensures
            copy@ == self@,
    {
        ProcessorContract {
            id: self.id.clone(),
            instance: self.instance.clone(),
            version: self.version.clone(),
            code_hash: self.code_hash,
            config_hash: self.config_hash,
            delta_schema_version: self.delta_schema_version,
        }
    }
}

impl ProcessorContract {
    /// Whether two contracts agree in every part.
    pub fn same(&self, other: &ProcessorContract) -> (same: bool)
        ensures
            same == (self@ == other@),
    {
        same_text(self.id.as_str(), other.id.as_str()) && same_text(
            self.instance.as_str(),
            other.instance.as_str(),
        ) && same_text(self.version.as_str(), other.version.as_str()) && self.code_hash
            == other.code_hash && self.config_hash == other.config_hash
            && self.delta_schema_version == other.delta_schema_version
    }
}

/// Immutable map/delta and canonical-range identity of one segment.
#[derive(Debug)]
pub struct ArtifactSegmentDescriptor {
    pub contract: ProcessorContract,
    pub chain_id: ChainId,
    pub range: BlockRange,
}

/// A segment descriptor as plain values.
pub struct DescriptorView {
    pub contract: ContractView,
    pub chain_id: ChainId,
    pub range: BlockRange,
}

impl View for ArtifactSegmentDescriptor {
    type V = DescriptorView;

    open spec fn view(&self) -> DescriptorView {
        DescriptorView {
            contract: self.contract@,
            chain_id: self.chain_id,
            range: self.range,
        }
    }
}

impl Clone for ArtifactSegmentDescriptor {
    fn clone(&self) -> (copy: ArtifactSegmentDescriptor)
        ensures
            copy@ == self@,
    {
        ArtifactSegmentDescriptor {
            contract: self.contract.clone(),
            chain_id: self.chain_id,
            range: self.range,
        }
    }
}

/// The nine parts of an encoded descriptor.
pub type DescriptorParts = (
    String,
    String,
    String,
    [u8; 32],
    [u8; 32],
    u16,
    u64,
    u64,
    u64,
);

/// The postcard bytes of a descriptor's parts, in this order.
pub uninterp spec fn descriptor_encoded(
    id: Seq<char>,
    instance: Seq<char>,
    version: Seq<char>,
    code_hash: [u8; 32],
    config_hash: [u8; 32],
    delta_schema_version: u16,
    chain_id: u64,
    start: u64,
    end: u64,
) -> Option<Seq<u8>>;

/// The parts that postcard reads from the start of `bytes`, if it can.
pub uninterp spec fn descriptor_decoded(bytes: Seq<u8>) -> Option<
    (Seq<char>, Seq<char>, Seq<char>, [u8; 32], [u8; 32], u16, u64, u64, u64),
>;

impl DescriptorView {
    /// The encoded form of this descriptor.
    pub open spec fn encoded(self) -> Option<Seq<u8>> {
        descriptor_encoded(
            self.contract.id,
            self.contract.instance,
            self.contract.version,
            self.contract.code_hash.0,
            self.contract.config_hash.0,
            self.contract.delta_schema_version,
            self.chain_id.0,
            self.range.start.0,
            self.range.end.0,
        )
    }

    /// The descriptor that bytes encode: none if postcard cannot read them,
    /// or if the range they hold ends before it starts.
    pub open spec fn parsed(bytes: Seq<u8>) -> Option<DescriptorView> {
        match descriptor_decoded(bytes) {
            None => None,
            Some(parts) => if parts.7 > parts.8 {
                None
            } else {
                Some(
                    DescriptorView {
                        contract: ContractView {
                            id: parts.0,
                            instance: parts.1,
                            version: parts.2,
                            code_hash: BlockHash(parts.3),
                            config_hash: BlockHash(parts.4),
                            delta_schema_version: parts.5,
                        },
                        chain_id: ChainId(parts.6),
                        range: BlockRange {
                            start: BlockNumber(parts.7),
                            end: BlockNumber(parts.8),
                        },
                    },
                )
            },
        }
    }
}

/// The failure of a postcard call, `postcard::Error`.
#[verifier::external_type_specification]
#[verifier::external_body]
pub struct ExPostcardError(postcard::Error);

/// `postcard::to_allocvec` of a descriptor's parts: the encoded parts, from
/// which `from_bytes` reads the same parts back.
#[verifier::external_body]
fn encode_descriptor_parts(
    id: &str,
    instance: &str,
    version: &str,
    code_hash: [u8; 32],
    config_hash: [u8; 32],
    delta_schema_version: u16,
    chain_id: u64,
    start: u64,
    end: u64,
) -> (output: Result<Vec<u8>, postcard::Error>)
    ensures
        output matches Err(_) ==> descriptor_encoded(
            id@,
            instance@,
            version@,
            code_hash,
            config_hash,
            delta_schema_version,
            chain_id,
            start,
            end,
        ) is None,
        output matches Ok(bytes) ==> {
            &&& descriptor_encoded(
                id@,
                instance@,
                version@,
                code_hash,
                config_hash,
                delta_schema_version,
                chain_id,
                start,
                end,
            ) == Some(bytes@)
            &&& descriptor_decoded(bytes@) == Some(
                (
                    id@,
                    instance@,
                    version@,
                    code_hash,
                    config_hash,
                    delta_schema_version,
                    chain_id,
                    start,
                    end,
                ),
            )
        },
{
    postcard::to_allocvec(
        &(
            id,
            instance,
            version,
            code_hash,
            config_hash,
            delta_schema_version,
            chain_id,
            start,
            end,
        ),
    )
}

/// `postcard::from_bytes` into a descriptor's parts: the parts at the start
/// of `bytes`, or the error for bytes that hold none.
#[verifier::external_body]
fn decode_descriptor_parts(bytes: &[u8]) -> (output: Result<DescriptorParts, postcard::Error>)
    ensures
        output is Ok <==> descriptor_decoded(bytes@) is Some,
        output matches Ok(parts) ==> descriptor_decoded(bytes@) == Some(
            (
                parts.0@,
                parts.1@,
                parts.2@,
                parts.3,
                parts.4,
                parts.5,
                parts.6,
                parts.7,
                parts.8,
            ),
        ),
{
    postcard::from_bytes(bytes)
}

impl ArtifactSegmentDescriptor {
    pub fn new(processor: &ProcessorContract, chain_id: ChainId, range: BlockRange) -> (descriptor:
        ArtifactSegmentDescriptor)
        ensures
            descriptor@ == (DescriptorView { contract: processor@, chain_id, range }),
    {
        ArtifactSegmentDescriptor { contract: processor.clone(), chain_id, range }
    }

    /// Refuses a processor whose contract is not the one of the segment.
    pub fn validate_processor(&self, processor: &ProcessorContract) -> (outcome: Result<
        (),
        ArtifactSegmentError,
    >)
        ensures
            outcome == (if self@.contract == processor@ {
                Ok::<(), ArtifactSegmentError>(())
            } else {
                Err(ArtifactSegmentError::Contract)
            }),
    {
        if !self.contract.same(processor) {
            return Err(ArtifactSegmentError::Contract);
        }
        Ok(())
    }

    /// Whether two descriptors agree in every part.
    pub fn same(&self, other: &ArtifactSegmentDescriptor) -> (same: bool)
        ensures
            same == (self@ == other@),
    {
        self.contract.same(&other.contract) && self.chain_id == other.chain_id && self.range
            == other.range
    }

    /// Encodes the descriptor. Parsing the outcome gives the descriptor back.
    pub fn encode(&self) -> (output: Result<Vec<u8>, ArtifactSegmentError>)
        requires
            self.range.wf(),
        ensures
            output is Ok <==> self@.encoded() is Some,
            output matches Ok(bytes) ==> {
                &&& self@.encoded() == Some(bytes@)
                &&& DescriptorView::parsed(bytes@) == Some(self@)
            },
            output matches Err(error) ==> error == ArtifactSegmentError::Encoding,
    {
        match encode_descriptor_parts(
            self.contract.id.as_str(),
            self.contract.instance.as_str(),
            self.contract.version.as_str(),
            self.contract.code_hash.0,
            self.contract.config_hash.0,
            self.contract.delta_schema_version,
            self.chain_id.0,
            self.range.start.0,
            self.range.end.0,
        ) {
            Ok(bytes) => Ok(bytes),
            Err(_) => Err(ArtifactSegmentError::Encoding),
        }
    }

    /// Decodes a descriptor.
    pub fn decode(bytes: &[u8]) -> (output: Result<ArtifactSegmentDescriptor, ArtifactSegmentError>)
        ensures
            match output {
                Ok(descriptor) => {
                    &&& DescriptorView::parsed(bytes@) == Some(descriptor@)
                    &&& descriptor.range.wf()
                },
                Err(error) => {
                    &&& DescriptorView::parsed(bytes@) is None
                    &&& error == ArtifactSegmentError::Encoding
                },
            },
    {
        let parts = match decode_descriptor_parts(bytes) {
            Ok(parts) => parts,
            Err(_) => {
                return Err(ArtifactSegmentError::Encoding);
            },
        };
        let range = match BlockRange::new(BlockNumber(parts.7), BlockNumber(parts.8)) {
            Ok(range) => range,
            Err(_) => {
                return Err(ArtifactSegmentError::Encoding);
            },
        };
        Ok(
            ArtifactSegmentDescriptor {
                contract: ProcessorContract {
                    id: parts.0,
                    instance: parts.1,
                    version: parts.2,
                    code_hash: BlockHash(parts.3),
                    config_hash: BlockHash(parts.4),
                    delta_schema_version: parts.5,
                },
                chain_id: ChainId(parts.6),
                range,
            },
        )
    }
}

/// Hard limits checked before each append.
#[derive(Clone, Copy, Debug, PartialEq, Eq, Structural)]
pub struct ArtifactSegmentLimits {
    pub maximum_artifact_logical_bytes: u64,
    pub maximum_segment_logical_bytes: u64,
    pub maximum_segment_physical_bytes: u64,
}

impl ArtifactSegmentLimits {
    /// Non-zero limits under which one artifact fits in the segment.
    pub open spec fn wf(self) -> bool {
        &&& self.maximum_artifact_logical_bytes != 0
        &&& self.maximum_segment_logical_bytes != 0
        &&& self.maximum_segment_physical_bytes != 0
        &&& self.maximum_artifact_logical_bytes <= self.maximum_segment_logical_bytes
    }

    /// Accepts internally consistent non-zero limits.
    pub fn validate(self) -> (outcome: Result<ArtifactSegmentLimits, ArtifactSegmentError>)
        ensures
            outcome == (if self.wf() {
                Ok::<ArtifactSegmentLimits, ArtifactSegmentError>(self)
            } else {
                Err(ArtifactSegmentError::InvalidLimits)
            }),
    {
        if self.maximum_artifact_logical_bytes == 0 || self.maximum_segment_logical_bytes == 0
            || self.maximum_segment_physical_bytes == 0 || self.maximum_artifact_logical_bytes
            > self.maximum_segment_logical_bytes {
            return Err(ArtifactSegmentError::InvalidLimits);
        }
        Ok(self)
    }
}

/// Validated immutable metadata for a closed segment.
#[derive(Debug)]
pub struct ArtifactSegmentMetadata {
    pub descriptor: ArtifactSegmentDescriptor,
    pub compression: ArtifactCompression,
    pub artifacts: u64,
    pub logical_bytes: u64,
    pub physical_bytes: u64,
    pub records_checksum: [u8; 32],
    pub content_checksum: [u8; 32],
}

/// Segment metadata as plain values.
pub struct MetadataView {
    pub descriptor: DescriptorView,
    pub compression: ArtifactCompression,
    pub artifacts: u64,
    pub logical_bytes: u64,
    pub physical_bytes: u64,
    pub records_checksum: [u8; 32],
    pub content_checksum: [u8; 32],
}

impl View for ArtifactSegmentMetadata {
    type V = MetadataView;

    open spec fn view(&self) -> MetadataView {
        MetadataView {
            descriptor: self.descriptor@,
            compression: self.compression,
            artifacts: self.artifacts,
            logical_bytes: self.logical_bytes,
            physical_bytes: self.physical_bytes,
            records_checksum: self.records_checksum,
            content_checksum: self.content_checksum,
        }
    }
}

impl Clone for ArtifactSegmentMetadata {
    fn clone(&self) -> (copy: ArtifactSegmentMetadata)
        ensures
            copy@ == self@,
    {
        ArtifactSegmentMetadata {
            descriptor: self.descriptor.clone(),
            compression: self.compression,
            artifacts: self.artifacts,
            logical_bytes: self.logical_bytes,
            physical_bytes: self.physical_bytes,
            records_checksum: self.records_checksum,
            content_checksum: self.content_checksum,
        }
    }
}

impl ArtifactSegmentMetadata {
    /// Whether two records describe the same segment in every part.
    pub fn same(&self, other: &ArtifactSegmentMetadata) -> (same: bool)
        ensures
            same == (self@ == other@),
    {
        self.descriptor.same(&other.descriptor) && self.compression == other.compression
            && self.artifacts == other.artifacts && self.logical_bytes == other.logical_bytes
            && self.physical_bytes == other.physical_bytes && same_array(
            &self.records_checksum,
            &other.records_checksum,
        ) && same_array(&self.content_checksum, &other.content_checksum)
    }
}

/// Descriptor and boundary identity recovered without loading processor code.
#[derive(Debug)]
pub struct ArtifactSegmentInspection {
    pub metadata: ArtifactSegmentMetadata,
    pub first_block_hash: BlockHash,
    pub last_block_hash: BlockHash,
}

/// What a segment reads of a delta: its chain, block and checksum, and
/// whether it is valid under the processor's contract.
#[derive(Clone, Copy, Debug)]
pub struct DeltaFacts {
    pub chain_id: ChainId,
    pub block: BlockRef,
    pub checksum: BlockHash,
    pub valid: bool,
}

/// One fixed-width seek entry of the directory.
#[derive(Clone, Copy, Debug)]
pub struct ArtifactEntry {
    pub block_number: BlockNumber,
    pub offset: u64,
    pub stored_bytes: u64,
    pub logical_bytes: u64,
    pub block_hash: BlockHash,
    pub delta_checksum: BlockHash,
}

/// The 96 bytes of a seek entry.
pub open spec fn entry_bytes(entry: ArtifactEntry) -> Seq<u8> {
    be64(entry.block_number.0) + be64(entry.offset) + be64(entry.stored_bytes) + be64(
        entry.logical_bytes,
    ) + entry.block_hash.0@ + entry.delta_checksum.0@
}

/// The seek entry that 96 bytes spell.
pub open spec fn parse_entry(bytes: Seq<u8>) -> ArtifactEntry {
    ArtifactEntry {
        block_number: BlockNumber(from_be64(bytes.subrange(0, 8))),
        offset: from_be64(bytes.subrange(8, 16)),
        stored_bytes: from_be64(bytes.subrange(16, 24)),
        logical_bytes: from_be64(bytes.subrange(24, 32)),
        block_hash: BlockHash(array32(bytes.subrange(32, 64))),
        delta_checksum: BlockHash(array32(bytes.subrange(64, 96))),
    }
}

impl ArtifactEntry {
    pub fn encode(&self) -> (encoded: Vec<u8>)
        ensures
            encoded@ == entry_bytes(*self),
    {
        let mut encoded: Vec<u8> = Vec::new();
        push_u64(&mut encoded, self.block_number.0);
        push_u64(&mut encoded, self.offset);
        push_u64(&mut encoded, self.stored_bytes);
        push_u64(&mut encoded, self.logical_bytes);
        push_bytes(&mut encoded, &self.block_hash.0);
        push_bytes(&mut encoded, &self.delta_checksum.0);
        assert(encoded@ =~= entry_bytes(*self));
        encoded
    }

    pub fn decode(encoded: &[u8]) -> (entry: ArtifactEntry)
        requires
            encoded@.len() == 96,
        ensures
            entry == parse_entry(encoded@),
    {
        ArtifactEntry {
            block_number: BlockNumber(u64_at(encoded, 0)),
            offset: u64_at(encoded, 8),
            stored_bytes: u64_at(encoded, 16),
            logical_bytes: u64_at(encoded, 24),
            block_hash: BlockHash(array32_at(encoded, 32)),
            delta_checksum: BlockHash(array32_at(encoded, 64)),
        }
    }
}

/// Reading a written seek entry gives the entry back.
pub proof fn law_artifact_entry_round_trip(entry: ArtifactEntry)
    ensures
        entry_bytes(entry).len() == 96,
        parse_entry(entry_bytes(entry)) == entry,
{
    let bytes = entry_bytes(entry);
    assert(bytes.subrange(0, 8) =~= be64(entry.block_number.0));
    assert(bytes.subrange(8, 16) =~= be64(entry.offset));
    assert(bytes.subrange(16, 24) =~= be64(entry.stored_bytes));
    assert(bytes.subrange(24, 32) =~= be64(entry.logical_bytes));
    assert(bytes.subrange(32, 64) =~= entry.block_hash.0@);
    assert(bytes.subrange(64, 96) =~= entry.delta_checksum.0@);
    lemma_be64_round_trip(entry.block_number.0);
    lemma_be64_round_trip(entry.offset);
    lemma_be64_round_trip(entry.stored_bytes);
    lemma_be64_round_trip(entry.logical_bytes);
    lemma_array32(entry.block_hash.0);
    lemma_array32(entry.delta_checksum.0);
}


/// The bytes `IDXART01`.
pub open spec fn header_magic() -> Seq<u8> {
    seq![0x49u8, 0x44, 0x58, 0x41, 0x52, 0x54, 0x30, 0x31]
}

/// The bytes `IDXADI01`.
pub open spec fn directory_magic() -> Seq<u8> {
    seq![0x49u8, 0x44, 0x58, 0x41, 0x44, 0x49, 0x30, 0x31]
}

/// The bytes `IDXATE01`.
pub open spec fn trailer_magic() -> Seq<u8> {
    seq![0x49u8, 0x44, 0x58, 0x41, 0x54, 0x45, 0x30, 0x31]
}

pub(crate) fn header_magic_bytes() -> (magic: [u8; 8])
    ensures
        magic@ == header_magic(),
{
    let magic: [u8; 8] = [0x49, 0x44, 0x58, 0x41, 0x52, 0x54, 0x30, 0x31];
    assert(magic@ =~= header_magic());
    magic
}

pub(crate) fn directory_magic_bytes() -> (magic: [u8; 8])
    ensures
        magic@ == directory_magic(),
{
    let magic: [u8; 8] = [0x49, 0x44, 0x58, 0x41, 0x44, 0x49, 0x30, 0x31];
    assert(magic@ =~= directory_magic());
    magic
}

pub(crate) fn trailer_magic_bytes() -> (magic: [u8; 8])
    ensures
        magic@ == trailer_magic(),
{
    let magic: [u8; 8] = [0x49, 0x44, 0x58, 0x41, 0x54, 0x45, 0x30, 0x31];
    assert(magic@ =~= trailer_magic());
    magic
}

/// The header of a segment with this encoded descriptor.
pub open spec fn header_bytes(
    descriptor_bytes: Seq<u8>,
    compression: ArtifactCompression,
) -> Seq<u8> {
    header_magic() + be16(FORMAT_VERSION) + seq![compression.spec_byte(), 0u8] + be32(
        descriptor_bytes.len() as u32,
    ) + descriptor_bytes
}

/// The seek entries one after another.
pub open spec fn directory_bytes(entries: Seq<ArtifactEntry>) -> Seq<u8>
    decreases entries.len(),
{
    if entries.len() == 0 {
        Seq::empty()
    } else {
        directory_bytes(entries.drop_last()) + entry_bytes(entries.last())
    }
}

/// Each record behind its length: what the records checksum covers.
pub open spec fn record_stream(records: Seq<Seq<u8>>) -> Seq<u8>
    decreases records.len(),
{
    if records.len() == 0 {
        Seq::empty()
    } else {
        record_stream(records.drop_last()) + be64(records.last().len() as u64) + records.last()
    }
}

/// Total length of the records.
pub open spec fn records_total(records: Seq<Seq<u8>>) -> int
    decreases records.len(),
{
    if records.len() == 0 {
        0
    } else {
        records_total(records.drop_last()) + records.last().len()
    }
}

/// The trailer without the content checksum that ends it.
pub open spec fn trailer_prefix(
    directory_offset: u64,
    artifacts: u64,
    logical_bytes: u64,
    records_checksum: [u8; 32],
) -> Seq<u8> {
    trailer_magic() + be64(directory_offset) + be64(artifacts) + be64(logical_bytes) + be64(0)
        + records_checksum@
}

/// One seek entry of a file.
pub open spec fn file_entry(file: Seq<u8>, directory_offset: u64, ordinal: int) -> ArtifactEntry {
    let at = directory_offset + DIRECTORY_PREFIX_BYTES + ordinal * DIRECTORY_ENTRY_BYTES;
    parse_entry(file.subrange(at, at + DIRECTORY_ENTRY_BYTES))
}

/// Everything that a closed artifact file says of itself.
pub struct ParsedArtifacts {
    pub metadata: MetadataView,
    pub directory_offset: u64,
    pub first: ArtifactEntry,
    pub last: ArtifactEntry,
}

/// What the bytes of a file say: the first fault in reading order, or the
/// metadata, the place of the directory and the boundary entries.
pub open spec fn parse_artifact_file(file: Seq<u8>) -> Result<
    ParsedArtifacts,
    ArtifactSegmentError,
> {
    let size = file.len() as int;
    let version = from_be16(file.subrange(8, 10));
    let descriptor_len = from_be32(file.subrange(12, 16));
    if size < HEADER_PREFIX_BYTES + TRAILER_BYTES {
        Err(ArtifactSegmentError::Truncated)
    } else if blake3_digest(file.subrange(0, size - 32))@ != file.subrange(size - 32, size) {
        Err(ArtifactSegmentError::ContentChecksum)
    } else if file.subrange(0, 8) != header_magic() {
        Err(ArtifactSegmentError::Magic)
    } else if version != FORMAT_VERSION {
        Err(ArtifactSegmentError::Version(version))
    } else {
        match ArtifactCompression::spec_from_byte(file[10]) {
            Err(error) => Err(error),
            Ok(compression) => if HEADER_PREFIX_BYTES + descriptor_len > size {
                Err(ArtifactSegmentError::Truncated)
            } else {
                match DescriptorView::parsed(file.subrange(16, 16 + descriptor_len)) {
                    None => Err(ArtifactSegmentError::Encoding),
                    Some(descriptor) => parse_layout(
                        file,
                        descriptor,
                        compression,
                        descriptor_len as int,
                    ),
                }
            },
        }
    }
}

/// What the trailer and the directory of a file with this header say.
pub open spec fn parse_layout(
    file: Seq<u8>,
    descriptor: DescriptorView,
    compression: ArtifactCompression,
    descriptor_len: int,
) -> Result<ParsedArtifacts, ArtifactSegmentError> {
    let size = file.len() as int;
    let trailer = file.subrange(size - TRAILER_BYTES, size);
    let directory_offset = from_be64(trailer.subrange(8, 16));
    let artifacts = from_be64(trailer.subrange(16, 24));
    let end = directory_offset + DIRECTORY_PREFIX_BYTES + artifacts * DIRECTORY_ENTRY_BYTES
        + TRAILER_BYTES;
    let at = directory_offset as int;
    let first = file_entry(file, directory_offset, 0);
    let last = file_entry(file, directory_offset, artifacts - 1);
    if trailer.subrange(0, 8) != trailer_magic() {
        Err(ArtifactSegmentError::Magic)
    } else if end > u64::MAX {
        Err(ArtifactSegmentError::Numeric("segment layout"))
    } else if end != size || artifacts != descriptor.range.spec_len() || artifacts == 0 {
        Err(ArtifactSegmentError::Directory)
    } else if file.subrange(at, at + 8) != directory_magic() || from_be64(
        file.subrange(at + 8, at + 16),
    ) != artifacts {
        Err(ArtifactSegmentError::Directory)
    } else if first.block_number != descriptor.range.start || last.block_number
        != descriptor.range.end || first.offset < HEADER_PREFIX_BYTES + descriptor_len
        || last.offset + last.stored_bytes > directory_offset {
        Err(ArtifactSegmentError::Directory)
    } else {
        Ok(
            ParsedArtifacts {
                metadata: MetadataView {
                    descriptor,
                    compression,
                    artifacts,
                    logical_bytes: from_be64(trailer.subrange(24, 32)),
                    physical_bytes: size as u64,
                    records_checksum: array32(trailer.subrange(40, 72)),
                    content_checksum: array32(trailer.subrange(72, 104)),
                },
                directory_offset,
                first,
                last,
            },
        )
    }
}

/// Refuses a file whose last 32 bytes are not the digest of the rest.
fn verify_content_checksum(file: &[u8]) -> (outcome: Result<(), ArtifactSegmentError>)
    requires
        32 <= file.len(),
    ensures
        outcome == (if blake3_digest(file@.subrange(0, file@.len() - 32))@ == file@.subrange(
            file@.len() - 32,
            file@.len() as int,
        ) {
            Ok::<(), ArtifactSegmentError>(())
        } else {
            Err(ArtifactSegmentError::ContentChecksum)
        }),
{
    let content_len: usize = file.len() - 32;
    let piece: usize = 64 * 1024;
    let mut hasher = hasher_new();
    let mut position: usize = 0;
    proof {
        assert(file@.subrange(0, 0) =~= Seq::<u8>::empty());
    }
    while position < content_len
        invariant
            position <= content_len,
            content_len + 32 == file.len(),
            piece == 65536,
            absorbed(hasher) == file@.subrange(0, position as int),
        decreases content_len - position,
    {
        let maximum: usize = if content_len - position < piece {
            content_len - position
        } else {
            piece
        };
        hasher_update(&mut hasher, &file[position..position + maximum]);
        assert(file@.subrange(0, position as int) + file@.subrange(
            position as int,
            position + maximum,
        ) =~= file@.subrange(0, position + maximum));
        position += maximum;
    }
    if !same_bytes(&hasher_finalize(&hasher), &file[content_len..file.len()]) {
        return Err(ArtifactSegmentError::ContentChecksum);
    }
    Ok(())
}

/// What `parse_segment` recovers from a file.
struct ParsedSegment {
    metadata: ArtifactSegmentMetadata,
    directory_offset: u64,
    first: ArtifactEntry,
    last: ArtifactEntry,
}

/// Validates the envelope of a file: checksum, header, trailer and the
/// boundary entries of its directory.
fn parse_segment(file: &[u8]) -> (outcome: Result<ParsedSegment, ArtifactSegmentError>)
    ensures
        match (outcome, parse_artifact_file(file@)) {
            (Ok(parsed), Ok(expected)) => {
                &&& parsed.metadata@ == expected.metadata
                &&& parsed.directory_offset == expected.directory_offset
                &&& parsed.first == expected.first
                &&& parsed.last == expected.last
            },
            (Err(error), Err(expected)) => error == expected,
            _ => false,
        },
{
    let size: usize = file.len();
    if size < 120 {
        return Err(ArtifactSegmentError::Truncated);
    }
    verify_content_checksum(file)?;
    if !same_bytes(&file[0..8], &header_magic_bytes()) {
        return Err(ArtifactSegmentError::Magic);
    }
    let version: u16 = u16_at(file, 8);
    if version != FORMAT_VERSION {
        return Err(ArtifactSegmentError::Version(version));
    }
    let compression = ArtifactCompression::from_byte(file[10])?;
    let descriptor_len: usize = u32_at(file, 12) as usize;
    if descriptor_len > size - 16 {
        return Err(ArtifactSegmentError::Truncated);
    }
    let descriptor = ArtifactSegmentDescriptor::decode(&file[16..16 + descriptor_len])?;
    parse_segment_layout(file, descriptor, compression, descriptor_len)
}

fn parse_segment_layout(
    file: &[u8],
    descriptor: ArtifactSegmentDescriptor,
    compression: ArtifactCompression,
    descriptor_len: usize,
) -> (outcome: Result<ParsedSegment, ArtifactSegmentError>)
    requires
        120 <= file.len(),
        descriptor_len + 16 <= file.len(),
    ensures
        match (outcome, parse_layout(file@, descriptor@, compression, descriptor_len as int)) {
            (Ok(parsed), Ok(expected)) => {
                &&& parsed.metadata@ == expected.metadata
                &&& parsed.directory_offset == expected.directory_offset
                &&& parsed.first == expected.first
                &&& parsed.last == expected.last
            },
            (Err(error), Err(expected)) => error == expected,
            _ => false,
        },
{
    let size: usize = file.len();
    let trailer: &[u8] = &file[size - 104..size];
    if !same_bytes(&trailer[0..8], &trailer_magic_bytes()) {
        return Err(ArtifactSegmentError::Magic);
    }
    let directory_offset: u64 = u64_at(trailer, 8);
    let artifacts: u64 = u64_at(trailer, 16);
    let logical_bytes: u64 = u64_at(trailer, 24);
    let records_checksum: [u8; 32] = array32_at(trailer, 40);
    let content_checksum: [u8; 32] = array32_at(trailer, 72);
    let entries_len: u64 = match artifacts.checked_mul(DIRECTORY_ENTRY_BYTES) {
        Some(len) => len,
        None => {
            return Err(ArtifactSegmentError::Numeric("segment layout"));
        },
    };
    let directory_end: u64 = match directory_offset.checked_add(entries_len) {
        Some(end) => end,
        None => {
            return Err(ArtifactSegmentError::Numeric("segment layout"));
        },
    };
    let end: u64 = match directory_end.checked_add(DIRECTORY_PREFIX_BYTES + TRAILER_BYTES) {
        Some(end) => end,
        None => {
            return Err(ArtifactSegmentError::Numeric("segment layout"));
        },
    };
    if end != size as u64 || artifacts != descriptor.range.len() || artifacts == 0 {
        return Err(ArtifactSegmentError::Directory);
    }
    let at: usize = directory_offset as usize;
    if !same_bytes(&file[at..at + 8], &directory_magic_bytes()) || u64_at(file, at + 8)
        != artifacts {
        return Err(ArtifactSegmentError::Directory);
    }
    let first = read_directory_entry(file, directory_offset, artifacts, 0)?;
    let last = read_directory_entry(file, directory_offset, artifacts, artifacts - 1)?;
    let minimum_record_offset: u64 = HEADER_PREFIX_BYTES + descriptor_len as u64;
    if first.block_number != descriptor.range.start || last.block_number != descriptor.range.end
        || first.offset < minimum_record_offset || last.offset.saturating_add(last.stored_bytes)
        > directory_offset {
        return Err(ArtifactSegmentError::Directory);
    }
    Ok(
        ParsedSegment {
            metadata: ArtifactSegmentMetadata {
                descriptor,
                compression,
                artifacts,
                logical_bytes,
                physical_bytes: size as u64,
                records_checksum,
                content_checksum,
            },
            directory_offset,
            first,
            last,
        },
    )
}

/// Reads one seek entry of a directory that holds `artifacts` of them.
fn read_directory_entry(
    file: &[u8],
    directory_offset: u64,
    artifacts: u64,
    ordinal: u64,
) -> (outcome: Result<ArtifactEntry, ArtifactSegmentError>)
    ensures
        outcome == (if ordinal >= artifacts {
            Err::<ArtifactEntry, ArtifactSegmentError>(ArtifactSegmentError::Directory)
        } else if directory_offset + DIRECTORY_PREFIX_BYTES + ordinal * DIRECTORY_ENTRY_BYTES
            + DIRECTORY_ENTRY_BYTES > file@.len() {
            Err(ArtifactSegmentError::Truncated)
        } else {
            Ok(file_entry(file@, directory_offset, ordinal as int))
        }),
{
    if ordinal >= artifacts {
        return Err(ArtifactSegmentError::Directory);
    }
    let size: u64 = file.len() as u64;
    let skipped: u64 = match ordinal.checked_mul(DIRECTORY_ENTRY_BYTES) {
        Some(skipped) => skipped,
        None => {
            return Err(ArtifactSegmentError::Truncated);
        },
    };
    let needed: u64 = match skipped.checked_add(DIRECTORY_PREFIX_BYTES + DIRECTORY_ENTRY_BYTES) {
        Some(needed) => needed,
        None => {
            return Err(ArtifactSegmentError::Truncated);
        },
    };
    if directory_offset > size || needed > size - directory_offset {
        return Err(ArtifactSegmentError::Truncated);
    }
    let from: usize = directory_offset as usize + 16 + skipped as usize;
    Ok(ArtifactEntry::decode(&file[from..from + 96]))
}

/// The bytes and the promised identity of one record.
#[derive(Debug)]
pub struct ArtifactRecord {
    pub block: BlockNumber,
    pub logical: Vec<u8>,
    pub block_hash: BlockHash,
    pub delta_checksum: BlockHash,
}

/// What a seek read of one block finds in a file: the first fault, or the
/// seek entry and the decoded record.
pub open spec fn read_artifact(
    metadata: MetadataView,
    directory_offset: u64,
    file: Seq<u8>,
    block: BlockNumber,
) -> Result<(ArtifactEntry, Seq<u8>), ArtifactSegmentError> {
    let ordinal = block.0 - metadata.descriptor.range.start.0;
    let entry = file_entry(file, directory_offset, ordinal);
    let end = entry.offset + entry.stored_bytes;
    if !metadata.descriptor.range.has(block.0 as int) {
        Err(ArtifactSegmentError::OutsideRange(block))
    } else if ordinal >= metadata.artifacts {
        Err(ArtifactSegmentError::Directory)
    } else if directory_offset + DIRECTORY_PREFIX_BYTES + ordinal * DIRECTORY_ENTRY_BYTES
        + DIRECTORY_ENTRY_BYTES > file.len() {
        Err(ArtifactSegmentError::Truncated)
    } else if entry.block_number != block {
        Err(ArtifactSegmentError::Directory)
    } else if end > file.len() {
        Err(ArtifactSegmentError::Truncated)
    } else if entry.logical_bytes > usize::MAX {
        Err(ArtifactSegmentError::Numeric("logical record bytes"))
    } else {
        match metadata.compression.decoded(
            file.subrange(entry.offset as int, end),
            entry.logical_bytes as usize,
        ) {
            Err(error) => Err(error),
            Ok(logical) => Ok((entry, logical)),
        }
    }
}

/// The outcome of reading `count` blocks from `start` on: the first fault, or
/// nothing but success.
pub open spec fn scan_fault(
    metadata: MetadataView,
    directory_offset: u64,
    file: Seq<u8>,
    start: int,
    count: nat,
) -> Option<ArtifactSegmentError>
    decreases count,
{
    if count == 0 {
        None
    } else {
        match scan_fault(metadata, directory_offset, file, start, (count - 1) as nat) {
            Some(error) => Some(error),
            None => match read_artifact(
                metadata,
                directory_offset,
                file,
                BlockNumber((start + count - 1) as u64),
            ) {
                Err(error) => Some(error),
                Ok(_) => None,
            },
        }
    }
}

/// A fault within the first blocks is the fault of the whole scan.
proof fn lemma_scan_fault(
    metadata: MetadataView,
    directory_offset: u64,
    file: Seq<u8>,
    start: int,
    upto: nat,
    count: nat,
)
    requires
        upto <= count,
        scan_fault(metadata, directory_offset, file, start, upto) is Some,
    ensures
        scan_fault(metadata, directory_offset, file, start, count) == scan_fault(
            metadata,
            directory_offset,
            file,
            start,
            upto,
        ),
    decreases count - upto,
{
    if upto < count {
        lemma_scan_fault(metadata, directory_offset, file, start, upto + 1, count);
    }
}

/// The blocks that a scan of `range` with `limit` reads: first and number.
pub open spec fn scan_window(held: BlockRange, range: BlockRange, limit: usize) -> (int, nat) {
    let start = if range.start.0 > held.start.0 {
        range.start.0 as int
    } else {
        held.start.0 as int
    };
    let end = if range.end.0 < held.end.0 {
        range.end.0 as int
    } else {
        held.end.0 as int
    };
    if start > end {
        (start, 0)
    } else if end - start + 1 < limit {
        (start, (end - start + 1) as nat)
    } else {
        (start, limit as nat)
    }
}

/// A record is what a seek read of `block` finds.
pub open spec fn is_read(
    metadata: MetadataView,
    directory_offset: u64,
    file: Seq<u8>,
    block: int,
    record: ArtifactRecord,
) -> bool {
    let found = read_artifact(metadata, directory_offset, file, BlockNumber(block as u64));
    &&& record.block.0 == block
    &&& found is Ok
    &&& record.logical@ == found->Ok_0.1
    &&& record.block_hash == found->Ok_0.0.block_hash
    &&& record.delta_checksum == found->Ok_0.0.delta_checksum
}

/// Fail-closed reader with direct block-number seeks.
#[derive(Debug)]
pub struct ArtifactSegmentReader {
    metadata: ArtifactSegmentMetadata,
    directory_offset: u64,
}

impl ArtifactSegmentReader {
    pub closed spec fn spec_metadata(&self) -> MetadataView {
        self.metadata@
    }

    pub closed spec fn spec_directory_offset(&self) -> u64 {
        self.directory_offset
    }

    /// Inspects and checksums a closed segment without a processor contract.
    pub fn inspect(file: &[u8]) -> (outcome: Result<
        ArtifactSegmentInspection,
        ArtifactSegmentError,
    >)
        ensures
            match (outcome, parse_artifact_file(file@)) {
                (Ok(inspection), Ok(parsed)) => {
                    &&& inspection.metadata@ == parsed.metadata
                    &&& inspection.first_block_hash == parsed.first.block_hash
                    &&& inspection.last_block_hash == parsed.last.block_hash
                },
                (Err(error), Err(expected)) => error == expected,
                _ => false,
            },
    {
        let parsed = parse_segment(file)?;
        Ok(
            ArtifactSegmentInspection {
                metadata: parsed.metadata,
                first_block_hash: parsed.first.block_hash,
                last_block_hash: parsed.last.block_hash,
            },
        )
    }

    /// Opens a segment and validates its envelope, its content checksum and
    /// the processor contract it was written under.
    pub fn open(file: &[u8], processor: &ProcessorContract) -> (outcome: Result<
        ArtifactSegmentReader,
        ArtifactSegmentError,
    >)
        ensures
            match (outcome, parse_artifact_file(file@)) {
                (Ok(reader), Ok(parsed)) => {
                    &&& parsed.metadata.descriptor.contract == processor@
                    &&& reader.spec_metadata() == parsed.metadata
                    &&& reader.spec_directory_offset() == parsed.directory_offset
                },
                (Err(error), Ok(parsed)) => {
                    &&& parsed.metadata.descriptor.contract != processor@
                    &&& error == ArtifactSegmentError::Contract
                },
                (Err(error), Err(expected)) => error == expected,
                _ => false,
            },
    {
        let parsed = parse_segment(file)?;
        parsed.metadata.descriptor.validate_processor(processor)?;
        Ok(
            ArtifactSegmentReader {
                metadata: parsed.metadata,
                directory_offset: parsed.directory_offset,
            },
        )
    }

    pub fn metadata(&self) -> (metadata: &ArtifactSegmentMetadata)
        ensures
            metadata@ == self.spec_metadata(),
    {
        &self.metadata
    }

    /// Seeks and decodes one exact canonical block artifact.
    pub fn read(&self, file: &[u8], block: BlockNumber) -> (outcome: Result<
        ArtifactRecord,
        ArtifactSegmentError,
    >)
        ensures
            match (
                outcome,
                read_artifact(self.spec_metadata(), self.spec_directory_offset(), file@, block),
            ) {
                (Ok(record), Ok((entry, logical))) => {
                    &&& record.block == block
                    &&& record.logical@ == logical
                    &&& record.block_hash == entry.block_hash
                    &&& record.delta_checksum == entry.delta_checksum
                },
                (Err(error), Err(expected)) => error == expected,
                _ => false,
            },
    {
        let range = self.metadata.descriptor.range;
        if !range.contains(block) {
            return Err(ArtifactSegmentError::OutsideRange(block));
        }
        let ordinal: u64 = block.0 - range.start.0;
        let entry = read_directory_entry(
            file,
            self.directory_offset,
            self.metadata.artifacts,
            ordinal,
        )?;
        if entry.block_number != block {
            return Err(ArtifactSegmentError::Directory);
        }
        let size: u64 = file.len() as u64;
        if entry.offset > size || entry.stored_bytes > size - entry.offset {
            return Err(ArtifactSegmentError::Truncated);
        }
        if entry.logical_bytes > usize::MAX as u64 {
            return Err(ArtifactSegmentError::Numeric("logical record bytes"));
        }
        let from: usize = entry.offset as usize;
        let logical: Vec<u8> = self.metadata.compression.decode(
            &file[from..from + entry.stored_bytes as usize],
            entry.logical_bytes as usize,
        )?;
        Ok(
            ArtifactRecord {
                block,
                logical,
                block_hash: entry.block_hash,
                delta_checksum: entry.delta_checksum,
            },
        )
    }

    /// Refuses a decoded delta that is not the one its seek entry promised.
    pub fn verify_delta(&self, record: &ArtifactRecord, delta: &DeltaFacts) -> (outcome: Result<
        (),
        ArtifactSegmentError,
    >)
        ensures
            outcome == (if !delta.valid {
                Err::<(), ArtifactSegmentError>(ArtifactSegmentError::Delta)
            } else if delta.block.number != record.block || delta.block.hash != record.block_hash
                || delta.checksum != record.delta_checksum || delta.chain_id
                != self.spec_metadata().descriptor.chain_id {
                Err(ArtifactSegmentError::RecordIdentity(record.block))
            } else {
                Ok(())
            }),
    {
        if !delta.valid {
            return Err(ArtifactSegmentError::Delta);
        }
        if delta.block.number != record.block || delta.block.hash != record.block_hash
            || delta.checksum != record.delta_checksum || delta.chain_id
            != self.metadata.descriptor.chain_id {
            return Err(ArtifactSegmentError::RecordIdentity(record.block));
        }
        Ok(())
    }

    /// Reads a bounded ascending range, at most `limit` records of it.
    pub fn scan(&self, file: &[u8], range: BlockRange, limit: usize) -> (outcome: Result<
        Vec<ArtifactRecord>,
        ArtifactSegmentError,
    >)
        ensures
            ({
                let metadata = self.spec_metadata();
                let offset = self.spec_directory_offset();
                let (start, count) = scan_window(metadata.descriptor.range, range, limit);
                let fault = scan_fault(metadata, offset, file@, start, count);
                match outcome {
                    Err(error) => if limit == 0 || limit > 10_000 {
                        error == ArtifactSegmentError::InvalidLimit(limit)
                    } else {
                        fault == Some(error)
                    },
                    Ok(records) => {
                        &&& 0 < limit <= 10_000
                        &&& fault is None
                        &&& records@.len() == count
                        &&& forall|k: int|
                            0 <= k < count ==> is_read(
                                metadata,
                                offset,
                                file@,
                                start + k,
                                #[trigger] records@[k],
                            )
                    },
                }
            }),
    {
        if limit == 0 || limit > 10_000 {
            return Err(ArtifactSegmentError::InvalidLimit(limit));
        }
        let held = self.metadata.descriptor.range;
        let start: u64 = if range.start.0 > held.start.0 {
            range.start.0
        } else {
            held.start.0
        };
        let end: u64 = if range.end.0 < held.end.0 {
            range.end.0
        } else {
            held.end.0
        };
        let mut records: Vec<ArtifactRecord> = Vec::new();
        if start > end {
            return Ok(records);
        }
        let count: u64 = if end - start < limit as u64 - 1 {
            end - start + 1
        } else {
            limit as u64
        };
        let ghost metadata = self.spec_metadata();
        let ghost offset = self.spec_directory_offset();
        let mut index: u64 = 0;
        while index < count
            invariant
                index <= count,
                start + count - 1 <= end,
                0 < limit <= 10_000,
                metadata == self.spec_metadata(),
                offset == self.spec_directory_offset(),
                (start as int, count as nat) == scan_window(
                    metadata.descriptor.range,
                    range,
                    limit,
                ),
                records@.len() == index,
                scan_fault(metadata, offset, file@, start as int, index as nat) is None,
                forall|k: int|
                    0 <= k < index ==> is_read(
                        metadata,
                        offset,
                        file@,
                        start + k,
                        #[trigger] records@[k],
                    ),
            decreases count - index,
        {
            match self.read(file, BlockNumber(start + index)) {
                Ok(record) => {
                    records.push(record);
                },
                Err(error) => {
                    proof {
                        assert(scan_fault(
                            metadata,
                            offset,
                            file@,
                            start as int,
                            (index + 1) as nat,
                        ) == Some(error));
                        lemma_scan_fault(
                            metadata,
                            offset,
                            file@,
                            start as int,
                            (index + 1) as nat,
                            count as nat,
                        );
                    }
                    return Err(error);
                },
            }
            index += 1;
        }
        proof {
            let window = scan_window(metadata.descriptor.range, range, limit);
            assert(window.0 == start && window.1 == count);
            assert(scan_fault(metadata, offset, file@, window.0, window.1) is None);
        }
        Ok(records)
    }
}

} // verus!
