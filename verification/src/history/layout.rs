//! The bytes of a raw segment file: header, stored records, seek directory,
//! summary and trailer.

use crate::bytes::{
    array32, array32_at, be16, be32, be64, from_be16, from_be32, from_be64, lemma_array32,
    lemma_be16_round_trip, lemma_be32_round_trip, lemma_be64_round_trip, push_bytes, push_u16,
    push_u32, push_u64, same_array, same_bytes, u16_at, u32_at, u64_at,
};
use crate::codec::{
    snappy_compress, snappy_compressed, snappy_decompress, snappy_decompressed, zlib_compress,
    zlib_compressed, zlib_decompress, zlib_decompressed,
};
use crate::primitives::{
    BlockHash, BlockNumber, BlockRange, CapabilitySet, ChainId, Finality, TrustModel,
    CAPABILITY_BITS,
};
use crate::text::{is_portable, portable, same_text};
use vstd::prelude::*;

verus! {

/// Version of the segment layout.
pub const FORMAT_VERSION: u16 = 1;

/// Version of the frame encoding that the records hold.
pub const FRAME_ENCODING_VERSION: u16 = 1;

pub const HEADER_BYTES: u64 = 80;

pub const DIRECTORY_PREFIX_BYTES: u64 = 16;

pub const DIRECTORY_ENTRY_BYTES: u64 = 120;

pub const FOOTER_SUMMARY_BYTES: u64 = 128;

pub const TRAILER_BYTES: u64 = 56;

/// Why a segment or a frame for it is refused.
#[derive(Clone, Debug)]
pub enum SegmentError {
    InvalidId(String),
    InvalidDescriptor(&'static str),
    InvalidLimits,
    WriterPoisoned,
    InvalidFrame(&'static str),
    ChainMismatch { expected: ChainId, actual: ChainId },
    NonFinalized(BlockNumber),
    OutOfOrder { expected: BlockNumber, actual: BlockNumber },
    ParentMismatch { block: BlockNumber, expected: BlockHash, actual: BlockHash },
    CapabilityMismatch,
    FrameOversized { limit: u64, observed: u64 },
    SegmentLogicalBudget { limit: u64, observed: u64 },
    SegmentPhysicalBudget { limit: u64, observed: u64 },
    IncompleteRange { expected: u64, actual: u64 },
    IndexLength { expected: u64, actual: u64 },
    Truncated,
    HeaderMagic,
    FormatVersion(u16),
    FrameEncodingVersion(u16),
    UnknownCompression(u8),
    UnknownVerification(u8),
    UnknownTrust(u8),
    NonFinalizedEncoding(u8),
    Reserved,
    UnknownCapabilities,
    TrailerMagic,
    DirectoryMagic,
    DirectoryBounds,
    DirectoryLength { expected: u64, actual: u64 },
    RecordBounds(BlockNumber),
    AnchorMismatch,
    OrderedHashDigest,
    RecordsChecksum,
    ContentChecksum,
    RecordChecksum(BlockNumber),
    DecodedLength { expected: usize, actual: usize },
    DecodedIdentity(BlockNumber),
    BlockOutOfRange { block: BlockNumber, range: BlockRange },
    ArithmeticOverflow,
    Deflate,
    Snappy,
}

/// Portable identifier used for a segment and its temporary files.
#[derive(Debug)]
pub struct SegmentId {
    value: String,
}

impl View for SegmentId {
    type V = Seq<char>;

    closed spec fn view(&self) -> Seq<char> {
        self.value@
    }
}

impl Clone for SegmentId {
    fn clone(&self) -> (copy: SegmentId)
        ensures
            copy@ == self@,
            copy == *self,
    {
        SegmentId { value: self.value.clone() }
    }
}

/// What a segment identifier may be: 1 to 96 letters, digits, `-`, `_` or `.`.
pub open spec fn is_segment_id(text: Seq<char>) -> bool {
    is_portable(text, 96, true, false)
}

impl SegmentId {
    /// Accepts a caller-provided stable identifier, and refuses empty,
    /// overlong or path-like ones.
    pub fn new(value: String) -> (id: Result<SegmentId, SegmentError>)
        ensures
            id is Ok <==> is_segment_id(value@),
            id matches Ok(id) ==> id@ == value@,
            id matches Err(error) ==> error == SegmentError::InvalidId(value),
    {
        if !portable(value.as_str(), 96, true, false) {
            return Err(SegmentError::InvalidId(value));
        }
        Ok(SegmentId { value })
    }

    pub fn as_str(&self) -> (text: &str)
        ensures
            text@ == self@,
    {
        self.value.as_str()
    }

    /// Whether two identifiers are the same text.
    pub fn same(&self, other: &SegmentId) -> (same: bool)
        ensures
            same == (self@ == other@),
    {
        same_text(self.value.as_str(), other.value.as_str())
    }
}

/// Opaque canonical identity for projection and filter semantics.
#[derive(Clone, Copy, Debug, Eq)]
pub struct MaterialShapeId(pub [u8; 32]);

impl PartialEq for MaterialShapeId {
    fn eq(&self, other: &Self) -> (same: bool) {
        same_array(&self.0, &other.0)
    }
}

impl vstd::std_specs::cmp::PartialEqSpecImpl for MaterialShapeId {
    open spec fn obeys_eq_spec() -> bool {
        true
    }

    open spec fn eq_spec(&self, other: &Self) -> bool {
        *self == *other
    }
}

impl MaterialShapeId {
    pub open spec fn spec_complete() -> MaterialShapeId {
        MaterialShapeId(array32(Seq::new(32, |i: int| 0u8)))
    }

    /// The shape of complete, unfiltered execution material: all zero bytes.
    pub fn complete_execution() -> (shape: MaterialShapeId)
        ensures
            shape == MaterialShapeId::spec_complete(),
    {
        let zero: [u8; 32] = [0u8;32];
        proof {
            assert(zero@ =~= Seq::new(32, |i: int| 0u8));
            lemma_array32(zero);
        }
        MaterialShapeId(zero)
    }
}

/// Verification guarantee under which a segment was admitted.
#[derive(Clone, Copy, Debug, PartialEq, Eq, Structural)]
pub enum VerificationClass {
    BestEffort,
    TrustedDataset,
    Cryptographic,
}

impl VerificationClass {
    pub open spec fn spec_rank(self) -> u8 {
        match self {
            VerificationClass::BestEffort => 0u8,
            VerificationClass::TrustedDataset => 1u8,
            VerificationClass::Cryptographic => 2u8,
        }
    }

    /// Position in the order, which is also the encoded byte.
    pub fn rank(self) -> (rank: u8)
        ensures
            rank == self.spec_rank(),
    {
        match self {
            VerificationClass::BestEffort => 0u8,
            VerificationClass::TrustedDataset => 1u8,
            VerificationClass::Cryptographic => 2u8,
        }
    }

    pub open spec fn spec_from_byte(value: u8) -> Result<VerificationClass, SegmentError> {
        if value == 0 {
            Ok(VerificationClass::BestEffort)
        } else if value == 1 {
            Ok(VerificationClass::TrustedDataset)
        } else if value == 2 {
            Ok(VerificationClass::Cryptographic)
        } else {
            Err(SegmentError::UnknownVerification(value))
        }
    }

    pub fn from_byte(value: u8) -> (class: Result<VerificationClass, SegmentError>)
        ensures
            class == VerificationClass::spec_from_byte(value),
    {
        match value {
            0 => Ok(VerificationClass::BestEffort),
            1 => Ok(VerificationClass::TrustedDataset),
            2 => Ok(VerificationClass::Cryptographic),
            other => Err(SegmentError::UnknownVerification(other)),
        }
    }
}

/// Per-record compression. Whole files are never compressed, so that one
/// block can be read without decoding its neighbours.
#[derive(Clone, Copy, Debug, PartialEq, Eq, Structural)]
pub enum Compression {
    Uncompressed,
    Snappy,
    Deflate,
}

impl Default for Compression {
    fn default() -> (compression: Compression)
        ensures
            compression == Compression::Uncompressed,
    {
        Compression::Uncompressed
    }
}

impl Compression {
    pub open spec fn spec_byte(self) -> u8 {
        match self {
            Compression::Uncompressed => 0u8,
            Compression::Snappy => 1u8,
            Compression::Deflate => 2u8,
        }
    }

    pub fn byte(self) -> (byte: u8)
        ensures
            byte == self.spec_byte(),
    {
        match self {
            Compression::Uncompressed => 0u8,
            Compression::Snappy => 1u8,
            Compression::Deflate => 2u8,
        }
    }

    pub open spec fn spec_from_byte(value: u8) -> Result<Compression, SegmentError> {
        if value == 0 {
            Ok(Compression::Uncompressed)
        } else if value == 1 {
            Ok(Compression::Snappy)
        } else if value == 2 {
            Ok(Compression::Deflate)
        } else {
            Err(SegmentError::UnknownCompression(value))
        }
    }

    pub fn from_byte(value: u8) -> (compression: Result<Compression, SegmentError>)
        ensures
            compression == Compression::spec_from_byte(value),
    {
        match value {
            0 => Ok(Compression::Uncompressed),
            1 => Ok(Compression::Snappy),
            2 => Ok(Compression::Deflate),
            other => Err(SegmentError::UnknownCompression(other)),
        }
    }

    /// The stored form of `input`, if the codec can hold it.
    pub open spec fn stored(self, input: Seq<u8>) -> Option<Seq<u8>> {
        match self {
            Compression::Uncompressed => Some(input),
            Compression::Snappy => snappy_compressed(input),
            Compression::Deflate => zlib_compressed(input),
        }
    }

    /// What a stored record holds, if it is one of this codec's.
    pub open spec fn unpacked(self, input: Seq<u8>) -> Option<Seq<u8>> {
        match self {
            Compression::Uncompressed => Some(input),
            Compression::Snappy => snappy_decompressed(input),
            Compression::Deflate => zlib_decompressed(input),
        }
    }

    /// How a codec call fails.
    pub open spec fn failure(self) -> SegmentError {
        match self {
            Compression::Snappy => SegmentError::Snappy,
            _ => SegmentError::Deflate,
        }
    }

    /// The outcome of decoding a stored record of known logical length.
    pub open spec fn decoded(self, input: Seq<u8>, expected_len: usize) -> Result<
        Seq<u8>,
        SegmentError,
    > {
        match self.unpacked(input) {
            None => Err(self.failure()),
            Some(output) => if output.len() == expected_len {
                Ok(output)
            } else {
                Err(
                    SegmentError::DecodedLength {
                        expected: expected_len,
                        actual: output.len() as usize,
                    },
                )
            },
        }
    }

    /// Compresses one record. Decoding the outcome gives the record back.
    pub fn encode(self, input: &[u8]) -> (output: Result<Vec<u8>, SegmentError>)
        ensures
            output is Ok <==> self.stored(input@) is Some,
            output matches Ok(bytes) ==> {
                &&& self.stored(input@) == Some(bytes@)
                &&& self.unpacked(bytes@) == Some(input@)
            },
            output matches Err(error) ==> error == self.failure(),
    {
        match self {
            Compression::Uncompressed => {
                let mut output: Vec<u8> = Vec::new();
                push_bytes(&mut output, input);
                assert(output@ =~= input@);
                Ok(output)
            },
            Compression::Snappy => match snappy_compress(input) {
                Ok(output) => Ok(output),
                Err(_) => Err(SegmentError::Snappy),
            },
            Compression::Deflate => match zlib_compress(input) {
                Ok(output) => Ok(output),
                Err(_) => Err(SegmentError::Deflate),
            },
        }
    }

    /// Decompresses one record, which must be `expected_len` bytes long.
    pub fn decode(self, input: &[u8], expected_len: usize) -> (output: Result<
        Vec<u8>,
        SegmentError,
    >)
        ensures
            match output {
                Ok(bytes) => self.decoded(input@, expected_len) == Ok::<Seq<u8>, SegmentError>(
                    bytes@,
                ),
                Err(error) => self.decoded(input@, expected_len) == Err::<Seq<u8>, SegmentError>(
                    error,
                ),
            },
    {
        let output: Vec<u8> = match self {
            Compression::Uncompressed => {
                let mut output: Vec<u8> = Vec::new();
                push_bytes(&mut output, input);
                assert(output@ =~= input@);
                output
            },
            Compression::Snappy => match snappy_decompress(input) {
                Ok(output) => output,
                Err(_) => {
                    return Err(SegmentError::Snappy);
                },
            },
            Compression::Deflate => match zlib_decompress(input) {
                Ok(output) => output,
                Err(_) => {
                    return Err(SegmentError::Deflate);
                },
            },
        };
        if output.len() != expected_len {
            return Err(
                SegmentError::DecodedLength { expected: expected_len, actual: output.len() },
            );
        }
        Ok(output)
    }
}

/// Immutable identity and guarantees shared by every frame in a segment.
#[derive(Clone, Copy, Debug)]
pub struct SegmentDescriptor {
    pub chain_id: ChainId,
    pub range: BlockRange,
    pub material_shape: MaterialShapeId,
    pub present_capabilities: CapabilitySet,
    pub complete_capabilities: CapabilitySet,
    pub verification: VerificationClass,
    pub trust: TrustModel,
}

impl SegmentDescriptor {
    /// Why a descriptor is refused, if it is.
    pub open spec fn problem(self) -> Option<SegmentError> {
        if self.chain_id.0 == 0 {
            Some(SegmentError::InvalidDescriptor("chain ID must be non-zero"))
        } else if !self.present_capabilities.has_all(self.complete_capabilities) {
            Some(SegmentError::InvalidDescriptor("complete capabilities must also be present"))
        } else {
            None
        }
    }

    /// A descriptor that a segment can carry.
    pub open spec fn wf(self) -> bool {
        &&& self.problem() is None
        &&& self.range.wf()
        &&& self.present_capabilities.bits & !CAPABILITY_BITS == 0
        &&& self.complete_capabilities.bits & !CAPABILITY_BITS == 0
    }

    /// Whether two descriptors agree in every field.
    pub fn same(&self, other: &SegmentDescriptor) -> (same: bool)
        ensures
            same == (*self == *other),
    {
        self.chain_id == other.chain_id && self.range == other.range && self.material_shape
            == other.material_shape && self.present_capabilities == other.present_capabilities
            && self.complete_capabilities == other.complete_capabilities && self.verification
            == other.verification && self.trust == other.trust
    }
}

/// Refuses a zero chain, and complete capabilities that are not present.
pub fn validate_descriptor(descriptor: &SegmentDescriptor) -> (outcome: Result<(), SegmentError>)
    ensures
        outcome == (match descriptor.problem() {
            Some(error) => Err::<(), SegmentError>(error),
            None => Ok(()),
        }),
{
    if descriptor.chain_id.0 == 0 {
        return Err(SegmentError::InvalidDescriptor("chain ID must be non-zero"));
    }
    if !descriptor.present_capabilities.contains_all(descriptor.complete_capabilities) {
        return Err(SegmentError::InvalidDescriptor("complete capabilities must also be present"));
    }
    Ok(())
}

/// Hard limits enforced before any record is appended.
#[derive(Clone, Copy, Debug, PartialEq, Eq, Structural)]
pub struct SegmentLimits {
    pub maximum_frame_logical_bytes: u64,
    pub maximum_segment_logical_bytes: u64,
    pub maximum_segment_physical_bytes: u64,
}

impl SegmentLimits {
    /// Non-zero limits under which one frame fits in the segment.
    pub open spec fn wf(self) -> bool {
        &&& self.maximum_frame_logical_bytes != 0
        &&& self.maximum_segment_logical_bytes != 0
        &&& self.maximum_segment_physical_bytes != 0
        &&& self.maximum_frame_logical_bytes <= self.maximum_segment_logical_bytes
    }

    /// Accepts one internally consistent non-zero limit set.
    pub fn validate(self) -> (outcome: Result<SegmentLimits, SegmentError>)
        ensures
            outcome == (if self.wf() {
                Ok::<SegmentLimits, SegmentError>(self)
            } else {
                Err(SegmentError::InvalidLimits)
            }),
    {
        if self.maximum_frame_logical_bytes == 0 || self.maximum_segment_logical_bytes == 0
            || self.maximum_segment_physical_bytes == 0 || self.maximum_frame_logical_bytes
            > self.maximum_segment_logical_bytes {
            return Err(SegmentError::InvalidLimits);
        }
        Ok(self)
    }
}

/// The bytes `IDXRAW01`.
pub open spec fn header_magic() -> Seq<u8> {
    seq![0x49u8, 0x44, 0x58, 0x52, 0x41, 0x57, 0x30, 0x31]
}

/// The bytes `IDXDIR01`.
pub open spec fn directory_magic() -> Seq<u8> {
    seq![0x49u8, 0x44, 0x58, 0x44, 0x49, 0x52, 0x30, 0x31]
}

/// The bytes `IDXEND01`.
pub open spec fn trailer_magic() -> Seq<u8> {
    seq![0x49u8, 0x44, 0x58, 0x45, 0x4e, 0x44, 0x30, 0x31]
}

pub(crate) fn header_magic_bytes() -> (magic: [u8; 8])
    ensures
        magic@ == header_magic(),
{
    let magic: [u8; 8] = [0x49, 0x44, 0x58, 0x52, 0x41, 0x57, 0x30, 0x31];
    assert(magic@ =~= header_magic());
    magic
}

pub(crate) fn directory_magic_bytes() -> (magic: [u8; 8])
    ensures
        magic@ == directory_magic(),
{
    let magic: [u8; 8] = [0x49, 0x44, 0x58, 0x44, 0x49, 0x52, 0x30, 0x31];
    assert(magic@ =~= directory_magic());
    magic
}

pub(crate) fn trailer_magic_bytes() -> (magic: [u8; 8])
    ensures
        magic@ == trailer_magic(),
{
    let magic: [u8; 8] = [0x49, 0x44, 0x58, 0x45, 0x4e, 0x44, 0x30, 0x31];
    assert(magic@ =~= trailer_magic());
    magic
}

/// The 80 header bytes of a segment.
pub open spec fn header_bytes(descriptor: SegmentDescriptor, compression: Compression) -> Seq<u8> {
    header_magic() + be16(FORMAT_VERSION) + be16(FRAME_ENCODING_VERSION) + seq![
        compression.spec_byte(),
        Finality::Finalized.spec_tag(),
        descriptor.verification.spec_rank(),
        descriptor.trust.spec_rank(),
    ] + be64(descriptor.chain_id.0) + be64(descriptor.range.start.0) + be64(descriptor.range.end.0)
        + descriptor.material_shape.0@ + be16(descriptor.present_capabilities.bits) + be16(
        descriptor.complete_capabilities.bits,
    ) + seq![0u8, 0u8, 0u8, 0u8]
}

/// Writes the header of a segment.
pub fn encode_header(descriptor: &SegmentDescriptor, compression: Compression) -> (output: Vec<u8>)
    ensures
        output@ == header_bytes(*descriptor, compression),
{
    let mut output: Vec<u8> = Vec::new();
    push_bytes(&mut output, &header_magic_bytes());
    push_u16(&mut output, FORMAT_VERSION);
    push_u16(&mut output, FRAME_ENCODING_VERSION);
    output.push(compression.byte());
    output.push(Finality::Finalized.tag());
    output.push(descriptor.verification.rank());
    output.push(descriptor.trust.rank());
    push_u64(&mut output, descriptor.chain_id.0);
    push_u64(&mut output, descriptor.range.start.0);
    push_u64(&mut output, descriptor.range.end.0);
    push_bytes(&mut output, &descriptor.material_shape.0);
    push_u16(&mut output, descriptor.present_capabilities.bits);
    push_u16(&mut output, descriptor.complete_capabilities.bits);
    output.push(0);
    output.push(0);
    output.push(0);
    output.push(0);
    assert(output@ =~= header_bytes(*descriptor, compression));
    output
}

/// The descriptor that header bytes spell, before it is validated.
pub open spec fn header_descriptor(
    bytes: Seq<u8>,
    verification: VerificationClass,
    trust: TrustModel,
) -> SegmentDescriptor {
    SegmentDescriptor {
        chain_id: ChainId(from_be64(bytes.subrange(16, 24))),
        range: BlockRange {
            start: BlockNumber(from_be64(bytes.subrange(24, 32))),
            end: BlockNumber(from_be64(bytes.subrange(32, 40))),
        },
        material_shape: MaterialShapeId(array32(bytes.subrange(40, 72))),
        present_capabilities: CapabilitySet { bits: from_be16(bytes.subrange(72, 74)) },
        complete_capabilities: CapabilitySet { bits: from_be16(bytes.subrange(74, 76)) },
        verification,
        trust,
    }
}

/// What 80 header bytes say: the first fault in reading order, or the
/// descriptor and the compression.
pub open spec fn parse_header(bytes: Seq<u8>) -> Result<
    (SegmentDescriptor, Compression),
    SegmentError,
> {
    let format = from_be16(bytes.subrange(8, 10));
    let encoding = from_be16(bytes.subrange(10, 12));
    if bytes.subrange(0, 8) != header_magic() {
        Err(SegmentError::HeaderMagic)
    } else if format != FORMAT_VERSION {
        Err(SegmentError::FormatVersion(format))
    } else if encoding != FRAME_ENCODING_VERSION {
        Err(SegmentError::FrameEncodingVersion(encoding))
    } else {
        match Compression::spec_from_byte(bytes[12]) {
            Err(error) => Err(error),
            Ok(compression) => if bytes[13] != Finality::Finalized.spec_tag() {
                Err(SegmentError::NonFinalizedEncoding(bytes[13]))
            } else {
                match VerificationClass::spec_from_byte(bytes[14]) {
                    Err(error) => Err(error),
                    Ok(verification) => match TrustModel::spec_from_rank(bytes[15]) {
                        None => Err(SegmentError::UnknownTrust(bytes[15])),
                        Some(trust) => {
                            let descriptor = header_descriptor(bytes, verification, trust);
                            if bytes.subrange(76, 80) != seq![0u8, 0u8, 0u8, 0u8] {
                                Err(SegmentError::Reserved)
                            } else if !descriptor.range.wf() {
                                Err(SegmentError::InvalidDescriptor("invalid block range"))
                            } else if descriptor.present_capabilities.bits & !CAPABILITY_BITS != 0
                                || descriptor.complete_capabilities.bits & !CAPABILITY_BITS != 0 {
                                Err(SegmentError::UnknownCapabilities)
                            } else {
                                match descriptor.problem() {
                                    Some(error) => Err(error),
                                    None => Ok((descriptor, compression)),
                                }
                            }
                        },
                    },
                }
            },
        }
    }
}

/// Reads a trust level, and refuses a byte that encodes none.
pub fn decode_trust(value: u8) -> (trust: Result<TrustModel, SegmentError>)
    ensures
        trust == (match TrustModel::spec_from_rank(value) {
            Some(trust) => Ok::<TrustModel, SegmentError>(trust),
            None => Err(SegmentError::UnknownTrust(value)),
        }),
{
    match TrustModel::from_rank(value) {
        Some(trust) => Ok(trust),
        None => Err(SegmentError::UnknownTrust(value)),
    }
}

/// Reads and validates a segment header.
pub fn decode_header(bytes: &[u8]) -> (outcome: Result<
    (SegmentDescriptor, Compression),
    SegmentError,
>)
    requires
        bytes@.len() == 80,
    ensures
        outcome == parse_header(bytes@),
{
    if !same_bytes(&bytes[0..8], &header_magic_bytes()) {
        return Err(SegmentError::HeaderMagic);
    }
    let format: u16 = u16_at(bytes, 8);
    if format != FORMAT_VERSION {
        return Err(SegmentError::FormatVersion(format));
    }
    let frame_encoding: u16 = u16_at(bytes, 10);
    if frame_encoding != FRAME_ENCODING_VERSION {
        return Err(SegmentError::FrameEncodingVersion(frame_encoding));
    }
    let compression = Compression::from_byte(bytes[12])?;
    if bytes[13] != Finality::Finalized.tag() {
        return Err(SegmentError::NonFinalizedEncoding(bytes[13]));
    }
    let verification = VerificationClass::from_byte(bytes[14])?;
    let trust = decode_trust(bytes[15])?;
    let zeros: [u8; 4] = [0, 0, 0, 0];
    assert(zeros@ =~= seq![0u8, 0u8, 0u8, 0u8]);
    if !same_bytes(&bytes[76..80], &zeros) {
        return Err(SegmentError::Reserved);
    }
    let chain_id = ChainId(u64_at(bytes, 16));
    let start = BlockNumber(u64_at(bytes, 24));
    let end = BlockNumber(u64_at(bytes, 32));
    let range = match BlockRange::new(start, end) {
        Ok(range) => range,
        Err(_) => {
            return Err(SegmentError::InvalidDescriptor("invalid block range"));
        },
    };
    let material_shape = MaterialShapeId(array32_at(bytes, 40));
    let present = match CapabilitySet::from_bits(u16_at(bytes, 72)) {
        Some(present) => present,
        None => {
            return Err(SegmentError::UnknownCapabilities);
        },
    };
    let complete = match CapabilitySet::from_bits(u16_at(bytes, 74)) {
        Some(complete) => complete,
        None => {
            return Err(SegmentError::UnknownCapabilities);
        },
    };
    let descriptor = SegmentDescriptor {
        chain_id,
        range,
        material_shape,
        present_capabilities: present,
        complete_capabilities: complete,
        verification,
        trust,
    };
    validate_descriptor(&descriptor)?;
    Ok((descriptor, compression))
}

/// Reading a written header gives back the descriptor and the compression.
pub proof fn law_header_round_trip(descriptor: SegmentDescriptor, compression: Compression)
    requires
        descriptor.wf(),
    ensures
        header_bytes(descriptor, compression).len() == 80,
        parse_header(header_bytes(descriptor, compression)) == Ok::<_, SegmentError>(
            (descriptor, compression),
        ),
{
    let bytes = header_bytes(descriptor, compression);
    assert(bytes.subrange(0, 8) =~= header_magic());
    assert(bytes.subrange(8, 10) =~= be16(FORMAT_VERSION));
    assert(bytes.subrange(10, 12) =~= be16(FRAME_ENCODING_VERSION));
    assert(bytes.subrange(16, 24) =~= be64(descriptor.chain_id.0));
    assert(bytes.subrange(24, 32) =~= be64(descriptor.range.start.0));
    assert(bytes.subrange(32, 40) =~= be64(descriptor.range.end.0));
    assert(bytes.subrange(40, 72) =~= descriptor.material_shape.0@);
    assert(bytes.subrange(72, 74) =~= be16(descriptor.present_capabilities.bits));
    assert(bytes.subrange(74, 76) =~= be16(descriptor.complete_capabilities.bits));
    assert(bytes.subrange(76, 80) =~= seq![0u8, 0u8, 0u8, 0u8]);
    lemma_be16_round_trip(FORMAT_VERSION);
    lemma_be16_round_trip(FRAME_ENCODING_VERSION);
    lemma_be64_round_trip(descriptor.chain_id.0);
    lemma_be64_round_trip(descriptor.range.start.0);
    lemma_be64_round_trip(descriptor.range.end.0);
    lemma_be16_round_trip(descriptor.present_capabilities.bits);
    lemma_be16_round_trip(descriptor.complete_capabilities.bits);
    lemma_array32(descriptor.material_shape.0);
}

/// One fixed-width seek entry of the directory.
#[derive(Clone, Copy, Debug)]
pub struct DirectoryEntry {
    pub block_number: BlockNumber,
    pub payload_offset: u64,
    pub stored_len: u32,
    pub logical_len: u32,
    pub block_hash: BlockHash,
    pub parent_hash: BlockHash,
    pub stored_checksum: [u8; 32],
}

/// The 120 bytes of a seek entry.
pub open spec fn entry_bytes(entry: DirectoryEntry) -> Seq<u8> {
    be64(entry.block_number.0) + be64(entry.payload_offset) + be32(entry.stored_len) + be32(
        entry.logical_len,
    ) + entry.block_hash.0@ + entry.parent_hash.0@ + entry.stored_checksum@
}

/// The seek entry that 120 bytes spell.
pub open spec fn parse_entry(bytes: Seq<u8>) -> DirectoryEntry {
    DirectoryEntry {
        block_number: BlockNumber(from_be64(bytes.subrange(0, 8))),
        payload_offset: from_be64(bytes.subrange(8, 16)),
        stored_len: from_be32(bytes.subrange(16, 20)),
        logical_len: from_be32(bytes.subrange(20, 24)),
        block_hash: BlockHash(array32(bytes.subrange(24, 56))),
        parent_hash: BlockHash(array32(bytes.subrange(56, 88))),
        stored_checksum: array32(bytes.subrange(88, 120)),
    }
}

impl DirectoryEntry {
    pub fn encode(&self) -> (output: Vec<u8>)
        ensures
            output@ == entry_bytes(*self),
    {
        let mut output: Vec<u8> = Vec::new();
        push_u64(&mut output, self.block_number.0);
        push_u64(&mut output, self.payload_offset);
        push_u32(&mut output, self.stored_len);
        push_u32(&mut output, self.logical_len);
        push_bytes(&mut output, &self.block_hash.0);
        push_bytes(&mut output, &self.parent_hash.0);
        push_bytes(&mut output, &self.stored_checksum);
        assert(output@ =~= entry_bytes(*self));
        output
    }

    pub fn decode(bytes: &[u8]) -> (entry: DirectoryEntry)
        requires
            bytes@.len() == 120,
        ensures
            entry == parse_entry(bytes@),
    {
        DirectoryEntry {
            block_number: BlockNumber(u64_at(bytes, 0)),
            payload_offset: u64_at(bytes, 8),
            stored_len: u32_at(bytes, 16),
            logical_len: u32_at(bytes, 20),
            block_hash: BlockHash(array32_at(bytes, 24)),
            parent_hash: BlockHash(array32_at(bytes, 56)),
            stored_checksum: array32_at(bytes, 88),
        }
    }
}

/// Reading a written seek entry gives the entry back.
pub proof fn law_entry_round_trip(entry: DirectoryEntry)
    ensures
        entry_bytes(entry).len() == 120,
        parse_entry(entry_bytes(entry)) == entry,
{
    let bytes = entry_bytes(entry);
    assert(bytes.subrange(0, 8) =~= be64(entry.block_number.0));
    assert(bytes.subrange(8, 16) =~= be64(entry.payload_offset));
    assert(bytes.subrange(16, 20) =~= be32(entry.stored_len));
    assert(bytes.subrange(20, 24) =~= be32(entry.logical_len));
    assert(bytes.subrange(24, 56) =~= entry.block_hash.0@);
    assert(bytes.subrange(56, 88) =~= entry.parent_hash.0@);
    assert(bytes.subrange(88, 120) =~= entry.stored_checksum@);
    lemma_be64_round_trip(entry.block_number.0);
    lemma_be64_round_trip(entry.payload_offset);
    lemma_be32_round_trip(entry.stored_len);
    lemma_be32_round_trip(entry.logical_len);
    lemma_array32(entry.block_hash.0);
    lemma_array32(entry.parent_hash.0);
    lemma_array32(entry.stored_checksum);
}

/// Length of a closed file of `count` records that store `stored_bytes`.
pub open spec fn closed_len(count: int, stored_bytes: int) -> int {
    HEADER_BYTES + stored_bytes + DIRECTORY_PREFIX_BYTES + count * DIRECTORY_ENTRY_BYTES
        + FOOTER_SUMMARY_BYTES + TRAILER_BYTES
}

/// Length of a closed file, or the overflow of that length.
pub fn closed_file_len(count: u64, stored_bytes: u64) -> (len: Result<u64, SegmentError>)
    ensures
        len == (if closed_len(count as int, stored_bytes as int) <= u64::MAX {
            Ok::<u64, SegmentError>(closed_len(count as int, stored_bytes as int) as u64)
        } else {
            Err(SegmentError::ArithmeticOverflow)
        }),
{
    let records: u64 = match HEADER_BYTES.checked_add(stored_bytes) {
        Some(records) => records,
        None => {
            return Err(SegmentError::ArithmeticOverflow);
        },
    };
    let prefixed: u64 = match records.checked_add(DIRECTORY_PREFIX_BYTES) {
        Some(prefixed) => prefixed,
        None => {
            return Err(SegmentError::ArithmeticOverflow);
        },
    };
    let entries: u64 = match count.checked_mul(DIRECTORY_ENTRY_BYTES) {
        Some(entries) => entries,
        None => {
            return Err(SegmentError::ArithmeticOverflow);
        },
    };
    let directory: u64 = match prefixed.checked_add(entries) {
        Some(directory) => directory,
        None => {
            return Err(SegmentError::ArithmeticOverflow);
        },
    };
    match directory.checked_add(FOOTER_SUMMARY_BYTES + TRAILER_BYTES) {
        Some(len) => Ok(len),
        None => Err(SegmentError::ArithmeticOverflow),
    }
}

} // verus!
