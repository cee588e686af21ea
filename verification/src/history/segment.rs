//! Writing, opening and reading raw segment files.

use crate::bytes::{
    array32, array32_at, be64, from_be64, lemma_array32, push_bytes, push_u64, same_array,
    same_bytes, u64_at,
};
use crate::digest::{
    absorbed, blake3_digest, blake3_hash, hasher_finalize, hasher_new, hasher_update,
};
use crate::history::layout::{
    closed_file_len, closed_len, decode_header, directory_magic, directory_magic_bytes,
    encode_header, entry_bytes, header_bytes, parse_entry, parse_header, trailer_magic,
    trailer_magic_bytes, validate_descriptor, Compression, DirectoryEntry, SegmentDescriptor,
    SegmentError, SegmentId, SegmentLimits, DIRECTORY_ENTRY_BYTES, DIRECTORY_PREFIX_BYTES,
    FOOTER_SUMMARY_BYTES, HEADER_BYTES, TRAILER_BYTES,
};
use crate::primitives::{BlockHash, BlockNumber, BlockRef, CapabilitySet, ChainId, Finality};
use vstd::prelude::*;

verus! {

/// What the store reads of a frame: its identity, the material it carries,
/// and the fault its own shape check found, if any.
#[derive(Clone, Copy, Debug)]
pub struct FrameFacts {
    pub chain_id: ChainId,
    pub block: BlockRef,
    pub finality: Finality,
    pub present: CapabilitySet,
    pub complete: CapabilitySet,
    pub shape_problem: Option<&'static str>,
}

/// Validated metadata for one closed immutable segment.
#[derive(Debug)]
pub struct SegmentMetadata {
    pub id: SegmentId,
    pub descriptor: SegmentDescriptor,
    pub compression: Compression,
    pub logical_bytes: u64,
    pub physical_bytes: u64,
    pub first_parent_hash: BlockHash,
    pub last_hash: BlockHash,
    pub ordered_hash_digest: [u8; 32],
    pub records_checksum: [u8; 32],
    pub content_checksum: [u8; 32],
}

impl Clone for SegmentMetadata {
    fn clone(&self) -> (copy: SegmentMetadata)
        ensures
            copy == *self,
    {
        SegmentMetadata {
            id: self.id.clone(),
            descriptor: self.descriptor,
            compression: self.compression,
            logical_bytes: self.logical_bytes,
            physical_bytes: self.physical_bytes,
            first_parent_hash: self.first_parent_hash,
            last_hash: self.last_hash,
            ordered_hash_digest: self.ordered_hash_digest,
            records_checksum: self.records_checksum,
            content_checksum: self.content_checksum,
        }
    }
}

/// Everything that a closed file says of itself.
#[derive(Clone, Copy, Debug)]
pub struct SegmentFacts {
    pub descriptor: SegmentDescriptor,
    pub compression: Compression,
    pub logical_bytes: u64,
    pub physical_bytes: u64,
    pub first_parent_hash: BlockHash,
    pub last_hash: BlockHash,
    pub ordered_hash_digest: [u8; 32],
    pub records_checksum: [u8; 32],
    pub content_checksum: [u8; 32],
}

impl SegmentMetadata {
    pub open spec fn facts(self) -> SegmentFacts {
        SegmentFacts {
            descriptor: self.descriptor,
            compression: self.compression,
            logical_bytes: self.logical_bytes,
            physical_bytes: self.physical_bytes,
            first_parent_hash: self.first_parent_hash,
            last_hash: self.last_hash,
            ordered_hash_digest: self.ordered_hash_digest,
            records_checksum: self.records_checksum,
            content_checksum: self.content_checksum,
        }
    }

    /// Whether two records describe the same segment in every field.
    pub fn same(&self, other: &SegmentMetadata) -> (same: bool)
        ensures
            same == (self.id@ == other.id@ && self.facts() == other.facts()),
    {
        self.id.same(&other.id) && self.descriptor.same(&other.descriptor) && self.compression
            == other.compression && self.logical_bytes == other.logical_bytes
            && self.physical_bytes == other.physical_bytes && self.first_parent_hash
            == other.first_parent_hash && self.last_hash == other.last_hash && same_array(
            &self.ordered_hash_digest,
            &other.ordered_hash_digest,
        ) && same_array(&self.records_checksum, &other.records_checksum) && same_array(
            &self.content_checksum,
            &other.content_checksum,
        )
    }
}

/// Bytes that the records of `entries` store.
pub open spec fn stored_total(entries: Seq<DirectoryEntry>) -> int
    decreases entries.len(),
{
    if entries.len() == 0 {
        0
    } else {
        stored_total(entries.drop_last()) + entries.last().stored_len
    }
}

/// Bytes that the records of `entries` hold once decoded.
pub open spec fn logical_total(entries: Seq<DirectoryEntry>) -> int
    decreases entries.len(),
{
    if entries.len() == 0 {
        0
    } else {
        logical_total(entries.drop_last()) + entries.last().logical_len
    }
}

/// The seek entries one after another.
pub open spec fn directory_bytes(entries: Seq<DirectoryEntry>) -> Seq<u8>
    decreases entries.len(),
{
    if entries.len() == 0 {
        Seq::empty()
    } else {
        directory_bytes(entries.drop_last()) + entry_bytes(entries.last())
    }
}

/// The block hashes one after another.
pub open spec fn hash_chain(entries: Seq<DirectoryEntry>) -> Seq<u8>
    decreases entries.len(),
{
    if entries.len() == 0 {
        Seq::empty()
    } else {
        hash_chain(entries.drop_last()) + entries.last().block_hash.0@
    }
}

/// Entries that number the blocks from `start` without a gap, point at
/// records that follow each other from the header on, and name the block
/// before as parent.
pub open spec fn linked(entries: Seq<DirectoryEntry>, start: u64) -> bool
    decreases entries.len(),
{
    entries.len() == 0 || {
        let before = entries.drop_last();
        &&& linked(before, start)
        &&& entries.last().block_number.0 == start + before.len()
        &&& entries.last().payload_offset == HEADER_BYTES + stored_total(before)
        &&& before.len() > 0 ==> entries.last().parent_hash == before.last().block_hash
    }
}

/// Header, records, directory and summary: all that the content checksum
/// covers.
pub open spec fn content_bytes(
    descriptor: SegmentDescriptor,
    compression: Compression,
    entries: Seq<DirectoryEntry>,
    payload: Seq<u8>,
) -> Seq<u8> {
    header_bytes(descriptor, compression) + payload + closing_content(entries, payload)
}

/// The four anchors of the footer.
pub open spec fn summary_bytes(entries: Seq<DirectoryEntry>, payload: Seq<u8>) -> Seq<u8> {
    entries[0].parent_hash.0@ + entries.last().block_hash.0@ + blake3_digest(hash_chain(entries))@
        + blake3_digest(payload)@
}

/// Directory prefix, entries and summary.
pub open spec fn closing_content(entries: Seq<DirectoryEntry>, payload: Seq<u8>) -> Seq<u8> {
    directory_magic() + be64(entries.len() as u64) + directory_bytes(entries) + summary_bytes(
        entries,
        payload,
    )
}

/// The 56 trailer bytes.
pub open spec fn trailer_bytes(
    directory_offset: u64,
    directory_len: u64,
    checksum: Seq<u8>,
) -> Seq<u8> {
    be64(directory_offset) + be64(directory_len) + checksum + trailer_magic()
}

/// The closed file that holds these records.
pub open spec fn segment_file(
    descriptor: SegmentDescriptor,
    compression: Compression,
    entries: Seq<DirectoryEntry>,
    payload: Seq<u8>,
) -> Seq<u8> {
    let content = content_bytes(descriptor, compression, entries, payload);
    content + trailer_bytes(
        (HEADER_BYTES + payload.len()) as u64,
        (DIRECTORY_PREFIX_BYTES + entries.len() * DIRECTORY_ENTRY_BYTES + FOOTER_SUMMARY_BYTES) as u64,
        blake3_digest(content)@,
    )
}

/// What the directory adds up to, entry by entry.
#[derive(Clone, Copy, Debug)]
pub struct DirectoryScan {
    pub logical: u64,
    pub stored: u64,
    pub first_parent: Option<BlockHash>,
    pub last_hash: Option<BlockHash>,
}

/// The scan after one more entry, or the fault in that entry.
pub open spec fn admit_entry(
    scan: DirectoryScan,
    entry: DirectoryEntry,
    expected: int,
    directory_offset: u64,
) -> Result<DirectoryScan, SegmentError> {
    if expected > u64::MAX {
        Err(SegmentError::ArithmeticOverflow)
    } else if entry.block_number.0 != expected {
        Err(
            SegmentError::OutOfOrder {
                expected: BlockNumber(expected as u64),
                actual: entry.block_number,
            },
        )
    } else if HEADER_BYTES + scan.stored > u64::MAX {
        Err(SegmentError::ArithmeticOverflow)
    } else if entry.payload_offset != HEADER_BYTES + scan.stored {
        Err(SegmentError::RecordBounds(entry.block_number))
    } else if entry.payload_offset + entry.stored_len > u64::MAX {
        Err(SegmentError::ArithmeticOverflow)
    } else if entry.payload_offset + entry.stored_len > directory_offset {
        Err(SegmentError::RecordBounds(entry.block_number))
    } else if scan.last_hash is Some && entry.parent_hash != scan.last_hash->0 {
        Err(
            SegmentError::ParentMismatch {
                block: entry.block_number,
                expected: scan.last_hash->0,
                actual: entry.parent_hash,
            },
        )
    } else if scan.logical + entry.logical_len > u64::MAX {
        Err(SegmentError::ArithmeticOverflow)
    } else {
        Ok(
            DirectoryScan {
                logical: (scan.logical + entry.logical_len) as u64,
                stored: (scan.stored + entry.stored_len) as u64,
                first_parent: if scan.first_parent is Some {
                    scan.first_parent
                } else {
                    Some(entry.parent_hash)
                },
                last_hash: Some(entry.block_hash),
            },
        )
    }
}

/// The scan over all `entries`, or the first fault in them.
pub open spec fn scan_directory(
    entries: Seq<DirectoryEntry>,
    start: u64,
    directory_offset: u64,
) -> Result<DirectoryScan, SegmentError>
    decreases entries.len(),
{
    if entries.len() == 0 {
        Ok(DirectoryScan { logical: 0, stored: 0, first_parent: None, last_hash: None })
    } else {
        match scan_directory(entries.drop_last(), start, directory_offset) {
            Err(error) => Err(error),
            Ok(scan) => admit_entry(
                scan,
                entries.last(),
                start + (entries.len() - 1),
                directory_offset,
            ),
        }
    }
}

/// The `count` seek entries of a file whose directory starts at
/// `directory_offset`.
pub open spec fn file_entries(file: Seq<u8>, directory_offset: u64, count: u64) -> Seq<
    DirectoryEntry,
> {
    Seq::new(count as nat, |index: int| file_entry(file, directory_offset, index))
}

/// One seek entry of a file.
pub open spec fn file_entry(file: Seq<u8>, directory_offset: u64, index: int) -> DirectoryEntry {
    let at = directory_offset + DIRECTORY_PREFIX_BYTES + index * DIRECTORY_ENTRY_BYTES;
    parse_entry(file.subrange(at, at + DIRECTORY_ENTRY_BYTES))
}

/// The bytes between the header and the directory.
pub open spec fn records_area(file: Seq<u8>, directory_offset: u64) -> Seq<u8> {
    if directory_offset > HEADER_BYTES {
        file.subrange(HEADER_BYTES as int, directory_offset as int)
    } else {
        Seq::empty()
    }
}

/// Shortest file that can be a segment.
pub open spec fn shortest_file() -> int {
    HEADER_BYTES + DIRECTORY_PREFIX_BYTES + FOOTER_SUMMARY_BYTES + TRAILER_BYTES
}

/// What the bytes of a file say: the first fault in reading order, or the
/// facts of the segment and the place of its directory.
pub open spec fn parse_segment_file(file: Seq<u8>) -> Result<(SegmentFacts, u64), SegmentError> {
    let trailer = file.subrange(file.len() - TRAILER_BYTES, file.len() as int);
    let directory_offset = from_be64(trailer.subrange(0, 8));
    let directory_len = from_be64(trailer.subrange(8, 16));
    let checksum = trailer.subrange(16, 48);
    let content = file.subrange(0, directory_offset + directory_len);
    if file.len() < shortest_file() {
        Err(SegmentError::Truncated)
    } else {
        match parse_header(file.subrange(0, 80)) {
            Err(error) => Err(error),
            Ok((descriptor, compression)) => if trailer.subrange(48, 56) != trailer_magic() {
                Err(SegmentError::TrailerMagic)
            } else if directory_offset + directory_len + TRAILER_BYTES > u64::MAX {
                Err(SegmentError::ArithmeticOverflow)
            } else if directory_offset + directory_len + TRAILER_BYTES != file.len() {
                Err(SegmentError::DirectoryBounds)
            } else if blake3_digest(content)@ != checksum {
                Err(SegmentError::ContentChecksum)
            } else {
                parse_directory(
                    file,
                    descriptor,
                    compression,
                    directory_offset,
                    directory_len,
                    array32(checksum),
                )
            },
        }
    }
}

/// What the directory and the summary of a checksummed file say.
pub open spec fn parse_directory(
    file: Seq<u8>,
    descriptor: SegmentDescriptor,
    compression: Compression,
    directory_offset: u64,
    directory_len: u64,
    content_checksum: [u8; 32],
) -> Result<(SegmentFacts, u64), SegmentError> {
    let at = directory_offset as int;
    let count = from_be64(file.subrange(at + 8, at + 16));
    let expected_len = DIRECTORY_PREFIX_BYTES + count * DIRECTORY_ENTRY_BYTES
        + FOOTER_SUMMARY_BYTES;
    if file.subrange(at, at + 8) != directory_magic() {
        Err(SegmentError::DirectoryMagic)
    } else if count != descriptor.range.spec_len() {
        Err(
            SegmentError::IncompleteRange {
                expected: descriptor.range.spec_len(),
                actual: count,
            },
        )
    } else if expected_len > u64::MAX {
        Err(SegmentError::ArithmeticOverflow)
    } else if directory_len != expected_len {
        Err(
            SegmentError::DirectoryLength {
                expected: expected_len as u64,
                actual: directory_len,
            },
        )
    } else {
        let entries = file_entries(file, directory_offset, count);
        match scan_directory(entries, descriptor.range.start.0, directory_offset) {
            Err(error) => Err(error),
            Ok(scan) => parse_summary(
                file,
                descriptor,
                compression,
                directory_offset,
                content_checksum,
                entries,
                scan,
            ),
        }
    }
}

/// What the summary of a file with a scanned directory says.
pub open spec fn parse_summary(
    file: Seq<u8>,
    descriptor: SegmentDescriptor,
    compression: Compression,
    directory_offset: u64,
    content_checksum: [u8; 32],
    entries: Seq<DirectoryEntry>,
    scan: DirectoryScan,
) -> Result<(SegmentFacts, u64), SegmentError> {
    let at = directory_offset + DIRECTORY_PREFIX_BYTES + entries.len() * DIRECTORY_ENTRY_BYTES;
    if HEADER_BYTES + scan.stored > u64::MAX {
        Err(SegmentError::ArithmeticOverflow)
    } else if HEADER_BYTES + scan.stored != directory_offset {
        Err(SegmentError::DirectoryBounds)
    } else if scan.first_parent is None || scan.last_hash is None {
        Err(SegmentError::Truncated)
    } else if file.subrange(at, at + 32) != (scan.first_parent->0).0@ || file.subrange(
        at + 32,
        at + 64,
    ) != (scan.last_hash->0).0@ {
        Err(SegmentError::AnchorMismatch)
    } else if file.subrange(at + 64, at + 96) != blake3_digest(hash_chain(entries))@ {
        Err(SegmentError::OrderedHashDigest)
    } else if file.subrange(at + 96, at + 128) != blake3_digest(
        records_area(file, directory_offset),
    )@ {
        Err(SegmentError::RecordsChecksum)
    } else {
        Ok(
            (
                SegmentFacts {
                    descriptor,
                    compression,
                    logical_bytes: scan.logical,
                    physical_bytes: file.len() as u64,
                    first_parent_hash: scan.first_parent->0,
                    last_hash: scan.last_hash->0,
                    ordered_hash_digest: array32(file.subrange(at + 64, at + 96)),
                    records_checksum: array32(file.subrange(at + 96, at + 128)),
                    content_checksum,
                },
                directory_offset,
            ),
        )
    }
}


/// A fault in an earlier entry stays the fault of the whole directory.
proof fn lemma_scan_fault(
    entries: Seq<DirectoryEntry>,
    upto: int,
    start: u64,
    directory_offset: u64,
)
    requires
        0 <= upto <= entries.len(),
        scan_directory(entries.take(upto), start, directory_offset) is Err,
    ensures
        scan_directory(entries, start, directory_offset) == scan_directory(
            entries.take(upto),
            start,
            directory_offset,
        ),
    decreases entries.len() - upto,
{
    if upto < entries.len() {
        assert(entries.take(upto + 1).drop_last() =~= entries.take(upto));
        lemma_scan_fault(entries, upto + 1, start, directory_offset);
    } else {
        assert(entries.take(upto) =~= entries);
    }
}

/// Digests of the content and of the records in it, read in bounded pieces.
fn hash_content_and_records(
    file: &[u8],
    directory_offset: u64,
    content_length: u64,
) -> (digests: ([u8; 32], [u8; 32]))
    requires
        directory_offset <= content_length <= file.len(),
    ensures
        digests.0 == blake3_digest(file@.subrange(0, content_length as int)),
        digests.1 == blake3_digest(records_area(file@, directory_offset)),
{
    let length: usize = content_length as usize;
    let directory: usize = directory_offset as usize;
    let header: usize = 80;
    let piece: usize = 64 * 1024;
    let mut position: usize = 0;
    let mut content_hasher = hasher_new();
    let mut records_hasher = hasher_new();
    let ghost mut hashed_records: Seq<u8> = Seq::empty();
    proof {
        assert(file@.subrange(0, 0) =~= Seq::<u8>::empty());
    }
    while position < length
        invariant
            position <= length,
            directory <= length <= file.len(),
            header == 80,
            piece == 65536,
            absorbed(content_hasher) == file@.subrange(0, position as int),
            absorbed(records_hasher) == (if position <= header || directory <= header {
                Seq::<u8>::empty()
            } else if position <= directory {
                file@.subrange(header as int, position as int)
            } else {
                file@.subrange(header as int, directory as int)
            }),
        decreases length - position,
    {
        let requested: usize = if length - position < piece {
            length - position
        } else {
            piece
        };
        let chunk_end: usize = position + requested;
        hasher_update(&mut content_hasher, &file[position..chunk_end]);
        assert(file@.subrange(0, position as int) + file@.subrange(
            position as int,
            chunk_end as int,
        ) =~= file@.subrange(0, chunk_end as int));
        let records_start: usize = if position > header {
            position
        } else {
            header
        };
        let records_end: usize = if chunk_end < directory {
            chunk_end
        } else {
            directory
        };
        if records_start < records_end {
            let ghost before = absorbed(records_hasher);
            hasher_update(&mut records_hasher, &file[records_start..records_end]);
            assert(before + file@.subrange(records_start as int, records_end as int)
                =~= file@.subrange(header as int, records_end as int));
        }
        position = chunk_end;
    }
    assert(records_area(file@, directory_offset) =~= absorbed(records_hasher));
    (hasher_finalize(&content_hasher), hasher_finalize(&records_hasher))
}

/// Validated seekable reader of one closed file. Opening verifies the whole
/// checksum and every directory and anchor rule without decoding a record.
#[derive(Debug)]
pub struct SegmentReader {
    metadata: SegmentMetadata,
    directory_offset: u64,
}

/// The outcome of a record read that checks out.
#[derive(Debug)]
pub struct SegmentRead {
    pub logical: Vec<u8>,
    pub block_hash: BlockHash,
    pub parent_hash: BlockHash,
    pub stored_bytes_read: u64,
    pub logical_bytes_read: u64,
    pub records_decoded: u64,
}

/// What a seek read of one block finds in a file: the first fault, or the
/// seek entry and the decoded record.
pub open spec fn read_record(
    facts: SegmentFacts,
    directory_offset: u64,
    file: Seq<u8>,
    block: BlockNumber,
) -> Result<(DirectoryEntry, Seq<u8>), SegmentError> {
    let index = block.0 - facts.descriptor.range.start.0;
    let at = directory_offset + DIRECTORY_PREFIX_BYTES + index * DIRECTORY_ENTRY_BYTES;
    let entry = file_entry(file, directory_offset, index);
    let stored = file.subrange(
        entry.payload_offset as int,
        entry.payload_offset + entry.stored_len,
    );
    if !facts.descriptor.range.has(block.0 as int) {
        Err(SegmentError::BlockOutOfRange { block, range: facts.descriptor.range })
    } else if at > u64::MAX {
        Err(SegmentError::ArithmeticOverflow)
    } else if at + DIRECTORY_ENTRY_BYTES > file.len() || entry.payload_offset + entry.stored_len
        > file.len() {
        Err(SegmentError::Truncated)
    } else if blake3_digest(stored) != entry.stored_checksum {
        Err(SegmentError::RecordChecksum(block))
    } else {
        match facts.compression.decoded(stored, entry.logical_len as usize) {
            Err(error) => Err(error),
            Ok(logical) => Ok((entry, logical)),
        }
    }
}

/// Why a decoded frame is not the one that the directory promised, if so.
pub open spec fn frame_conflict(
    descriptor: SegmentDescriptor,
    block: BlockNumber,
    block_hash: BlockHash,
    parent_hash: BlockHash,
    frame: FrameFacts,
) -> Option<SegmentError> {
    if frame.chain_id != descriptor.chain_id || frame.block.number != block || frame.block.hash
        != block_hash || frame.block.parent_hash != parent_hash || frame.finality
        != Finality::Finalized {
        Some(SegmentError::DecodedIdentity(block))
    } else if frame.present != descriptor.present_capabilities || frame.complete
        != descriptor.complete_capabilities {
        Some(SegmentError::CapabilityMismatch)
    } else {
        match frame.shape_problem {
            Some(problem) => Some(SegmentError::InvalidFrame(problem)),
            None => None,
        }
    }
}

impl SegmentReader {
    pub closed spec fn facts(&self) -> SegmentFacts {
        self.metadata.facts()
    }

    pub closed spec fn id(&self) -> Seq<char> {
        self.metadata.id@
    }

    pub closed spec fn spec_directory_offset(&self) -> u64 {
        self.directory_offset
    }

    /// Opens and fully validates a closed segment. Any malformed, truncated,
    /// corrupt, discontinuous or unsupported file is refused before it can
    /// satisfy coverage.
    pub fn open(file: &[u8], id: SegmentId) -> (outcome: Result<SegmentReader, SegmentError>)
        ensures
            match outcome {
                Ok(reader) => {
                    &&& parse_segment_file(file@) == Ok::<_, SegmentError>(
                        (reader.facts(), reader.spec_directory_offset()),
                    )
                    &&& reader.id() == id@
                },
                Err(error) => parse_segment_file(file@) == Err::<
                    (SegmentFacts, u64),
                    SegmentError,
                >(error),
            },
    {
        let (facts, directory_offset) = read_segment_file(file)?;
        Ok(
            SegmentReader {
                metadata: SegmentMetadata {
                    id,
                    descriptor: facts.descriptor,
                    compression: facts.compression,
                    logical_bytes: facts.logical_bytes,
                    physical_bytes: facts.physical_bytes,
                    first_parent_hash: facts.first_parent_hash,
                    last_hash: facts.last_hash,
                    ordered_hash_digest: facts.ordered_hash_digest,
                    records_checksum: facts.records_checksum,
                    content_checksum: facts.content_checksum,
                },
                directory_offset,
            },
        )
    }

    pub fn metadata(&self) -> (metadata: &SegmentMetadata)
        ensures
            metadata.facts() == self.facts(),
            metadata.id@ == self.id(),
    {
        &self.metadata
    }

    /// Reads and decodes one record by its fixed-width seek entry only.
    pub fn read_block(&self, file: &[u8], block: BlockNumber) -> (outcome: Result<
        SegmentRead,
        SegmentError,
    >)
        ensures
            match (outcome, read_record(self.facts(), self.spec_directory_offset(), file@, block)) {
                (Ok(read), Ok((entry, logical))) => {
                    &&& read.logical@ == logical
                    &&& read.block_hash == entry.block_hash
                    &&& read.parent_hash == entry.parent_hash
                    &&& read.stored_bytes_read == entry.stored_len
                    &&& read.logical_bytes_read == entry.logical_len
                    &&& read.records_decoded == 1
                },
                (Err(error), Err(expected)) => error == expected,
                _ => false,
            },
    {
        let descriptor = self.metadata.descriptor;
        if !descriptor.range.contains(block) {
            return Err(SegmentError::BlockOutOfRange { block, range: descriptor.range });
        }
        let index: u64 = block.0 - descriptor.range.start.0;
        let skipped: u64 = match index.checked_mul(DIRECTORY_ENTRY_BYTES) {
            Some(skipped) => skipped,
            None => {
                return Err(SegmentError::ArithmeticOverflow);
            },
        };
        let first: u64 = match self.directory_offset.checked_add(DIRECTORY_PREFIX_BYTES) {
            Some(first) => first,
            None => {
                return Err(SegmentError::ArithmeticOverflow);
            },
        };
        let at: u64 = match first.checked_add(skipped) {
            Some(at) => at,
            None => {
                return Err(SegmentError::ArithmeticOverflow);
            },
        };
        let size: u64 = file.len() as u64;
        if size < DIRECTORY_ENTRY_BYTES || at > size - DIRECTORY_ENTRY_BYTES {
            return Err(SegmentError::Truncated);
        }
        let from: usize = at as usize;
        let entry = DirectoryEntry::decode(&file[from..from + 120]);
        if entry.payload_offset > size || (entry.stored_len as u64) > size - entry.payload_offset {
            return Err(SegmentError::Truncated);
        }
        let begin: usize = entry.payload_offset as usize;
        let stored: &[u8] = &file[begin..begin + entry.stored_len as usize];
        if !same_array(&blake3_hash(stored), &entry.stored_checksum) {
            return Err(SegmentError::RecordChecksum(block));
        }
        let logical: Vec<u8> = self.metadata.compression.decode(stored, entry.logical_len as usize)?;
        Ok(
            SegmentRead {
                logical,
                block_hash: entry.block_hash,
                parent_hash: entry.parent_hash,
                stored_bytes_read: entry.stored_len as u64,
                logical_bytes_read: entry.logical_len as u64,
                records_decoded: 1,
            },
        )
    }

    /// Refuses a decoded frame that is not the one its seek entry promised.
    pub fn verify_frame(
        &self,
        block: BlockNumber,
        block_hash: BlockHash,
        parent_hash: BlockHash,
        frame: &FrameFacts,
    ) -> (outcome: Result<(), SegmentError>)
        ensures
            outcome == (match frame_conflict(
                self.facts().descriptor,
                block,
                block_hash,
                parent_hash,
                *frame,
            ) {
                Some(error) => Err::<(), SegmentError>(error),
                None => Ok(()),
            }),
    {
        let descriptor = self.metadata.descriptor;
        if frame.chain_id != descriptor.chain_id || frame.block.number != block || frame.block.hash
            != block_hash || frame.block.parent_hash != parent_hash || frame.finality
            != Finality::Finalized {
            return Err(SegmentError::DecodedIdentity(block));
        }
        if frame.present != descriptor.present_capabilities || frame.complete
            != descriptor.complete_capabilities {
            return Err(SegmentError::CapabilityMismatch);
        }
        match frame.shape_problem {
            Some(problem) => Err(SegmentError::InvalidFrame(problem)),
            None => Ok(()),
        }
    }
}

/// Validates one seek entry against the scan so far.
fn check_entry(
    scan: DirectoryScan,
    entry: DirectoryEntry,
    start: u64,
    index: u64,
    directory_offset: u64,
) -> (outcome: Result<DirectoryScan, SegmentError>)
    ensures
        outcome == admit_entry(scan, entry, start + index, directory_offset),
{
    let expected: u64 = match start.checked_add(index) {
        Some(expected) => expected,
        None => {
            return Err(SegmentError::ArithmeticOverflow);
        },
    };
    if entry.block_number.0 != expected {
        return Err(
            SegmentError::OutOfOrder {
                expected: BlockNumber(expected),
                actual: entry.block_number,
            },
        );
    }
    let expected_offset: u64 = match HEADER_BYTES.checked_add(scan.stored) {
        Some(offset) => offset,
        None => {
            return Err(SegmentError::ArithmeticOverflow);
        },
    };
    if entry.payload_offset != expected_offset {
        return Err(SegmentError::RecordBounds(entry.block_number));
    }
    match entry.payload_offset.checked_add(entry.stored_len as u64) {
        Some(end) => {
            if end > directory_offset {
                return Err(SegmentError::RecordBounds(entry.block_number));
            }
        },
        None => {
            return Err(SegmentError::ArithmeticOverflow);
        },
    }
    if let Some(previous) = scan.last_hash {
        if entry.parent_hash != previous {
            return Err(
                SegmentError::ParentMismatch {
                    block: entry.block_number,
                    expected: previous,
                    actual: entry.parent_hash,
                },
            );
        }
    }
    let logical: u64 = match scan.logical.checked_add(entry.logical_len as u64) {
        Some(logical) => logical,
        None => {
            return Err(SegmentError::ArithmeticOverflow);
        },
    };
    let stored: u64 = match scan.stored.checked_add(entry.stored_len as u64) {
        Some(stored) => stored,
        None => {
            return Err(SegmentError::ArithmeticOverflow);
        },
    };
    Ok(
        DirectoryScan {
            logical,
            stored,
            first_parent: match scan.first_parent {
                Some(first) => Some(first),
                None => Some(entry.parent_hash),
            },
            last_hash: Some(entry.block_hash),
        },
    )
}

/// Validates a whole closed file and reads what it says of itself: its facts
/// and where its directory starts.
#[verifier::rlimit(40)]
pub fn read_segment_file(file: &[u8]) -> (outcome: Result<(SegmentFacts, u64), SegmentError>)
    ensures
        outcome == parse_segment_file(file@),
{
    let size: usize = file.len();
    if size < 280 {
        return Err(SegmentError::Truncated);
    }
    let file_len: u64 = size as u64;
    let (descriptor, compression) = decode_header(&file[0..80])?;
    let trailer: &[u8] = &file[size - 56..size];
    if !same_bytes(&trailer[48..56], &trailer_magic_bytes()) {
        return Err(SegmentError::TrailerMagic);
    }
    let directory_offset: u64 = u64_at(trailer, 0);
    let directory_len: u64 = u64_at(trailer, 8);
    let content_checksum: [u8; 32] = array32_at(trailer, 16);
    let trailer_offset: u64 = match directory_offset.checked_add(directory_len) {
        Some(offset) => offset,
        None => {
            return Err(SegmentError::ArithmeticOverflow);
        },
    };
    match trailer_offset.checked_add(TRAILER_BYTES) {
        Some(end) => {
            if end != file_len {
                return Err(SegmentError::DirectoryBounds);
            }
        },
        None => {
            return Err(SegmentError::ArithmeticOverflow);
        },
    }
    let (actual_content, actual_records) = hash_content_and_records(
        file,
        directory_offset,
        trailer_offset,
    );
    if !same_array(&actual_content, &content_checksum) {
        return Err(SegmentError::ContentChecksum);
    }
    open_directory(
        file,
        descriptor,
        compression,
        directory_offset,
        directory_len,
        content_checksum,
        actual_records,
    )
}

/// Validates the directory and the summary of a file whose checksum holds.
fn open_directory(
    file: &[u8],
    descriptor: SegmentDescriptor,
    compression: Compression,
    directory_offset: u64,
    directory_len: u64,
    content_checksum: [u8; 32],
    actual_records: [u8; 32],
) -> (outcome: Result<(SegmentFacts, u64), SegmentError>)
    requires
        directory_offset + directory_len + TRAILER_BYTES == file.len(),
        actual_records == blake3_digest(records_area(file@, directory_offset)),
    ensures
        outcome == parse_directory(
            file@,
            descriptor,
            compression,
            directory_offset,
            directory_len,
            content_checksum,
        ),
{
    let directory: usize = directory_offset as usize;
    if !same_bytes(&file[directory..directory + 8], &directory_magic_bytes()) {
        return Err(SegmentError::DirectoryMagic);
    }
    let count: u64 = u64_at(file, directory + 8);
    if count != descriptor.range.len() {
        return Err(
            SegmentError::IncompleteRange { expected: descriptor.range.len(), actual: count },
        );
    }
    let entries_len: u64 = match count.checked_mul(DIRECTORY_ENTRY_BYTES) {
        Some(len) => len,
        None => {
            return Err(SegmentError::ArithmeticOverflow);
        },
    };
    let expected_len: u64 = match entries_len.checked_add(
        DIRECTORY_PREFIX_BYTES + FOOTER_SUMMARY_BYTES,
    ) {
        Some(len) => len,
        None => {
            return Err(SegmentError::ArithmeticOverflow);
        },
    };
    if directory_len != expected_len {
        return Err(
            SegmentError::DirectoryLength { expected: expected_len, actual: directory_len },
        );
    }
    let ghost entries = file_entries(file@, directory_offset, count);
    let mut scan = DirectoryScan { logical: 0, stored: 0, first_parent: None, last_hash: None };
    let mut ordered_hasher = hasher_new();
    let mut index: u64 = 0;
    proof {
        assert(entries.take(0) =~= Seq::<DirectoryEntry>::empty());
    }
    while index < count
        invariant
            index <= count,
            directory == directory_offset,
            file.len() == directory_offset + directory_len + TRAILER_BYTES,
            directory_len == DIRECTORY_PREFIX_BYTES + count * DIRECTORY_ENTRY_BYTES
                + FOOTER_SUMMARY_BYTES,
            file@.subrange(directory_offset as int, directory_offset + 8) == directory_magic(),
            count == from_be64(file@.subrange(directory_offset + 8, directory_offset + 16)),
            count == descriptor.range.spec_len(),
            entries == file_entries(file@, directory_offset, count),
            scan_directory(entries.take(index as int), descriptor.range.start.0, directory_offset)
                == Ok::<DirectoryScan, SegmentError>(scan),
            absorbed(ordered_hasher) == hash_chain(entries.take(index as int)),
        decreases count - index,
    {
        assert(index * DIRECTORY_ENTRY_BYTES + DIRECTORY_ENTRY_BYTES <= count
            * DIRECTORY_ENTRY_BYTES) by (nonlinear_arith)
            requires
                index < count,
                DIRECTORY_ENTRY_BYTES == 120,
        ;
        let from: usize = directory + 16 + index as usize * 120;
        let entry = DirectoryEntry::decode(&file[from..from + 120]);
        proof {
            assert(entry == entries[index as int]);
            assert(entries.take(index + 1).drop_last() =~= entries.take(index as int));
            assert(entries.take(index + 1).last() == entry);
        }
        match check_entry(scan, entry, descriptor.range.start.0, index, directory_offset) {
            Ok(next) => {
                scan = next;
            },
            Err(error) => {
                proof {
                    lemma_scan_fault(
                        entries,
                        index + 1,
                        descriptor.range.start.0,
                        directory_offset,
                    );
                }
                return Err(error);
            },
        }
        hasher_update(&mut ordered_hasher, &entry.block_hash.0);
        index += 1;
    }
    proof {
        assert(entries.take(count as int) =~= entries);
    }
    match HEADER_BYTES.checked_add(scan.stored) {
        Some(end) => {
            if end != directory_offset {
                return Err(SegmentError::DirectoryBounds);
            }
        },
        None => {
            return Err(SegmentError::ArithmeticOverflow);
        },
    }
    let at: usize = directory + 16 + count as usize * 120;
    let first_parent_hash = match scan.first_parent {
        Some(hash) => hash,
        None => {
            return Err(SegmentError::Truncated);
        },
    };
    let last_hash = match scan.last_hash {
        Some(hash) => hash,
        None => {
            return Err(SegmentError::Truncated);
        },
    };
    if !same_bytes(&file[at..at + 32], &first_parent_hash.0) || !same_bytes(
        &file[at + 32..at + 64],
        &last_hash.0,
    ) {
        return Err(SegmentError::AnchorMismatch);
    }
    let ordered_hash_digest: [u8; 32] = hasher_finalize(&ordered_hasher);
    if !same_bytes(&file[at + 64..at + 96], &ordered_hash_digest) {
        return Err(SegmentError::OrderedHashDigest);
    }
    let records_checksum: [u8; 32] = array32_at(file, at + 96);
    if !same_array(&actual_records, &records_checksum) {
        return Err(SegmentError::RecordsChecksum);
    }
    proof {
        lemma_array32(ordered_hash_digest);
    }
    Ok(
        (
            SegmentFacts {
                descriptor,
                compression,
                logical_bytes: scan.logical,
                physical_bytes: file.len() as u64,
                first_parent_hash,
                last_hash,
                ordered_hash_digest,
                records_checksum,
                content_checksum,
            },
            directory_offset,
        ),
    )
}


/// Everything a writer stands for: what it was made for, the records it has
/// accepted, and whether an append has poisoned it.
pub struct WriterView {
    pub id: Seq<char>,
    pub descriptor: SegmentDescriptor,
    pub compression: Compression,
    pub limits: SegmentLimits,
    pub entries: Seq<DirectoryEntry>,
    pub payload: Seq<u8>,
    pub records: Seq<Seq<u8>>,
    pub failed: bool,
}

/// Why an append is refused, and whether the writer is poisoned by it.
pub struct Refusal {
    pub error: SegmentError,
    pub poisons: bool,
}

/// The stored bytes that an entry points at.
pub open spec fn stored_record(entry: DirectoryEntry, payload: Seq<u8>) -> Seq<u8> {
    let from = entry.payload_offset - HEADER_BYTES;
    payload.subrange(from, from + entry.stored_len)
}

/// Entry `index` points at the stored form of record `index`.
pub open spec fn record_matches(
    compression: Compression,
    entry: DirectoryEntry,
    payload: Seq<u8>,
    record: Seq<u8>,
) -> bool {
    &&& HEADER_BYTES <= entry.payload_offset
    &&& entry.payload_offset + entry.stored_len <= HEADER_BYTES + payload.len()
    &&& entry.stored_checksum == blake3_digest(stored_record(entry, payload))
    &&& compression.unpacked(stored_record(entry, payload)) == Some(record)
    &&& entry.logical_len == record.len()
}

/// Every entry points at the stored form of its record.
pub open spec fn records_match(
    compression: Compression,
    entries: Seq<DirectoryEntry>,
    payload: Seq<u8>,
    records: Seq<Seq<u8>>,
) -> bool {
    &&& entries.len() == records.len()
    &&& forall|index: int|
        #![trigger entries[index]]
        0 <= index < entries.len() ==> record_matches(
            compression,
            entries[index],
            payload,
            records[index],
        )
}

impl WriterView {
    /// What every writer keeps true between appends.
    pub open spec fn wf(self) -> bool {
        &&& self.descriptor.wf()
        &&& self.limits.wf()
        &&& linked(self.entries, self.descriptor.range.start.0)
        &&& stored_total(self.entries) == self.payload.len()
        &&& logical_total(self.entries) <= self.limits.maximum_segment_logical_bytes
        &&& self.entries.len() > 0 ==> {
            &&& self.descriptor.range.start.0 + self.entries.len() - 1
                <= self.descriptor.range.end.0
            &&& closed_len(self.entries.len() as int, self.payload.len() as int)
                <= self.limits.maximum_segment_physical_bytes
        }
        &&& records_match(self.compression, self.entries, self.payload, self.records)
    }

    /// Why a frame cannot be the next one of the segment, if it cannot.
    pub open spec fn frame_fault(self, frame: FrameFacts) -> Option<SegmentError> {
        let expected = self.descriptor.range.start.0 + self.entries.len();
        if frame.shape_problem is Some {
            Some(SegmentError::InvalidFrame(frame.shape_problem->0))
        } else if frame.chain_id != self.descriptor.chain_id {
            Some(
                SegmentError::ChainMismatch {
                    expected: self.descriptor.chain_id,
                    actual: frame.chain_id,
                },
            )
        } else if frame.finality != Finality::Finalized {
            Some(SegmentError::NonFinalized(frame.block.number))
        } else if expected > u64::MAX {
            Some(SegmentError::ArithmeticOverflow)
        } else if frame.block.number.0 != expected {
            Some(
                SegmentError::OutOfOrder {
                    expected: BlockNumber(expected as u64),
                    actual: frame.block.number,
                },
            )
        } else if frame.block.number.0 > self.descriptor.range.end.0 {
            Some(
                SegmentError::OutOfOrder {
                    expected: self.descriptor.range.end,
                    actual: frame.block.number,
                },
            )
        } else if self.entries.len() > 0 && frame.block.parent_hash
            != self.entries.last().block_hash {
            Some(
                SegmentError::ParentMismatch {
                    block: frame.block.number,
                    expected: self.entries.last().block_hash,
                    actual: frame.block.parent_hash,
                },
            )
        } else if frame.present != self.descriptor.present_capabilities || frame.complete
            != self.descriptor.complete_capabilities {
            Some(SegmentError::CapabilityMismatch)
        } else {
            None
        }
    }

    /// Why this frame with this encoding is refused, if it is.
    pub open spec fn refusal(self, frame: FrameFacts, logical: Seq<u8>) -> Option<Refusal> {
        let limits = self.limits;
        let projected = logical_total(self.entries) + logical.len();
        if self.failed {
            Some(Refusal { error: SegmentError::WriterPoisoned, poisons: false })
        } else if self.frame_fault(frame) is Some {
            Some(Refusal { error: self.frame_fault(frame)->0, poisons: true })
        } else if logical.len() > u32::MAX {
            Some(
                Refusal {
                    error: SegmentError::FrameOversized {
                        limit: limits.maximum_frame_logical_bytes,
                        observed: u64::MAX,
                    },
                    poisons: false,
                },
            )
        } else if logical.len() > limits.maximum_frame_logical_bytes {
            Some(
                Refusal {
                    error: SegmentError::FrameOversized {
                        limit: limits.maximum_frame_logical_bytes,
                        observed: logical.len() as u64,
                    },
                    poisons: true,
                },
            )
        } else if projected > u64::MAX {
            Some(Refusal { error: SegmentError::ArithmeticOverflow, poisons: false })
        } else if projected > limits.maximum_segment_logical_bytes {
            Some(
                Refusal {
                    error: SegmentError::SegmentLogicalBudget {
                        limit: limits.maximum_segment_logical_bytes,
                        observed: projected as u64,
                    },
                    poisons: true,
                },
            )
        } else {
            self.storage_refusal(self.compression.stored(logical))
        }
    }

    /// Why a frame with this stored form is refused, if it is.
    pub open spec fn storage_refusal(self, stored: Option<Seq<u8>>) -> Option<Refusal> {
        let limit = self.limits.maximum_segment_physical_bytes;
        match stored {
            None => Some(Refusal { error: self.compression.failure(), poisons: false }),
            Some(stored) => {
                let physical = closed_len(
                    (self.entries.len() + 1) as int,
                    (self.payload.len() + stored.len()) as int,
                );
                if stored.len() > u32::MAX {
                    Some(
                        Refusal {
                            error: SegmentError::SegmentPhysicalBudget {
                                limit,
                                observed: u64::MAX,
                            },
                            poisons: false,
                        },
                    )
                } else if physical > u64::MAX {
                    Some(Refusal { error: SegmentError::ArithmeticOverflow, poisons: false })
                } else if physical > limit {
                    Some(
                        Refusal {
                            error: SegmentError::SegmentPhysicalBudget {
                                limit,
                                observed: physical as u64,
                            },
                            poisons: true,
                        },
                    )
                } else {
                    None
                }
            },
        }
    }

    /// The seek entry of an accepted frame.
    pub open spec fn next_entry(
        self,
        frame: FrameFacts,
        logical: Seq<u8>,
        stored: Seq<u8>,
    ) -> DirectoryEntry {
        DirectoryEntry {
            block_number: frame.block.number,
            payload_offset: (HEADER_BYTES + self.payload.len()) as u64,
            stored_len: stored.len() as u32,
            logical_len: logical.len() as u32,
            block_hash: frame.block.hash,
            parent_hash: frame.block.parent_hash,
            stored_checksum: blake3_digest(stored),
        }
    }

    /// The writer after it accepted a frame.
    pub open spec fn after(
        self,
        frame: FrameFacts,
        logical: Seq<u8>,
        stored: Seq<u8>,
    ) -> WriterView {
        WriterView {
            entries: self.entries.push(self.next_entry(frame, logical, stored)),
            payload: self.payload + stored,
            records: self.records.push(logical),
            ..self
        }
    }

    /// Why the segment cannot be closed with a seek index of this length.
    pub open spec fn close_refusal(self, index_len: int) -> Option<SegmentError> {
        if self.failed {
            Some(SegmentError::WriterPoisoned)
        } else if self.entries.len() != self.descriptor.range.spec_len() {
            Some(
                SegmentError::IncompleteRange {
                    expected: self.descriptor.range.spec_len(),
                    actual: self.entries.len() as u64,
                },
            )
        } else if index_len != self.entries.len() * DIRECTORY_ENTRY_BYTES {
            Some(
                SegmentError::IndexLength {
                    expected: (self.entries.len() * DIRECTORY_ENTRY_BYTES) as u64,
                    actual: index_len as u64,
                },
            )
        } else {
            None
        }
    }
}

/// The facts of a closed segment with these records.
pub open spec fn written_facts(
    descriptor: SegmentDescriptor,
    compression: Compression,
    entries: Seq<DirectoryEntry>,
    payload: Seq<u8>,
) -> SegmentFacts {
    SegmentFacts {
        descriptor,
        compression,
        logical_bytes: logical_total(entries) as u64,
        physical_bytes: closed_len(entries.len() as int, payload.len() as int) as u64,
        first_parent_hash: entries[0].parent_hash,
        last_hash: entries.last().block_hash,
        ordered_hash_digest: blake3_digest(hash_chain(entries)),
        records_checksum: blake3_digest(payload),
        content_checksum: blake3_digest(content_bytes(descriptor, compression, entries, payload)),
    }
}

/// What a closed file holds whose directory is `index`.
pub open spec fn closed_facts(view: WriterView, index: Seq<u8>) -> SegmentFacts {
    SegmentFacts {
        content_checksum: blake3_digest(
            header_bytes(view.descriptor, view.compression) + view.payload + (directory_magic()
                + be64(view.entries.len() as u64) + index + summary_bytes(
                view.entries,
                view.payload,
            )),
        ),
        ..written_facts(view.descriptor, view.compression, view.entries, view.payload)
    }
}

/// The bytes of one accepted frame, for the two temporary files.
#[derive(Debug)]
pub struct AppendedRecord {
    pub stored: Vec<u8>,
    pub entry: Vec<u8>,
}

/// The bytes that close a file, and what it then holds.
#[derive(Debug)]
pub struct ClosedSegment {
    pub closing: Vec<u8>,
    pub metadata: SegmentMetadata,
}

/// Streaming writer for one exact contiguous finalized range. It hands out
/// the bytes of each file part and keeps only digests and totals itself.
pub struct SegmentWriter {
    id: SegmentId,
    descriptor: SegmentDescriptor,
    compression: Compression,
    limits: SegmentLimits,
    content_hasher: blake3::Hasher,
    records_hasher: blake3::Hasher,
    ordered_hash_hasher: blake3::Hasher,
    count: u64,
    logical_bytes: u64,
    stored_bytes: u64,
    first_parent_hash: Option<BlockHash>,
    last_hash: Option<BlockHash>,
    failed: bool,
    entries: Ghost<Seq<DirectoryEntry>>,
    payload: Ghost<Seq<u8>>,
    records: Ghost<Seq<Seq<u8>>>,
}

impl View for SegmentWriter {
    type V = WriterView;

    closed spec fn view(&self) -> WriterView {
        WriterView {
            id: self.id@,
            descriptor: self.descriptor,
            compression: self.compression,
            limits: self.limits,
            entries: self.entries@,
            payload: self.payload@,
            records: self.records@,
            failed: self.failed,
        }
    }
}

/// Appending an accepted frame keeps the writer's invariant.
proof fn lemma_after_wf(
    view: WriterView,
    frame: FrameFacts,
    logical: Seq<u8>,
    stored: Seq<u8>,
)
    requires
        view.wf(),
        view.refusal(frame, logical) is None,
        view.compression.stored(logical) == Some(stored),
        view.compression.unpacked(stored) == Some(logical),
    ensures
        view.after(frame, logical, stored).wf(),
        stored_total(view.after(frame, logical, stored).entries) == view.payload.len()
            + stored.len(),
        logical_total(view.after(frame, logical, stored).entries) == logical_total(view.entries)
            + logical.len(),
        hash_chain(view.after(frame, logical, stored).entries) == hash_chain(view.entries)
            + frame.block.hash.0@,
{
    let next = view.after(frame, logical, stored);
    let entry = view.next_entry(frame, logical, stored);
    assert(next.entries.drop_last() =~= view.entries);
    assert(next.entries.last() == entry);
    assert(HEADER_BYTES + view.payload.len() <= u64::MAX);
    assert forall|index: int|
        #![trigger next.entries[index]]
        0 <= index < next.entries.len() implies record_matches(
        next.compression,
        next.entries[index],
        next.payload,
        next.records[index],
    ) by {
        if index < view.entries.len() {
            let old_entry = view.entries[index];
            assert(next.entries[index] == old_entry);
            assert(next.records[index] == view.records[index]);
            assert(record_matches(
                view.compression,
                old_entry,
                view.payload,
                view.records[index],
            ));
            assert(stored_record(old_entry, next.payload) =~= stored_record(
                old_entry,
                view.payload,
            ));
        } else {
            assert(next.entries[index] == entry);
            assert(stored_record(entry, next.payload) =~= stored);
        }
    }
}

/// The bytes that close a segment behind its records: the directory with the
/// seek index, the summary, and the trailer with the digest of everything
/// before.
pub open spec fn closing_bytes(view: WriterView, index: Seq<u8>) -> Seq<u8> {
    let opening = header_bytes(view.descriptor, view.compression) + view.payload;
    let body = directory_magic() + be64(view.entries.len() as u64) + index + summary_bytes(
        view.entries,
        view.payload,
    );
    body + trailer_bytes(
        (HEADER_BYTES + view.payload.len()) as u64,
        (DIRECTORY_PREFIX_BYTES + index.len() + FOOTER_SUMMARY_BYTES) as u64,
        blake3_digest(opening + body)@,
    )
}

impl SegmentWriter {
    /// The digests and totals stand for the accepted records.
    pub closed spec fn inv(&self) -> bool {
        &&& self@.wf()
        &&& absorbed(self.content_hasher) == header_bytes(self.descriptor, self.compression)
            + self.payload@
        &&& absorbed(self.records_hasher) == self.payload@
        &&& absorbed(self.ordered_hash_hasher) == hash_chain(self.entries@)
        &&& self.count == self.entries@.len()
        &&& self.stored_bytes == self.payload@.len()
        &&& self.logical_bytes == logical_total(self.entries@)
        &&& self.first_parent_hash == (if self.entries@.len() == 0 {
            None
        } else {
            Some(self.entries@[0].parent_hash)
        })
        &&& self.last_hash == (if self.entries@.len() == 0 {
            None
        } else {
            Some(self.entries@.last().block_hash)
        })
    }

    /// A sound writer has accepted a sound prefix of its segment.
    pub proof fn lemma_wf(&self)
        requires
            self.inv(),
        ensures
            self@.wf(),
    {
    }

    /// Starts a segment. Refuses invalid limits and descriptors.
    pub fn create(
        id: SegmentId,
        descriptor: SegmentDescriptor,
        compression: Compression,
        limits: SegmentLimits,
    ) -> (outcome: Result<SegmentWriter, SegmentError>)
        requires
            descriptor.range.wf(),
            descriptor.present_capabilities.bits & !crate::primitives::CAPABILITY_BITS == 0,
            descriptor.complete_capabilities.bits & !crate::primitives::CAPABILITY_BITS == 0,
        ensures
            match outcome {
                Ok(writer) => {
                    &&& limits.wf()
                    &&& descriptor.problem() is None
                    &&& writer.inv()
                    &&& writer@ == (WriterView {
                        id: id@,
                        descriptor,
                        compression,
                        limits,
                        entries: Seq::empty(),
                        payload: Seq::empty(),
                        records: Seq::empty(),
                        failed: false,
                    })
                },
                Err(error) => if !limits.wf() {
                    error == SegmentError::InvalidLimits
                } else {
                    Some(error) == descriptor.problem()
                },
            },
    {
        limits.validate()?;
        validate_descriptor(&descriptor)?;
        let header: Vec<u8> = encode_header(&descriptor, compression);
        let mut content_hasher = hasher_new();
        hasher_update(&mut content_hasher, header.as_slice());
        let writer = SegmentWriter {
            id,
            descriptor,
            compression,
            limits,
            content_hasher,
            records_hasher: hasher_new(),
            ordered_hash_hasher: hasher_new(),
            count: 0,
            logical_bytes: 0,
            stored_bytes: 0,
            first_parent_hash: None,
            last_hash: None,
            failed: false,
            entries: Ghost(Seq::empty()),
            payload: Ghost(Seq::empty()),
            records: Ghost(Seq::empty()),
        };
        proof {
            assert(absorbed(writer.content_hasher) =~= header_bytes(descriptor, compression)
                + Seq::<u8>::empty());
        }
        Ok(writer)
    }

    pub fn descriptor(&self) -> (descriptor: &SegmentDescriptor)
        ensures
            *descriptor == self@.descriptor,
    {
        &self.descriptor
    }

    /// The bytes that start the file.
    pub fn header(&self) -> (header: Vec<u8>)
        ensures
            header@ == header_bytes(self@.descriptor, self@.compression),
    {
        encode_header(&self.descriptor, self.compression)
    }

    /// Refuses a frame that is not the next one of the segment.
    pub fn validate_frame(&self, frame: &FrameFacts) -> (outcome: Result<(), SegmentError>)
        requires
            self.inv(),
        ensures
            outcome == (match self@.frame_fault(*frame) {
                Some(error) => Err::<(), SegmentError>(error),
                None => Ok(()),
            }),
    {
        if let Some(problem) = frame.shape_problem {
            return Err(SegmentError::InvalidFrame(problem));
        }
        if frame.chain_id != self.descriptor.chain_id {
            return Err(
                SegmentError::ChainMismatch {
                    expected: self.descriptor.chain_id,
                    actual: frame.chain_id,
                },
            );
        }
        if frame.finality != Finality::Finalized {
            return Err(SegmentError::NonFinalized(frame.block.number));
        }
        let expected: u64 = match self.descriptor.range.start.0.checked_add(self.count) {
            Some(expected) => expected,
            None => {
                return Err(SegmentError::ArithmeticOverflow);
            },
        };
        if frame.block.number.0 != expected {
            return Err(
                SegmentError::OutOfOrder {
                    expected: BlockNumber(expected),
                    actual: frame.block.number,
                },
            );
        }
        if frame.block.number.0 > self.descriptor.range.end.0 {
            return Err(
                SegmentError::OutOfOrder {
                    expected: self.descriptor.range.end,
                    actual: frame.block.number,
                },
            );
        }
        if let Some(last_hash) = self.last_hash {
            if frame.block.parent_hash != last_hash {
                return Err(
                    SegmentError::ParentMismatch {
                        block: frame.block.number,
                        expected: last_hash,
                        actual: frame.block.parent_hash,
                    },
                );
            }
        }
        if frame.present != self.descriptor.present_capabilities || frame.complete
            != self.descriptor.complete_capabilities {
            return Err(SegmentError::CapabilityMismatch);
        }
        Ok(())
    }

    /// Appends exactly one frame, given with its encoding. Refuses wrong-chain,
    /// non-finalized, out-of-order, discontinuous, wrong-shape, oversized or
    /// invalid frames.
    pub fn append(&mut self, frame: &FrameFacts, logical: &[u8]) -> (outcome: Result<
        AppendedRecord,
        SegmentError,
    >)
        requires
            old(self).inv(),
        ensures
            final(self).inv(),
            match (outcome, old(self)@.refusal(*frame, logical@)) {
                (Ok(record), None) => {
                    &&& old(self)@.compression.stored(logical@) == Some(record.stored@)
                    &&& record.entry@ == entry_bytes(
                        old(self)@.next_entry(*frame, logical@, record.stored@),
                    )
                    &&& final(self)@ == old(self)@.after(*frame, logical@, record.stored@)
                },
                (Err(error), Some(refusal)) => {
                    &&& error == refusal.error
                    &&& final(self)@ == (WriterView {
                        failed: old(self)@.failed || refusal.poisons,
                        ..old(self)@
                    })
                },
                _ => false,
            },
    {
        if self.failed {
            return Err(SegmentError::WriterPoisoned);
        }
        if let Err(error) = self.validate_frame(frame) {
            self.failed = true;
            return Err(error);
        }
        let limits = self.limits;
        if logical.len() as u64 > u32::MAX as u64 {
            return Err(
                SegmentError::FrameOversized {
                    limit: limits.maximum_frame_logical_bytes,
                    observed: u64::MAX,
                },
            );
        }
        let logical_len: u32 = logical.len() as u32;
        if logical_len as u64 > limits.maximum_frame_logical_bytes {
            self.failed = true;
            return Err(
                SegmentError::FrameOversized {
                    limit: limits.maximum_frame_logical_bytes,
                    observed: logical_len as u64,
                },
            );
        }
        let projected_logical: u64 = match self.logical_bytes.checked_add(logical_len as u64) {
            Some(projected) => projected,
            None => {
                return Err(SegmentError::ArithmeticOverflow);
            },
        };
        if projected_logical > limits.maximum_segment_logical_bytes {
            self.failed = true;
            return Err(
                SegmentError::SegmentLogicalBudget {
                    limit: limits.maximum_segment_logical_bytes,
                    observed: projected_logical,
                },
            );
        }
        let stored: Vec<u8> = self.compression.encode(logical)?;
        if stored.len() as u64 > u32::MAX as u64 {
            return Err(
                SegmentError::SegmentPhysicalBudget {
                    limit: limits.maximum_segment_physical_bytes,
                    observed: u64::MAX,
                },
            );
        }
        let stored_len: u32 = stored.len() as u32;
        let projected_stored: u64 = match self.stored_bytes.checked_add(stored_len as u64) {
            Some(projected) => projected,
            None => {
                return Err(SegmentError::ArithmeticOverflow);
            },
        };
        let projected_count: u64 = match self.count.checked_add(1) {
            Some(projected) => projected,
            None => {
                return Err(SegmentError::ArithmeticOverflow);
            },
        };
        let projected_physical: u64 = closed_file_len(projected_count, projected_stored)?;
        if projected_physical > limits.maximum_segment_physical_bytes {
            self.failed = true;
            return Err(
                SegmentError::SegmentPhysicalBudget {
                    limit: limits.maximum_segment_physical_bytes,
                    observed: projected_physical,
                },
            );
        }
        let entry = DirectoryEntry {
            block_number: frame.block.number,
            payload_offset: HEADER_BYTES + self.stored_bytes,
            stored_len,
            logical_len,
            block_hash: frame.block.hash,
            parent_hash: frame.block.parent_hash,
            stored_checksum: blake3_hash(stored.as_slice()),
        };
        proof {
            lemma_after_wf(self@, *frame, logical@, stored@);
            assert(entry == self@.next_entry(*frame, logical@, stored@));
            assert(header_bytes(self.descriptor, self.compression) + self.payload@ + stored@
                =~= header_bytes(self.descriptor, self.compression) + (self.payload@ + stored@));
        }
        hasher_update(&mut self.content_hasher, stored.as_slice());
        hasher_update(&mut self.records_hasher, stored.as_slice());
        hasher_update(&mut self.ordered_hash_hasher, &frame.block.hash.0);
        if self.first_parent_hash.is_none() {
            self.first_parent_hash = Some(frame.block.parent_hash);
        }
        self.last_hash = Some(frame.block.hash);
        self.count = projected_count;
        self.logical_bytes = projected_logical;
        self.stored_bytes = projected_stored;
        self.entries = Ghost(self.entries@.push(entry));
        self.payload = Ghost(self.payload@ + stored@);
        self.records = Ghost(self.records@.push(logical@));
        let encoded: Vec<u8> = entry.encode();
        Ok(AppendedRecord { stored, entry: encoded })
    }

    /// Closes the segment, given the seek index that the appends handed out.
    /// Fails when the exact range was not written.
    pub fn finish(self, index: &[u8]) -> (outcome: Result<ClosedSegment, SegmentError>)
        requires
            self.inv(),
        ensures
            match (outcome, self@.close_refusal(index@.len() as int)) {
                (Ok(closed), None) => {
                    let view = self@;
                    let opening = header_bytes(view.descriptor, view.compression) + view.payload;
                    &&& closed.closing@ == closing_bytes(view, index@)
                    &&& closed.metadata.id@ == view.id
                    &&& closed.metadata.facts() == closed_facts(view, index@)
                    &&& index@ == directory_bytes(view.entries) ==> {
                        &&& opening + closed.closing@ == segment_file(
                            view.descriptor,
                            view.compression,
                            view.entries,
                            view.payload,
                        )
                        &&& closed.metadata.facts() == written_facts(
                            view.descriptor,
                            view.compression,
                            view.entries,
                            view.payload,
                        )
                    }
                },
                (Err(error), Some(expected)) => error == expected,
                _ => false,
            },
    {
        if self.failed {
            return Err(SegmentError::WriterPoisoned);
        }
        let expected_count: u64 = self.descriptor.range.len();
        if self.count != expected_count {
            return Err(
                SegmentError::IncompleteRange { expected: expected_count, actual: self.count },
            );
        }
        proof {
            assert(self.entries@.len() > 0);
        }
        let expected_index_len: u64 = self.count * DIRECTORY_ENTRY_BYTES;
        if index.len() as u64 != expected_index_len {
            return Err(
                SegmentError::IndexLength {
                    expected: expected_index_len,
                    actual: index.len() as u64,
                },
            );
        }
        let (first_parent_hash, last_hash) = match (self.first_parent_hash, self.last_hash) {
            (Some(first), Some(last)) => (first, last),
            _ => {
                return Err(
                    SegmentError::IncompleteRange { expected: expected_count, actual: 0 },
                );
            },
        };
        let ordered_hash_digest: [u8; 32] = hasher_finalize(&self.ordered_hash_hasher);
        let records_checksum: [u8; 32] = hasher_finalize(&self.records_hasher);
        let mut closing: Vec<u8> = Vec::new();
        push_bytes(&mut closing, &directory_magic_bytes());
        push_u64(&mut closing, self.count);
        push_bytes(&mut closing, index);
        push_bytes(&mut closing, &first_parent_hash.0);
        push_bytes(&mut closing, &last_hash.0);
        push_bytes(&mut closing, &ordered_hash_digest);
        push_bytes(&mut closing, &records_checksum);
        let ghost view = self@;
        let ghost opening = header_bytes(view.descriptor, view.compression) + view.payload;
        let ghost body = directory_magic() + be64(view.entries.len() as u64) + index@
            + summary_bytes(view.entries, view.payload);
        assert(closing@ =~= body);
        let mut content_hasher = self.content_hasher;
        hasher_update(&mut content_hasher, closing.as_slice());
        let content_checksum: [u8; 32] = hasher_finalize(&content_hasher);
        let directory_offset: u64 = HEADER_BYTES + self.stored_bytes;
        let directory_len: u64 = DIRECTORY_PREFIX_BYTES + expected_index_len
            + FOOTER_SUMMARY_BYTES;
        push_u64(&mut closing, directory_offset);
        push_u64(&mut closing, directory_len);
        push_bytes(&mut closing, &content_checksum);
        push_bytes(&mut closing, &trailer_magic_bytes());
        proof {
            assert(closing@ =~= body + trailer_bytes(
                directory_offset,
                directory_len,
                content_checksum@,
            ));
            if index@ == directory_bytes(view.entries) {
                assert(body =~= closing_content(view.entries, view.payload));
                assert(opening + body =~= content_bytes(
                    view.descriptor,
                    view.compression,
                    view.entries,
                    view.payload,
                ));
                assert(opening + closing@ =~= segment_file(
                    view.descriptor,
                    view.compression,
                    view.entries,
                    view.payload,
                ));
            }
        }
        let physical_bytes: u64 = closed_file_len(self.count, self.stored_bytes)?;
        let metadata = SegmentMetadata {
            id: self.id,
            descriptor: self.descriptor,
            compression: self.compression,
            logical_bytes: self.logical_bytes,
            physical_bytes,
            first_parent_hash,
            last_hash,
            ordered_hash_digest,
            records_checksum,
            content_checksum,
        };
        Ok(ClosedSegment { closing, metadata })
    }
}

} // verus!
