//! Bounded writing and full verification of artifact segments.

use crate::artifacts::segment::{
    directory_bytes, directory_magic, directory_magic_bytes, entry_bytes, header_bytes,
    header_magic_bytes, law_artifact_entry_round_trip, record_stream, records_total,
    trailer_magic_bytes, trailer_prefix, ArtifactCompression, ArtifactEntry,
    ArtifactSegmentDescriptor, ArtifactSegmentError, ArtifactSegmentLimits,
    ArtifactSegmentMetadata, DeltaFacts, DescriptorView, MetadataView, ProcessorContract,
    DIRECTORY_ENTRY_BYTES, DIRECTORY_PREFIX_BYTES, FORMAT_VERSION, HEADER_PREFIX_BYTES,
    TRAILER_BYTES,
};
use crate::bytes::{be64, push_bytes, push_u16, push_u32, push_u64, same_array};
use crate::digest::{absorbed, blake3_digest, hasher_finalize, hasher_new, hasher_update};
use crate::primitives::{BlockHash, BlockNumber, BlockRange, ChainId};
use vstd::prelude::*;

verus! {

/// A sum capped at the largest `u64`.
pub open spec fn sat(value: int) -> u64 {
    if value > u64::MAX {
        u64::MAX
    } else {
        value as u64
    }
}

/// Everything an artifact writer stands for.
pub struct ArtifactWriterView {
    pub descriptor: DescriptorView,
    pub descriptor_bytes: Seq<u8>,
    pub compression: ArtifactCompression,
    pub limits: ArtifactSegmentLimits,
    pub entries: Seq<ArtifactEntry>,
    pub payload: Seq<u8>,
    pub records: Seq<Seq<u8>>,
}

/// Bytes that the records of `entries` store.
pub open spec fn stored_total(entries: Seq<ArtifactEntry>) -> int
    decreases entries.len(),
{
    if entries.len() == 0 {
        0
    } else {
        stored_total(entries.drop_last()) + entries.last().stored_bytes
    }
}

/// Entries that number the blocks from `start` on and point at records that
/// follow each other from `base` on.
pub open spec fn placed(entries: Seq<ArtifactEntry>, start: u64, base: int) -> bool
    decreases entries.len(),
{
    entries.len() == 0 || {
        let before = entries.drop_last();
        &&& placed(before, start, base)
        &&& entries.last().block_number.0 == sat(start + before.len())
        &&& entries.last().offset == sat(base + stored_total(before))
    }
}

/// The stored bytes that an entry points at.
pub open spec fn stored_record(entry: ArtifactEntry, payload: Seq<u8>, base: int) -> Seq<u8> {
    payload.subrange(entry.offset - base, entry.offset - base + entry.stored_bytes)
}

/// An entry points at the stored form of its record.
pub open spec fn record_matches(
    compression: ArtifactCompression,
    entry: ArtifactEntry,
    payload: Seq<u8>,
    base: int,
    record: Seq<u8>,
) -> bool {
    &&& base <= entry.offset
    &&& entry.offset + entry.stored_bytes <= base + payload.len()
    &&& compression.unpacked(stored_record(entry, payload, base)) == Some(record)
    &&& entry.logical_bytes == record.len()
}

/// Every entry points at the stored form of its record.
pub open spec fn records_match(
    compression: ArtifactCompression,
    entries: Seq<ArtifactEntry>,
    payload: Seq<u8>,
    base: int,
    records: Seq<Seq<u8>>,
) -> bool {
    &&& entries.len() == records.len()
    &&& forall|index: int|
        #![trigger entries[index]]
        0 <= index < entries.len() ==> record_matches(
            compression,
            entries[index],
            payload,
            base,
            records[index],
        )
}

impl ArtifactWriterView {
    /// Where the records start.
    pub open spec fn base(self) -> int {
        HEADER_PREFIX_BYTES + self.descriptor_bytes.len()
    }

    /// Where the next record starts.
    pub open spec fn position(self) -> u64 {
        sat(self.base() + self.payload.len())
    }

    /// The block that must come next.
    pub open spec fn next_block(self) -> u64 {
        sat(self.descriptor.range.start.0 + self.entries.len())
    }

    /// What every writer keeps true between appends.
    pub open spec fn wf(self) -> bool {
        &&& self.descriptor.range.wf()
        &&& self.limits.wf()
        &&& self.descriptor_bytes.len() <= u32::MAX
        &&& DescriptorView::parsed(self.descriptor_bytes) == Some(self.descriptor)
        &&& self.entries.len() == self.records.len()
        &&& placed(self.entries, self.descriptor.range.start.0, self.base())
        &&& stored_total(self.entries) == self.payload.len()
        &&& records_total(self.records) <= self.limits.maximum_segment_logical_bytes
        &&& self.base() + self.payload.len() <= u64::MAX ==> records_match(
            self.compression,
            self.entries,
            self.payload,
            self.base(),
            self.records,
        )
    }

    /// Size of the closed file after one more record, capped.
    pub open spec fn projected(self, stored: int) -> u64 {
        sat(
            self.base() + self.payload.len() + stored + DIRECTORY_PREFIX_BYTES + (
            self.entries.len() + 1) * DIRECTORY_ENTRY_BYTES + TRAILER_BYTES,
        )
    }

    /// Why a delta with this encoding is refused, if it is.
    pub open spec fn refusal(self, delta: DeltaFacts, logical: Seq<u8>) -> Option<
        ArtifactSegmentError,
    > {
        let total = records_total(self.records) + logical.len();
        if !delta.valid {
            Some(ArtifactSegmentError::Delta)
        } else if delta.chain_id != self.descriptor.chain_id || delta.block.number.0
            != self.next_block() || !self.descriptor.range.has(delta.block.number.0 as int) {
            Some(
                ArtifactSegmentError::OutOfOrder {
                    expected: BlockNumber(self.next_block()),
                    received: delta.block.number,
                },
            )
        } else if self.entries.len() > 0 && delta.block.parent_hash
            != self.entries.last().block_hash {
            Some(ArtifactSegmentError::ParentLink(delta.block.number))
        } else if logical.len() > self.limits.maximum_artifact_logical_bytes {
            Some(
                ArtifactSegmentError::ArtifactTooLarge {
                    observed: logical.len() as u64,
                    limit: self.limits.maximum_artifact_logical_bytes,
                },
            )
        } else if total > u64::MAX {
            Some(ArtifactSegmentError::Numeric("segment logical bytes"))
        } else if total > self.limits.maximum_segment_logical_bytes {
            Some(
                ArtifactSegmentError::SegmentLogicalLimit {
                    projected: total as u64,
                    limit: self.limits.maximum_segment_logical_bytes,
                },
            )
        } else {
            match self.compression.stored(logical) {
                None => Some(self.compression.failure()),
                Some(stored) => if self.projected(stored.len() as int)
                    > self.limits.maximum_segment_physical_bytes {
                    Some(
                        ArtifactSegmentError::SegmentPhysicalLimit {
                            projected: self.projected(stored.len() as int),
                            limit: self.limits.maximum_segment_physical_bytes,
                        },
                    )
                } else {
                    None
                },
            }
        }
    }

    /// The seek entry of an accepted delta.
    pub open spec fn next_entry(
        self,
        delta: DeltaFacts,
        logical: Seq<u8>,
        stored: Seq<u8>,
    ) -> ArtifactEntry {
        ArtifactEntry {
            block_number: delta.block.number,
            offset: self.position(),
            stored_bytes: stored.len() as u64,
            logical_bytes: logical.len() as u64,
            block_hash: delta.block.hash,
            delta_checksum: delta.checksum,
        }
    }

    /// The writer after it accepted a delta.
    pub open spec fn after(
        self,
        delta: DeltaFacts,
        logical: Seq<u8>,
        stored: Seq<u8>,
    ) -> ArtifactWriterView {
        ArtifactWriterView {
            entries: self.entries.push(self.next_entry(delta, logical, stored)),
            payload: self.payload + stored,
            records: self.records.push(logical),
            ..self
        }
    }

    /// Whether the exact range has been written.
    pub open spec fn complete(self) -> bool {
        sat(self.entries.len() as int) == self.descriptor.range.spec_len()
    }
}

/// The closed file that holds these records.
pub open spec fn artifact_file(view: ArtifactWriterView) -> Seq<u8> {
    let content = artifact_content(view);
    content + blake3_digest(content)@
}

/// Everything of a closed file but the checksum that ends it.
pub open spec fn artifact_content(view: ArtifactWriterView) -> Seq<u8> {
    header_bytes(view.descriptor_bytes, view.compression) + view.payload + (directory_magic()
        + be64(view.entries.len() as u64) + directory_bytes(view.entries) + trailer_prefix(
        view.position(),
        view.entries.len() as u64,
        records_total(view.records) as u64,
        blake3_digest(record_stream(view.records)),
    ))
}

/// What closes a file around a seek directory, before the checksum.
pub open spec fn closing_body(view: ArtifactWriterView, directory: Seq<u8>) -> Seq<u8> {
    let artifacts = sat(view.entries.len() as int);
    directory_magic() + be64(artifacts) + directory + trailer_prefix(
        view.position(),
        artifacts,
        records_total(view.records) as u64,
        blake3_digest(record_stream(view.records)),
    )
}

/// The metadata of a closed file with these records.
pub open spec fn written_metadata(view: ArtifactWriterView) -> MetadataView {
    MetadataView {
        descriptor: view.descriptor,
        compression: view.compression,
        artifacts: view.entries.len() as u64,
        logical_bytes: records_total(view.records) as u64,
        physical_bytes: artifact_file(view).len() as u64,
        records_checksum: blake3_digest(record_stream(view.records)),
        content_checksum: blake3_digest(artifact_content(view)),
    }
}

/// The bytes of one accepted delta, for the two temporary files.
#[derive(Debug)]
pub struct AppendedArtifact {
    pub stored: Vec<u8>,
    pub entry: Vec<u8>,
}

/// The bytes that close a file, and what it then holds.
#[derive(Debug)]
pub struct ClosedArtifacts {
    pub closing: Vec<u8>,
    pub metadata: ArtifactSegmentMetadata,
}

/// Absorbs a record behind its length.
pub(crate) fn hash_record(hasher: &mut blake3::Hasher, bytes: &[u8])
    ensures
        absorbed(*final(hasher)) == absorbed(*old(hasher)) + be64(bytes@.len() as u64) + bytes@,
{
    let mut length: Vec<u8> = Vec::new();
    push_u64(&mut length, bytes.len() as u64);
    assert(length@ =~= be64(bytes@.len() as u64));
    hasher_update(hasher, length.as_slice());
    hasher_update(hasher, bytes);
}

/// Bounded writer for one contiguous immutable artifact segment. It hands out
/// the bytes of each file part and keeps only digests and totals itself.
pub struct ArtifactSegmentWriter {
    descriptor: ArtifactSegmentDescriptor,
    descriptor_bytes: Vec<u8>,
    compression: ArtifactCompression,
    limits: ArtifactSegmentLimits,
    position: u64,
    next_block: BlockNumber,
    previous_hash: Option<BlockHash>,
    artifacts: u64,
    logical_bytes: u64,
    content_hasher: blake3::Hasher,
    records_hasher: blake3::Hasher,
    entries: Ghost<Seq<ArtifactEntry>>,
    payload: Ghost<Seq<u8>>,
    records: Ghost<Seq<Seq<u8>>>,
}

impl View for ArtifactSegmentWriter {
    type V = ArtifactWriterView;

    closed spec fn view(&self) -> ArtifactWriterView {
        ArtifactWriterView {
            descriptor: self.descriptor@,
            descriptor_bytes: self.descriptor_bytes@,
            compression: self.compression,
            limits: self.limits,
            entries: self.entries@,
            payload: self.payload@,
            records: self.records@,
        }
    }
}

/// Appending an accepted delta keeps the writer's invariant.
proof fn lemma_after_wf(
    view: ArtifactWriterView,
    delta: DeltaFacts,
    logical: Seq<u8>,
    stored: Seq<u8>,
)
    requires
        view.wf(),
        view.refusal(delta, logical) is None,
        view.compression.stored(logical) == Some(stored),
        view.compression.unpacked(stored) == Some(logical),
        stored.len() <= u64::MAX,
    ensures
        view.after(delta, logical, stored).wf(),
        records_total(view.after(delta, logical, stored).records) == records_total(view.records)
            + logical.len(),
        record_stream(view.after(delta, logical, stored).records) == record_stream(view.records)
            + be64(logical.len() as u64) + logical,
{
    let next = view.after(delta, logical, stored);
    let entry = view.next_entry(delta, logical, stored);
    assert(next.entries.drop_last() =~= view.entries);
    assert(next.entries.last() == entry);
    assert(next.records.drop_last() =~= view.records);
    assert(next.records.last() == logical);
    if next.base() + next.payload.len() <= u64::MAX {
        assert forall|index: int|
            #![trigger next.entries[index]]
            0 <= index < next.entries.len() implies record_matches(
            next.compression,
            next.entries[index],
            next.payload,
            next.base(),
            next.records[index],
        ) by {
            if index < view.entries.len() {
                let old_entry = view.entries[index];
                assert(next.entries[index] == old_entry);
                assert(next.records[index] == view.records[index]);
                assert(record_matches(
                    view.compression,
                    old_entry,
                    view.payload,
                    view.base(),
                    view.records[index],
                ));
                assert(stored_record(old_entry, next.payload, next.base()) =~= stored_record(
                    old_entry,
                    view.payload,
                    view.base(),
                ));
            } else {
                assert(next.entries[index] == entry);
                assert(stored_record(entry, next.payload, next.base()) =~= stored);
            }
        }
    }
}

impl ArtifactSegmentWriter {
    /// The digests and totals stand for the accepted records.
    pub closed spec fn inv(&self) -> bool {
        &&& self@.wf()
        &&& self.position == self@.position()
        &&& self.next_block.0 == self@.next_block()
        &&& self.artifacts == sat(self.entries@.len() as int)
        &&& self.logical_bytes == records_total(self.records@)
        &&& self.previous_hash == (if self.entries@.len() == 0 {
            None
        } else {
            Some(self.entries@.last().block_hash)
        })
        &&& absorbed(self.content_hasher) == header_bytes(
            self.descriptor_bytes@,
            self.compression,
        ) + self.payload@
        &&& absorbed(self.records_hasher) == record_stream(self.records@)
    }

    /// What a writer holds is sound.
    pub proof fn lemma_inv(&self)
        requires
            self.inv(),
        ensures
            self@.wf(),
    {
    }

    /// Starts a segment. Refuses invalid limits and a descriptor that cannot
    /// be encoded.
    pub fn create(
        processor: &ProcessorContract,
        chain_id: ChainId,
        range: BlockRange,
        compression: ArtifactCompression,
        limits: ArtifactSegmentLimits,
    ) -> (outcome: Result<ArtifactSegmentWriter, ArtifactSegmentError>)
        requires
            range.wf(),
        ensures
            ({
                let descriptor = DescriptorView { contract: processor@, chain_id, range };
                match outcome {
                    Ok(writer) => {
                        &&& limits.wf()
                        &&& writer.inv()
                        &&& descriptor.encoded() == Some(writer@.descriptor_bytes)
                        &&& writer@ == (ArtifactWriterView {
                            descriptor,
                            descriptor_bytes: writer@.descriptor_bytes,
                            compression,
                            limits,
                            entries: Seq::empty(),
                            payload: Seq::empty(),
                            records: Seq::empty(),
                        })
                    },
                    Err(error) => if !limits.wf() {
                        error == ArtifactSegmentError::InvalidLimits
                    } else if descriptor.encoded() is None {
                        error == ArtifactSegmentError::Encoding
                    } else {
                        &&& descriptor.encoded()->0.len() > u32::MAX
                        &&& error == ArtifactSegmentError::Numeric("descriptor bytes")
                    },
                }
            }),
    {
        let limits = limits.validate()?;
        let descriptor = ArtifactSegmentDescriptor::new(processor, chain_id, range);
        let descriptor_bytes: Vec<u8> = descriptor.encode()?;
        if descriptor_bytes.len() as u64 > u32::MAX as u64 {
            return Err(ArtifactSegmentError::Numeric("descriptor bytes"));
        }
        let header: Vec<u8> = encode_header(descriptor_bytes.as_slice(), compression);
        let mut content_hasher = hasher_new();
        hasher_update(&mut content_hasher, header.as_slice());
        let writer = ArtifactSegmentWriter {
            descriptor,
            position: HEADER_PREFIX_BYTES + descriptor_bytes.len() as u64,
            descriptor_bytes,
            compression,
            limits,
            next_block: range.start,
            previous_hash: None,
            artifacts: 0,
            logical_bytes: 0,
            content_hasher,
            records_hasher: hasher_new(),
            entries: Ghost(Seq::empty()),
            payload: Ghost(Seq::empty()),
            records: Ghost(Seq::empty()),
        };
        proof {
            assert(absorbed(writer.content_hasher) =~= header@ + Seq::<u8>::empty());
        }
        Ok(writer)
    }

    /// The bytes that start the file.
    pub fn header(&self) -> (header: Vec<u8>)
        requires
            self.inv(),
        ensures
            header@ == header_bytes(self@.descriptor_bytes, self@.compression),
    {
        encode_header(self.descriptor_bytes.as_slice(), self.compression)
    }

    /// Appends the exact next finalized map artifact, given with its encoding.
    /// Refuses incompatible or corrupt, out-of-order, parent-broken or
    /// oversized artifacts.
    pub fn append(&mut self, delta: &DeltaFacts, logical: &[u8]) -> (outcome: Result<
        AppendedArtifact,
        ArtifactSegmentError,
    >)
        requires
            old(self).inv(),
        ensures
            final(self).inv(),
            match (outcome, old(self)@.refusal(*delta, logical@)) {
                (Ok(record), None) => {
                    &&& old(self)@.compression.stored(logical@) == Some(record.stored@)
                    &&& record.entry@ == entry_bytes(
                        old(self)@.next_entry(*delta, logical@, record.stored@),
                    )
                    &&& final(self)@ == old(self)@.after(*delta, logical@, record.stored@)
                },
                (Err(error), Some(expected)) => {
                    &&& error == expected
                    &&& final(self)@ == old(self)@
                },
                _ => false,
            },
    {
        if !delta.valid {
            return Err(ArtifactSegmentError::Delta);
        }
        if delta.chain_id != self.descriptor.chain_id || delta.block.number != self.next_block
            || !self.descriptor.range.contains(delta.block.number) {
            return Err(
                ArtifactSegmentError::OutOfOrder {
                    expected: self.next_block,
                    received: delta.block.number,
                },
            );
        }
        if let Some(previous) = self.previous_hash {
            if delta.block.parent_hash != previous {
                return Err(ArtifactSegmentError::ParentLink(delta.block.number));
            }
        }
        let logical_bytes: u64 = logical.len() as u64;
        if logical_bytes > self.limits.maximum_artifact_logical_bytes {
            return Err(
                ArtifactSegmentError::ArtifactTooLarge {
                    observed: logical_bytes,
                    limit: self.limits.maximum_artifact_logical_bytes,
                },
            );
        }
        let projected_logical: u64 = match self.logical_bytes.checked_add(logical_bytes) {
            Some(projected) => projected,
            None => {
                return Err(ArtifactSegmentError::Numeric("segment logical bytes"));
            },
        };
        if projected_logical > self.limits.maximum_segment_logical_bytes {
            return Err(
                ArtifactSegmentError::SegmentLogicalLimit {
                    projected: projected_logical,
                    limit: self.limits.maximum_segment_logical_bytes,
                },
            );
        }
        let stored: Vec<u8> = self.compression.encode(logical)?;
        let stored_bytes: u64 = stored.len() as u64;
        let projected_count: u64 = self.artifacts.saturating_add(1);
        let projected_directory: u64 = match projected_count.checked_mul(DIRECTORY_ENTRY_BYTES) {
            Some(bytes) => bytes,
            None => u64::MAX,
        };
        let projected_physical: u64 = self.position.saturating_add(stored_bytes).saturating_add(
            DIRECTORY_PREFIX_BYTES,
        ).saturating_add(projected_directory).saturating_add(TRAILER_BYTES);
        proof {
            assert(projected_physical == self@.projected(stored_bytes as int));
        }
        if projected_physical > self.limits.maximum_segment_physical_bytes {
            return Err(
                ArtifactSegmentError::SegmentPhysicalLimit {
                    projected: projected_physical,
                    limit: self.limits.maximum_segment_physical_bytes,
                },
            );
        }
        let entry = ArtifactEntry {
            block_number: delta.block.number,
            offset: self.position,
            stored_bytes,
            logical_bytes,
            block_hash: delta.block.hash,
            delta_checksum: delta.checksum,
        };
        proof {
            lemma_after_wf(self@, *delta, logical@, stored@);
            assert(entry == self@.next_entry(*delta, logical@, stored@));
            let header = header_bytes(self.descriptor_bytes@, self.compression);
            assert(header + self.payload@ + stored@ =~= header + (self.payload@ + stored@));
        }
        hasher_update(&mut self.content_hasher, stored.as_slice());
        hash_record(&mut self.records_hasher, logical);
        self.position = self.position.saturating_add(stored_bytes);
        self.logical_bytes = projected_logical;
        self.artifacts = projected_count;
        self.previous_hash = Some(delta.block.hash);
        self.next_block = BlockNumber(delta.block.number.0.saturating_add(1));
        self.entries = Ghost(self.entries@.push(entry));
        self.payload = Ghost(self.payload@ + stored@);
        self.records = Ghost(self.records@.push(logical@));
        let encoded: Vec<u8> = entry.encode();
        Ok(AppendedArtifact { stored, entry: encoded })
    }

    /// Closes the segment, given the seek directory that the appends handed
    /// out. Refuses an incomplete range.
    pub fn finish(self, directory: &[u8]) -> (outcome: Result<
        ClosedArtifacts,
        ArtifactSegmentError,
    >)
        requires
            self.inv(),
        ensures
            match outcome {
                Ok(closed) => {
                    let view = self@;
                    let artifacts = sat(view.entries.len() as int);
                    let opening = header_bytes(view.descriptor_bytes, view.compression)
                        + view.payload;
                    let body = closing_body(view, directory@);
                    let checksum = blake3_digest(opening + body);
                    &&& view.complete()
                    &&& closed.closing@ == body + checksum@
                    &&& closed.metadata@ == (MetadataView {
                        artifacts,
                        physical_bytes: sat(
                            view.base() + view.payload.len() + DIRECTORY_PREFIX_BYTES
                                + directory@.len() + TRAILER_BYTES,
                        ),
                        content_checksum: checksum,
                        ..written_metadata(view)
                    })
                    &&& directory@ == directory_bytes(view.entries) && artifact_file(view).len()
                        <= u64::MAX ==> {
                        &&& opening + closed.closing@ == artifact_file(view)
                        &&& closed.metadata@ == written_metadata(view)
                    }
                },
                Err(error) => {
                    &&& !self@.complete()
                    &&& error == (ArtifactSegmentError::Incomplete {
                        expected: self@.descriptor.range.spec_len(),
                        observed: sat(self@.entries.len() as int),
                    })
                },
            },
    {
        let end: u64 = self.descriptor.range.end.0.saturating_add(1);
        if self.artifacts != self.descriptor.range.len() || self.previous_hash.is_none()
            || self.next_block.0 != end {
            return Err(
                ArtifactSegmentError::Incomplete {
                    expected: self.descriptor.range.len(),
                    observed: self.artifacts,
                },
            );
        }
        let records_checksum: [u8; 32] = hasher_finalize(&self.records_hasher);
        let mut closing: Vec<u8> = Vec::new();
        push_bytes(&mut closing, &directory_magic_bytes());
        push_u64(&mut closing, self.artifacts);
        push_bytes(&mut closing, directory);
        push_bytes(&mut closing, &trailer_magic_bytes());
        push_u64(&mut closing, self.position);
        push_u64(&mut closing, self.artifacts);
        push_u64(&mut closing, self.logical_bytes);
        push_u64(&mut closing, 0);
        push_bytes(&mut closing, &records_checksum);
        assert(closing@ =~= closing_body(self@, directory@));
        let mut content_hasher = self.content_hasher;
        hasher_update(&mut content_hasher, closing.as_slice());
        let content_checksum: [u8; 32] = hasher_finalize(&content_hasher);
        push_bytes(&mut closing, &content_checksum);
        let physical_bytes: u64 = self.position.saturating_add(
            DIRECTORY_PREFIX_BYTES,
        ).saturating_add(directory.len() as u64).saturating_add(TRAILER_BYTES);
        proof {
            let view = self@;
            if directory@ == directory_bytes(view.entries) && artifact_file(view).len()
                <= u64::MAX {
                lemma_directory_layout(view.entries);
                let opening = header_bytes(view.descriptor_bytes, view.compression)
                    + view.payload;
                assert(artifact_content(view).len() >= view.entries.len());
                assert(opening + closing_body(view, directory@) =~= artifact_content(view));
                assert(opening + closing@ =~= artifact_file(view));
            }
        }
        let metadata = ArtifactSegmentMetadata {
            descriptor: self.descriptor,
            compression: self.compression,
            artifacts: self.artifacts,
            logical_bytes: self.logical_bytes,
            physical_bytes,
            records_checksum,
            content_checksum,
        };
        Ok(ClosedArtifacts { closing, metadata })
    }
}

/// The directory is 96 bytes per entry, and entry `index` is found there.
pub proof fn lemma_directory_layout(entries: Seq<ArtifactEntry>)
    ensures
        directory_bytes(entries).len() == entries.len() * DIRECTORY_ENTRY_BYTES,
        forall|index: int|
            #![trigger entries[index]]
            0 <= index < entries.len() ==> directory_bytes(entries).subrange(
                index * DIRECTORY_ENTRY_BYTES,
                index * DIRECTORY_ENTRY_BYTES + DIRECTORY_ENTRY_BYTES,
            ) == entry_bytes(entries[index]),
    decreases entries.len(),
{
    if entries.len() > 0 {
        let before = entries.drop_last();
        lemma_directory_layout(before);
        law_artifact_entry_round_trip(entries.last());
        let all = directory_bytes(entries);
        assert(all == directory_bytes(before) + entry_bytes(entries.last()));
        assert forall|index: int|
            #![trigger entries[index]]
            0 <= index < entries.len() implies all.subrange(
            index * DIRECTORY_ENTRY_BYTES,
            index * DIRECTORY_ENTRY_BYTES + DIRECTORY_ENTRY_BYTES,
        ) == entry_bytes(entries[index]) by {
            let from = index * DIRECTORY_ENTRY_BYTES;
            let to = from + DIRECTORY_ENTRY_BYTES;
            if index < before.len() {
                assert(before[index] == entries[index]);
                assert(to <= before.len() * DIRECTORY_ENTRY_BYTES) by (nonlinear_arith)
                    requires
                        index < before.len(),
                        to == index * DIRECTORY_ENTRY_BYTES + DIRECTORY_ENTRY_BYTES,
                        DIRECTORY_ENTRY_BYTES == 96,
                ;
                assert(all.subrange(from, to) =~= directory_bytes(before).subrange(from, to));
            } else {
                assert(all.subrange(from, to) =~= entry_bytes(entries.last()));
            }
        }
    }
}

/// Writes the header of a segment.
fn encode_header(descriptor_bytes: &[u8], compression: ArtifactCompression) -> (header: Vec<u8>)
    requires
        descriptor_bytes.len() <= u32::MAX,
    ensures
        header@ == header_bytes(descriptor_bytes@, compression),
{
    let mut header: Vec<u8> = Vec::new();
    push_bytes(&mut header, &header_magic_bytes());
    push_u16(&mut header, FORMAT_VERSION);
    header.push(compression.byte());
    header.push(0);
    push_u32(&mut header, descriptor_bytes.len() as u32);
    push_bytes(&mut header, descriptor_bytes);
    assert(header@ =~= header_bytes(descriptor_bytes@, compression));
    header
}

/// Full verification of a segment's records, block by block: internal parent
/// links, and the ordered checksum over all of them.
pub struct ArtifactVerifier {
    hasher: blake3::Hasher,
    previous: Option<BlockHash>,
    records: Ghost<Seq<Seq<u8>>>,
}

impl ArtifactVerifier {
    pub closed spec fn inv(&self) -> bool {
        absorbed(self.hasher) == record_stream(self.records@)
    }

    /// The records seen so far.
    pub closed spec fn seen(&self) -> Seq<Seq<u8>> {
        self.records@
    }

    /// The block of the last record.
    pub closed spec fn spec_previous(&self) -> Option<BlockHash> {
        self.previous
    }

    pub fn new() -> (verifier: ArtifactVerifier)
        ensures
            verifier.inv(),
            verifier.seen() == Seq::<Seq<u8>>::empty(),
            verifier.spec_previous() is None,
    {
        ArtifactVerifier { hasher: hasher_new(), previous: None, records: Ghost(Seq::empty()) }
    }

    /// Takes the next delta with its encoding, and refuses one whose parent is
    /// not the block before.
    pub fn step(&mut self, block: BlockNumber, delta: &DeltaFacts, encoded: &[u8]) -> (outcome:
        Result<(), ArtifactSegmentError>)
        requires
            old(self).inv(),
        ensures
            final(self).inv(),
            ({
                let broken = old(self).spec_previous() is Some && delta.block.parent_hash != old(
                    self,
                ).spec_previous()->0;
                match outcome {
                    Ok(_) => {
                        &&& !broken
                        &&& final(self).seen() == old(self).seen().push(encoded@)
                        &&& final(self).spec_previous() == Some(delta.block.hash)
                    },
                    Err(error) => {
                        &&& broken
                        &&& error == ArtifactSegmentError::ParentLink(block)
                        &&& final(self).seen() == old(self).seen()
                        &&& final(self).spec_previous() == old(self).spec_previous()
                    },
                }
            }),
    {
        if let Some(previous) = self.previous {
            if delta.block.parent_hash != previous {
                return Err(ArtifactSegmentError::ParentLink(block));
            }
        }
        hash_record(&mut self.hasher, encoded);
        self.previous = Some(delta.block.hash);
        proof {
            assert(self.records@.push(encoded@).drop_last() =~= self.records@);
        }
        self.records = Ghost(self.records@.push(encoded@));
        Ok(())
    }

    /// Refuses records whose ordered checksum is not the recorded one.
    pub fn finish(&self, records_checksum: &[u8; 32]) -> (outcome: Result<(), ArtifactSegmentError>)
        requires
            self.inv(),
        ensures
            outcome == (if blake3_digest(record_stream(self.seen())) == *records_checksum {
                Ok::<(), ArtifactSegmentError>(())
            } else {
                Err(ArtifactSegmentError::RecordsChecksum)
            }),
    {
        if !same_array(&hasher_finalize(&self.hasher), records_checksum) {
            return Err(ArtifactSegmentError::RecordsChecksum);
        }
        Ok(())
    }
}

} // verus!
