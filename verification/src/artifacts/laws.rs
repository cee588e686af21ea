//! What holds of every artifact segment file, whoever wrote or reads it.

use crate::artifacts::segment::{
    directory_bytes, directory_magic, file_entry, header_bytes, header_magic,
    law_artifact_entry_round_trip, parse_artifact_file, parse_entry, parse_layout, read_artifact,
    record_stream, records_total, trailer_magic, trailer_prefix, ArtifactCompression,
    ArtifactEntry, ArtifactSegmentError, MetadataView, ParsedArtifacts, DIRECTORY_ENTRY_BYTES,
    DIRECTORY_PREFIX_BYTES, FORMAT_VERSION, HEADER_PREFIX_BYTES, TRAILER_BYTES,
};
use crate::artifacts::writer::{
    artifact_content, artifact_file, lemma_directory_layout, placed, record_matches, stored_record,
    written_metadata, ArtifactWriterView,
};
use crate::bytes::{
    be16, be32, be64, lemma_array32, lemma_be16_round_trip, lemma_be32_round_trip,
    lemma_be64_round_trip, lemma_part_of_part,
};
use crate::digest::blake3_digest;
use crate::primitives::BlockNumber;
use vstd::prelude::*;

verus! {

/// Where the parts of a joined artifact file stand.
proof fn lemma_joined(
    prefix: Seq<u8>,
    descriptor: Seq<u8>,
    payload: Seq<u8>,
    magic: Seq<u8>,
    count: Seq<u8>,
    directory: Seq<u8>,
    trailer: Seq<u8>,
    checksum: Seq<u8>,
)
    requires
        prefix.len() == 16,
        magic.len() == 8,
        count.len() == 8,
        trailer.len() == 72,
        checksum.len() == 32,
    ensures
        ({
            let content = (prefix + descriptor) + payload + (magic + count + directory + trailer);
            let file = content + checksum;
            let base: int = 16 + descriptor.len() as int;
            let offset: int = base + payload.len();
            let at: int = offset + 16 + directory.len();
            &&& file.len() == at + 104
            &&& file.subrange(0, 16) == prefix
            &&& file.subrange(16, base) == descriptor
            &&& file.subrange(base, offset) == payload
            &&& file.subrange(offset, offset + 8) == magic
            &&& file.subrange(offset + 8, offset + 16) == count
            &&& file.subrange(offset + 16, at) == directory
            &&& file.subrange(at, at + 104) == trailer + checksum
            &&& file.subrange(0, at + 72) == content
            &&& file.subrange(at + 72, at + 104) == checksum
        }),
{
    let content = (prefix + descriptor) + payload + (magic + count + directory + trailer);
    let file = content + checksum;
    let base: int = 16 + descriptor.len() as int;
    let offset: int = base + payload.len();
    let at: int = offset + 16 + directory.len();
    assert(file.subrange(0, 16) =~= prefix);
    assert(file.subrange(16, base) =~= descriptor);
    assert(file.subrange(base, offset) =~= payload);
    assert(file.subrange(offset, offset + 8) =~= magic);
    assert(file.subrange(offset + 8, offset + 16) =~= count);
    assert(file.subrange(offset + 16, at) =~= directory);
    assert(file.subrange(at, at + 104) =~= trailer + checksum);
    assert(file.subrange(0, at + 72) =~= content);
    assert(file.subrange(at + 72, at + 104) =~= checksum);
}

/// Where the parts of a trailer stand.
proof fn lemma_trailer(
    offset: u64,
    artifacts: u64,
    logical: u64,
    records: [u8; 32],
    content: [u8; 32],
)
    ensures
        ({
            let trailer = trailer_prefix(offset, artifacts, logical, records) + content@;
            &&& trailer_prefix(offset, artifacts, logical, records).len() == 72
            &&& trailer.subrange(0, 8) == trailer_magic()
            &&& trailer.subrange(8, 16) == be64(offset)
            &&& trailer.subrange(16, 24) == be64(artifacts)
            &&& trailer.subrange(24, 32) == be64(logical)
            &&& trailer.subrange(40, 72) == records@
            &&& trailer.subrange(72, 104) == content@
        }),
{
    let trailer = trailer_prefix(offset, artifacts, logical, records) + content@;
    assert(trailer.subrange(0, 8) =~= trailer_magic());
    assert(trailer.subrange(8, 16) =~= be64(offset));
    assert(trailer.subrange(16, 24) =~= be64(artifacts));
    assert(trailer.subrange(24, 32) =~= be64(logical));
    assert(trailer.subrange(40, 72) =~= records@);
    assert(trailer.subrange(72, 104) =~= content@);
}

/// The fixed part of a header.
spec fn header_prefix(length: u32, compression: ArtifactCompression) -> Seq<u8> {
    header_magic() + be16(FORMAT_VERSION) + seq![compression.spec_byte(), 0u8] + be32(length)
}

/// Every part of a closed file stands where the layout says.
spec fn has_parts(file: Seq<u8>, view: ArtifactWriterView, content: Seq<u8>) -> bool {
    let base = view.base();
    let offset = base + view.payload.len();
    let at = offset + DIRECTORY_PREFIX_BYTES + view.entries.len() * DIRECTORY_ENTRY_BYTES;
    let count = view.entries.len() as u64;
    &&& file.len() == at + TRAILER_BYTES
    &&& file.subrange(0, 16) == header_prefix(
        view.descriptor_bytes.len() as u32,
        view.compression,
    )
    &&& file.subrange(16, base) == view.descriptor_bytes
    &&& file.subrange(base, offset) == view.payload
    &&& file.subrange(offset, offset + 8) == directory_magic()
    &&& file.subrange(offset + 8, offset + 16) == be64(count)
    &&& file.subrange(offset + 16, at) == directory_bytes(view.entries)
    &&& file.subrange(at, at + TRAILER_BYTES) == trailer_prefix(
        view.position(),
        count,
        records_total(view.records) as u64,
        blake3_digest(record_stream(view.records)),
    ) + blake3_digest(content)@
    &&& file.subrange(0, at + 72) == content
    &&& file.subrange(at + 72, at + 104) == blake3_digest(content)@
}

proof fn lemma_file_parts(view: ArtifactWriterView)
    ensures
        has_parts(artifact_file(view), view, artifact_content(view)),
        artifact_file(view).len() == view.base() + view.payload.len() + DIRECTORY_PREFIX_BYTES
            + view.entries.len() * DIRECTORY_ENTRY_BYTES + TRAILER_BYTES,
{
    lemma_directory_layout(view.entries);
    let count = view.entries.len() as u64;
    let content = artifact_content(view);
    let records = blake3_digest(record_stream(view.records));
    lemma_trailer(
        view.position(),
        count,
        records_total(view.records) as u64,
        records,
        blake3_digest(content),
    );
    let prefix = header_prefix(view.descriptor_bytes.len() as u32, view.compression);
    assert(header_bytes(view.descriptor_bytes, view.compression) =~= prefix
        + view.descriptor_bytes);
    lemma_joined(
        prefix,
        view.descriptor_bytes,
        view.payload,
        directory_magic(),
        be64(count),
        directory_bytes(view.entries),
        trailer_prefix(view.position(), count, records_total(view.records) as u64, records),
        blake3_digest(content)@,
    );
}

/// Entry `index` of placed entries is the one of block `start + index`.
proof fn lemma_placed_entry(entries: Seq<ArtifactEntry>, start: u64, base: int, index: int)
    requires
        placed(entries, start, base),
        0 <= index < entries.len(),
        start + entries.len() - 1 <= u64::MAX,
    ensures
        entries[index].block_number.0 == start + index,
    decreases entries.len(),
{
    if index < entries.len() - 1 {
        lemma_placed_entry(entries.drop_last(), start, base, index);
    }
}

/// Where one seek entry stands in a file that holds the directory.
proof fn lemma_entry_in_file(file: Seq<u8>, entries: Seq<ArtifactEntry>, from: int, index: int)
    requires
        0 <= from,
        from + entries.len() * DIRECTORY_ENTRY_BYTES <= file.len(),
        file.subrange(from, from + entries.len() * DIRECTORY_ENTRY_BYTES) == directory_bytes(
            entries,
        ),
        0 <= index < entries.len(),
    ensures
        parse_entry(
            file.subrange(
                from + index * DIRECTORY_ENTRY_BYTES,
                from + index * DIRECTORY_ENTRY_BYTES + DIRECTORY_ENTRY_BYTES,
            ),
        ) == entries[index],
        index * DIRECTORY_ENTRY_BYTES + DIRECTORY_ENTRY_BYTES <= entries.len()
            * DIRECTORY_ENTRY_BYTES,
{
    lemma_directory_layout(entries);
    assert(index * DIRECTORY_ENTRY_BYTES + DIRECTORY_ENTRY_BYTES <= entries.len()
        * DIRECTORY_ENTRY_BYTES) by (nonlinear_arith)
        requires
            index < entries.len(),
            DIRECTORY_ENTRY_BYTES == 96,
    ;
    lemma_part_of_part(
        file,
        from,
        from + entries.len() * DIRECTORY_ENTRY_BYTES,
        index * DIRECTORY_ENTRY_BYTES,
        index * DIRECTORY_ENTRY_BYTES + DIRECTORY_ENTRY_BYTES,
    );
    law_artifact_entry_round_trip(entries[index]);
}

/// The seek entries of a closed file are the ones that were written.
proof fn lemma_file_entry(file: Seq<u8>, view: ArtifactWriterView, content: Seq<u8>, index: int)
    requires
        has_parts(file, view, content),
        0 <= index < view.entries.len(),
        view.base() + view.payload.len() <= u64::MAX,
    ensures
        file_entry(file, view.position(), index) == view.entries[index],
        index * DIRECTORY_ENTRY_BYTES + DIRECTORY_ENTRY_BYTES <= view.entries.len()
            * DIRECTORY_ENTRY_BYTES,
{
    let offset = view.base() + view.payload.len();
    lemma_entry_in_file(file, view.entries, offset + DIRECTORY_PREFIX_BYTES, index);
}

/// Which blocks a complete writer has written.
proof fn lemma_complete(view: ArtifactWriterView)
    requires
        view.wf(),
        view.entries.len() == view.descriptor.range.spec_len(),
        view.base() + view.payload.len() + view.entries.len() * DIRECTORY_ENTRY_BYTES <= u64::MAX,
    ensures
        view.entries.len() > 0,
        view.descriptor.range.start.0 + view.entries.len() - 1 == view.descriptor.range.end.0,
{
    if view.descriptor.range.end.0 - view.descriptor.range.start.0 == u64::MAX {
        assert(view.entries.len() * DIRECTORY_ENTRY_BYTES > u64::MAX);
    }
}

#[verifier::rlimit(30)]
proof fn lemma_parts_open(file: Seq<u8>, view: ArtifactWriterView, content: Seq<u8>)
    requires
        view.wf(),
        view.entries.len() == view.descriptor.range.spec_len(),
        has_parts(file, view, content),
        file.len() <= u64::MAX,
    ensures
        parse_artifact_file(file) == Ok::<ParsedArtifacts, ArtifactSegmentError>(
            ParsedArtifacts {
                metadata: MetadataView {
                    physical_bytes: file.len() as u64,
                    content_checksum: blake3_digest(content),
                    ..written_metadata(view)
                },
                directory_offset: view.position(),
                first: view.entries[0],
                last: view.entries.last(),
            },
        ),
{
    lemma_complete(view);
    let size = file.len() as int;
    let count = view.entries.len() as u64;
    let base = view.base();
    let prefix = header_prefix(view.descriptor_bytes.len() as u32, view.compression);
    assert(prefix.subrange(0, 8) =~= header_magic());
    assert(prefix.subrange(8, 10) =~= be16(FORMAT_VERSION));
    assert(prefix.subrange(12, 16) =~= be32(view.descriptor_bytes.len() as u32));
    lemma_part_of_part(file, 0, 16, 0, 8);
    lemma_part_of_part(file, 0, 16, 8, 10);
    lemma_part_of_part(file, 0, 16, 12, 16);
    assert(file[10] == file.subrange(0, 16)[10]);
    lemma_be16_round_trip(FORMAT_VERSION);
    lemma_be32_round_trip(view.descriptor_bytes.len() as u32);
    let records = blake3_digest(record_stream(view.records));
    lemma_trailer(
        view.position(),
        count,
        records_total(view.records) as u64,
        records,
        blake3_digest(content),
    );
    lemma_be64_round_trip(view.position());
    lemma_be64_round_trip(count);
    lemma_be64_round_trip(records_total(view.records) as u64);
    lemma_array32(records);
    lemma_array32(blake3_digest(content));
    lemma_file_entry(file, view, content, 0);
    lemma_file_entry(file, view, content, view.entries.len() - 1);
    lemma_placed_entry(view.entries, view.descriptor.range.start.0, base, 0);
    lemma_placed_entry(
        view.entries,
        view.descriptor.range.start.0,
        base,
        view.entries.len() - 1,
    );
    assert(record_matches(
        view.compression,
        view.entries[0],
        view.payload,
        base,
        view.records[0],
    ));
    assert(record_matches(
        view.compression,
        view.entries[view.entries.len() - 1],
        view.payload,
        base,
        view.records[view.entries.len() - 1],
    ));
    assert(parse_layout(
        file,
        view.descriptor,
        view.compression,
        view.descriptor_bytes.len() as int,
    ) is Ok);
}

/// The lengths of records add up to no less than nothing.
proof fn lemma_records_total(records: Seq<Seq<u8>>)
    ensures
        0 <= records_total(records),
    decreases records.len(),
{
    if records.len() > 0 {
        lemma_records_total(records.drop_last());
    }
}

/// Opening a written segment gives back its metadata: whatever records a
/// writer closed over its exact range, the reader accepts the file, reports
/// the same descriptor, counts, sizes and checksums, and finds the first and
/// last entry of the directory.
pub proof fn law_written_artifacts_open(view: ArtifactWriterView)
    requires
        view.wf(),
        view.entries.len() == view.descriptor.range.spec_len(),
        artifact_file(view).len() <= u64::MAX,
    ensures
        parse_artifact_file(artifact_file(view)) == Ok::<ParsedArtifacts, ArtifactSegmentError>(
            ParsedArtifacts {
                metadata: written_metadata(view),
                directory_offset: view.position(),
                first: view.entries[0],
                last: view.entries.last(),
            },
        ),
{
    lemma_records_total(view.records);
    lemma_file_parts(view);
    lemma_parts_open(artifact_file(view), view, artifact_content(view));
}

proof fn lemma_parts_read(
    file: Seq<u8>,
    view: ArtifactWriterView,
    content: Seq<u8>,
    metadata: MetadataView,
    block: BlockNumber,
)
    requires
        view.wf(),
        view.entries.len() == view.descriptor.range.spec_len(),
        has_parts(file, view, content),
        file.len() <= usize::MAX,
        metadata.descriptor == view.descriptor,
        metadata.compression == view.compression,
        metadata.artifacts == view.entries.len(),
        view.descriptor.range.has(block.0 as int),
        view.records[block.0 - view.descriptor.range.start.0].len() <= usize::MAX,
    ensures
        ({
            let index = block.0 - view.descriptor.range.start.0;
            read_artifact(metadata, view.position(), file, block) == Ok::<
                (ArtifactEntry, Seq<u8>),
                ArtifactSegmentError,
            >((view.entries[index], view.records[index]))
        }),
{
    lemma_complete(view);
    let index = block.0 - view.descriptor.range.start.0;
    let base = view.base();
    let entry = view.entries[index];
    lemma_file_entry(file, view, content, index);
    lemma_placed_entry(view.entries, view.descriptor.range.start.0, base, index);
    assert(record_matches(view.compression, entry, view.payload, base, view.records[index]));
    lemma_part_of_part(
        file,
        base,
        base + view.payload.len(),
        entry.offset - base,
        entry.offset - base + entry.stored_bytes,
    );
    assert(file.subrange(entry.offset as int, entry.offset + entry.stored_bytes) == stored_record(
        entry,
        view.payload,
        base,
    ));
}

/// A read gives back what a write wrote: seeking any block of a written
/// segment yields its seek entry and the very bytes that were appended.
pub proof fn law_written_artifact_reads_back(view: ArtifactWriterView, block: BlockNumber)
    requires
        view.wf(),
        view.entries.len() == view.descriptor.range.spec_len(),
        artifact_file(view).len() <= usize::MAX,
        view.descriptor.range.has(block.0 as int),
        view.records[block.0 - view.descriptor.range.start.0].len() <= usize::MAX,
    ensures
        ({
            let index = block.0 - view.descriptor.range.start.0;
            read_artifact(written_metadata(view), view.position(), artifact_file(view), block)
                == Ok::<(ArtifactEntry, Seq<u8>), ArtifactSegmentError>(
                (view.entries[index], view.records[index]),
            )
        }),
{
    lemma_file_parts(view);
    lemma_parts_read(
        artifact_file(view),
        view,
        artifact_content(view),
        written_metadata(view),
        block,
    );
}

/// Opening fails closed: a file is accepted only if it ends in the digest of
/// everything before, covers the exact range of its descriptor, and its
/// records lie between header and directory.
pub proof fn law_artifact_open_fails_closed(file: Seq<u8>)
    requires
        parse_artifact_file(file) is Ok,
    ensures
        ({
            let parsed = parse_artifact_file(file)->Ok_0;
            &&& parsed.metadata.content_checksum@ == blake3_digest(
                file.subrange(0, file.len() - 32),
            )@
            &&& parsed.metadata.artifacts == parsed.metadata.descriptor.range.spec_len()
            &&& parsed.metadata.artifacts > 0
            &&& parsed.metadata.physical_bytes == file.len()
            &&& parsed.first.block_number == parsed.metadata.descriptor.range.start
            &&& parsed.last.block_number == parsed.metadata.descriptor.range.end
            &&& HEADER_PREFIX_BYTES <= parsed.first.offset
            &&& parsed.last.offset + parsed.last.stored_bytes <= parsed.directory_offset
        }),
{
    let size = file.len() as int;
    let digest = blake3_digest(file.subrange(0, size - 32));
    lemma_part_of_part(file, size - TRAILER_BYTES, size, 72, 104);
    assert(file.subrange(size - TRAILER_BYTES, size).subrange(72, 104) == digest@);
    lemma_array32(digest);
}

/// A file that opens ends in the digest of everything before.
proof fn lemma_ends_in_digest(file: Seq<u8>)
    requires
        parse_artifact_file(file) is Ok,
    ensures
        TRAILER_BYTES <= file.len(),
        file.subrange(file.len() - 32, file.len() as int) == blake3_digest(
            file.subrange(0, file.len() - 32),
        )@,
{
    let size = file.len() as int;
    lemma_part_of_part(file, size - TRAILER_BYTES, size, 72, 104);
    assert(file.subrange(size - TRAILER_BYTES, size).subrange(72, 104) == blake3_digest(
        file.subrange(0, size - 32),
    )@);
}

/// An artifact file in which one byte was altered is refused, whichever byte it
/// is, on the ground that the digest of altered content is another.
pub proof fn law_altered_artifact_is_refused(file: Seq<u8>, at: int, byte: u8)
    requires
        parse_artifact_file(file) is Ok,
        0 <= at < file.len(),
        byte != file[at],
        at < file.len() - 32 ==> blake3_digest(
            file.update(at, byte).subrange(0, file.len() - 32),
        )@ != blake3_digest(file.subrange(0, file.len() - 32))@,
    ensures
        parse_artifact_file(file.update(at, byte)) is Err,
{
    let altered = file.update(at, byte);
    let size = file.len() as int;
    lemma_ends_in_digest(file);
    if parse_artifact_file(altered) is Ok {
        lemma_ends_in_digest(altered);
        if at < size - 32 {
            assert(altered.subrange(size - 32, size) =~= file.subrange(size - 32, size));
        } else {
            assert(altered.subrange(0, size - 32) =~= file.subrange(0, size - 32));
            assert(altered.subrange(size - 32, size)[at - (size - 32)] == byte);
            assert(file.subrange(size - 32, size)[at - (size - 32)] == file[at]);
        }
    }
}

/// An artifact file that was cut is refused, on the ground that it does not
/// end in the digest of what is left before.
pub proof fn law_cut_artifact_is_refused(file: Seq<u8>, size: int)
    requires
        parse_artifact_file(file) is Ok,
        0 <= size < file.len(),
        32 <= size ==> blake3_digest(file.subrange(0, size - 32))@ != file.subrange(
            size - 32,
            size,
        ),
    ensures
        parse_artifact_file(file.take(size)) is Err,
{
    let cut = file.take(size);
    if parse_artifact_file(cut) is Ok {
        lemma_ends_in_digest(cut);
        assert(cut.subrange(0, size - 32) =~= file.subrange(0, size - 32));
        assert(cut.subrange(size - 32, size) =~= file.subrange(size - 32, size));
    }
}

} // verus!
