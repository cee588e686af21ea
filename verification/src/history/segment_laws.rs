//! What holds of every segment file, whoever wrote or reads it.

use crate::bytes::{
    be64, from_be64, lemma_array32, lemma_be64_of_bytes, lemma_be64_round_trip, lemma_joined_four, lemma_part_of_part,
};
use crate::digest::blake3_digest;
use crate::history::layout::{
    closed_len, directory_magic, entry_bytes, header_bytes, law_entry_round_trip,
    law_header_round_trip, parse_entry, trailer_magic, Compression, DirectoryEntry,
    SegmentDescriptor, SegmentError, DIRECTORY_ENTRY_BYTES, DIRECTORY_PREFIX_BYTES,
    FOOTER_SUMMARY_BYTES, HEADER_BYTES, TRAILER_BYTES,
};
use crate::history::segment::{
    content_bytes, directory_bytes, file_entries, file_entry, hash_chain, linked, logical_total,
    parse_directory, parse_segment_file, parse_summary, read_record, record_matches, records_area,
    records_match, scan_directory, segment_file, shortest_file, stored_record, stored_total, summary_bytes,
    trailer_bytes, written_facts, DirectoryScan, SegmentFacts,
};
use crate::primitives::BlockNumber;
use vstd::prelude::*;

verus! {

/// The directory is 120 bytes per entry, and entry `index` is found there.
proof fn lemma_directory_layout(entries: Seq<DirectoryEntry>)
    ensures
        directory_bytes(entries).len() == entries.len() * DIRECTORY_ENTRY_BYTES,
        forall|index: int|
            #![trigger entries[index]]
            0 <= index < entries.len() ==> directory_bytes(entries).subrange(
                index * DIRECTORY_ENTRY_BYTES,
                index * DIRECTORY_ENTRY_BYTES + DIRECTORY_ENTRY_BYTES,
            ) == entry_bytes(entries[index]),
    decreases entries.len(),
{
    if entries.len() > 0 {
        let before = entries.drop_last();
        lemma_directory_layout(before);
        law_entry_round_trip(entries.last());
        let all = directory_bytes(entries);
        assert(all == directory_bytes(before) + entry_bytes(entries.last()));
        assert forall|index: int|
            #![trigger entries[index]]
            0 <= index < entries.len() implies all.subrange(
            index * DIRECTORY_ENTRY_BYTES,
            index * DIRECTORY_ENTRY_BYTES + DIRECTORY_ENTRY_BYTES,
        ) == entry_bytes(entries[index]) by {
            let from = index * DIRECTORY_ENTRY_BYTES;
            let to = from + DIRECTORY_ENTRY_BYTES;
            if index < before.len() {
                assert(before[index] == entries[index]);
                assert(to <= before.len() * DIRECTORY_ENTRY_BYTES) by (nonlinear_arith)
                    requires
                        index < before.len(),
                        to == index * DIRECTORY_ENTRY_BYTES + DIRECTORY_ENTRY_BYTES,
                        DIRECTORY_ENTRY_BYTES == 120,
                ;
                assert(all.subrange(from, to) =~= directory_bytes(before).subrange(from, to));
            } else {
                assert(all.subrange(from, to) =~= entry_bytes(entries.last()));
            }
        }
    }
}

/// A scan of linked entries that end before the directory finds no fault.
proof fn lemma_linked_scans(entries: Seq<DirectoryEntry>, start: u64, directory_offset: u64)
    requires
        linked(entries, start),
        HEADER_BYTES + stored_total(entries) <= directory_offset,
        logical_total(entries) <= u64::MAX,
    ensures
        scan_directory(entries, start, directory_offset) == Ok::<DirectoryScan, SegmentError>(
            DirectoryScan {
                logical: logical_total(entries) as u64,
                stored: stored_total(entries) as u64,
                first_parent: if entries.len() == 0 {
                    None
                } else {
                    Some(entries[0].parent_hash)
                },
                last_hash: if entries.len() == 0 {
                    None
                } else {
                    Some(entries.last().block_hash)
                },
            },
        ),
        0 <= stored_total(entries),
        0 <= logical_total(entries),
    decreases entries.len(),
{
    if entries.len() > 0 {
        lemma_linked_scans(entries.drop_last(), start, directory_offset);
    }
}

/// Where the parts of six joined sequences and a tail stand.
proof fn lemma_joined(
    header: Seq<u8>,
    payload: Seq<u8>,
    magic: Seq<u8>,
    count: Seq<u8>,
    directory: Seq<u8>,
    summary: Seq<u8>,
    trailer: Seq<u8>,
)
    requires
        header.len() == 80,
        magic.len() == 8,
        count.len() == 8,
        summary.len() == 128,
        trailer.len() == 56,
    ensures
        ({
            let content = header + payload + (magic + count + directory + summary);
            let file = content + trailer;
            let offset: int = 80 + payload.len() as int;
            let at: int = offset + 16 + directory.len();
            &&& content.len() == at + 128
            &&& file.len() == at + 128 + 56
            &&& file.subrange(0, 80) == header
            &&& file.subrange(80, offset) == payload
            &&& file.subrange(offset, offset + 8) == magic
            &&& file.subrange(offset + 8, offset + 16) == count
            &&& file.subrange(offset + 16, at) == directory
            &&& file.subrange(at, at + 128) == summary
            &&& file.subrange(0, at + 128) == content
            &&& file.subrange(at + 128, at + 184) == trailer
        }),
{
    let content = header + payload + (magic + count + directory + summary);
    let file = content + trailer;
    let offset: int = 80 + payload.len() as int;
    let at: int = offset + 16 + directory.len();
    assert(file.subrange(0, 80) =~= header);
    assert(file.subrange(80, offset) =~= payload);
    assert(file.subrange(offset, offset + 8) =~= magic);
    assert(file.subrange(offset + 8, offset + 16) =~= count);
    assert(file.subrange(offset + 16, at) =~= directory);
    assert(file.subrange(at, at + 128) =~= summary);
    assert(file.subrange(0, at + 128) =~= content);
    assert(file.subrange(at + 128, at + 184) =~= trailer);
}

/// Every part of a closed file stands where the layout says.
spec fn has_parts(
    file: Seq<u8>,
    descriptor: SegmentDescriptor,
    compression: Compression,
    entries: Seq<DirectoryEntry>,
    payload: Seq<u8>,
    content: Seq<u8>,
) -> bool {
    let offset = HEADER_BYTES + payload.len();
    let at = offset + DIRECTORY_PREFIX_BYTES + entries.len() * DIRECTORY_ENTRY_BYTES;
    let trailer = file.subrange(file.len() - TRAILER_BYTES, file.len() as int);
    let length = DIRECTORY_PREFIX_BYTES + entries.len() * DIRECTORY_ENTRY_BYTES
        + FOOTER_SUMMARY_BYTES;
    &&& file.len() == closed_len(entries.len() as int, payload.len() as int)
    &&& file.subrange(0, 80) == header_bytes(descriptor, compression)
    &&& file.subrange(80, offset) == payload
    &&& file.subrange(offset, offset + 8) == directory_magic()
    &&& file.subrange(offset + 8, offset + 16) == be64(entries.len() as u64)
    &&& file.subrange(offset + 16, at) == directory_bytes(entries)
    &&& file.subrange(at, at + 32) == entries[0].parent_hash.0@
    &&& file.subrange(at + 32, at + 64) == entries.last().block_hash.0@
    &&& file.subrange(at + 64, at + 96) == blake3_digest(hash_chain(entries))@
    &&& file.subrange(at + 96, at + 128) == blake3_digest(payload)@
    &&& file.subrange(0, at + 128) == content
    &&& trailer.subrange(0, 8) == be64(offset as u64)
    &&& trailer.subrange(8, 16) == be64(length as u64)
    &&& trailer.subrange(16, 48) == blake3_digest(content)@
    &&& trailer.subrange(48, 56) == trailer_magic()
}

/// Where the parts of a closed file stand.
proof fn lemma_file_parts(
    descriptor: SegmentDescriptor,
    compression: Compression,
    entries: Seq<DirectoryEntry>,
    payload: Seq<u8>,
)
    requires
        descriptor.wf(),
        entries.len() > 0,
        closed_len(entries.len() as int, payload.len() as int) <= u64::MAX,
    ensures
        has_parts(
            segment_file(descriptor, compression, entries, payload),
            descriptor,
            compression,
            entries,
            payload,
            content_bytes(descriptor, compression, entries, payload),
        ),
{
    law_header_round_trip(descriptor, compression);
    lemma_directory_layout(entries);
    let file = segment_file(descriptor, compression, entries, payload);
    let content = content_bytes(descriptor, compression, entries, payload);
    let offset = HEADER_BYTES + payload.len();
    let at = offset + DIRECTORY_PREFIX_BYTES + entries.len() * DIRECTORY_ENTRY_BYTES;
    let length = DIRECTORY_PREFIX_BYTES + entries.len() * DIRECTORY_ENTRY_BYTES
        + FOOTER_SUMMARY_BYTES;
    let summary = summary_bytes(entries, payload);
    let trailer = trailer_bytes(offset as u64, length as u64, blake3_digest(content)@);
    lemma_joined_four(
        entries[0].parent_hash.0@,
        entries.last().block_hash.0@,
        blake3_digest(hash_chain(entries))@,
        blake3_digest(payload)@,
    );
    lemma_joined_four(
        be64(offset as u64),
        be64(length as u64),
        blake3_digest(content)@,
        trailer_magic(),
    );
    lemma_joined(
        header_bytes(descriptor, compression),
        payload,
        directory_magic(),
        be64(entries.len() as u64),
        directory_bytes(entries),
        summary,
        trailer,
    );
    assert(file == content + trailer);
    assert(file.subrange(at, at + 128) == summary);
    lemma_part_of_part(file, at, at + 128, 0, 32);
    lemma_part_of_part(file, at, at + 128, 32, 64);
    lemma_part_of_part(file, at, at + 128, 64, 96);
    lemma_part_of_part(file, at, at + 128, 96, 128);
    assert(file.subrange(file.len() - TRAILER_BYTES, file.len() as int) == trailer);
}

/// Where one seek entry stands in a file that holds the directory.
#[verifier::rlimit(60)]
proof fn lemma_entry_in_file(file: Seq<u8>, entries: Seq<DirectoryEntry>, from: int, index: int)
    requires
        0 <= from,
        from + entries.len() * DIRECTORY_ENTRY_BYTES <= file.len(),
        file.subrange(from, from + entries.len() * DIRECTORY_ENTRY_BYTES) == directory_bytes(
            entries,
        ),
        0 <= index < entries.len(),
    ensures
        parse_entry(
            file.subrange(
                from + index * DIRECTORY_ENTRY_BYTES,
                from + index * DIRECTORY_ENTRY_BYTES + DIRECTORY_ENTRY_BYTES,
            ),
        ) == entries[index],
{
    lemma_directory_layout(entries);
    assert(index * DIRECTORY_ENTRY_BYTES + DIRECTORY_ENTRY_BYTES <= entries.len()
        * DIRECTORY_ENTRY_BYTES) by (nonlinear_arith)
        requires
            index < entries.len(),
            DIRECTORY_ENTRY_BYTES == 120,
    ;
    lemma_part_of_part(
        file,
        from,
        from + entries.len() * DIRECTORY_ENTRY_BYTES,
        index * DIRECTORY_ENTRY_BYTES,
        index * DIRECTORY_ENTRY_BYTES + DIRECTORY_ENTRY_BYTES,
    );
    law_entry_round_trip(entries[index]);
}

/// The seek entries of a closed file are the ones that were written.
proof fn lemma_file_entries(
    file: Seq<u8>,
    descriptor: SegmentDescriptor,
    compression: Compression,
    entries: Seq<DirectoryEntry>,
    payload: Seq<u8>,
    content: Seq<u8>,
)
    requires
        has_parts(file, descriptor, compression, entries, payload, content),
        closed_len(entries.len() as int, payload.len() as int) <= u64::MAX,
    ensures
        file_entries(file, (HEADER_BYTES + payload.len()) as u64, entries.len() as u64) == entries,
{
    let offset = (HEADER_BYTES + payload.len()) as u64;
    let from = offset + DIRECTORY_PREFIX_BYTES;
    let found = file_entries(file, offset, entries.len() as u64);
    assert(file.subrange(from, from + entries.len() * DIRECTORY_ENTRY_BYTES) == directory_bytes(
        entries,
    ));
    assert(file.len() >= from + entries.len() * DIRECTORY_ENTRY_BYTES);
    assert forall|index: int| 0 <= index < entries.len() implies found[index] == entries[index] by {
        lemma_entry_in_file(file, entries, from, index);
    }
    assert(found =~= entries);
}

/// A file whose parts stand where the layout says opens with those parts.
#[verifier::rlimit(30)]
proof fn lemma_parts_open(
    file: Seq<u8>,
    descriptor: SegmentDescriptor,
    compression: Compression,
    entries: Seq<DirectoryEntry>,
    payload: Seq<u8>,
    content: Seq<u8>,
)
    requires
        descriptor.wf(),
        linked(entries, descriptor.range.start.0),
        entries.len() == descriptor.range.spec_len(),
        entries.len() > 0,
        stored_total(entries) == payload.len(),
        logical_total(entries) <= u64::MAX,
        closed_len(entries.len() as int, payload.len() as int) <= u64::MAX,
        has_parts(file, descriptor, compression, entries, payload, content),
        content == content_bytes(descriptor, compression, entries, payload),
    ensures
        parse_segment_file(file) == Ok::<(SegmentFacts, u64), SegmentError>(
            (
                written_facts(descriptor, compression, entries, payload),
                (HEADER_BYTES + payload.len()) as u64,
            ),
        ),
{
    lemma_file_entries(file, descriptor, compression, entries, payload, content);
    law_header_round_trip(descriptor, compression);
    let offset = (HEADER_BYTES + payload.len()) as u64;
    let length = (DIRECTORY_PREFIX_BYTES + entries.len() * DIRECTORY_ENTRY_BYTES
        + FOOTER_SUMMARY_BYTES) as u64;
    lemma_be64_round_trip(offset);
    lemma_be64_round_trip(length);
    lemma_be64_round_trip(entries.len() as u64);
    lemma_linked_scans(entries, descriptor.range.start.0, offset);
    lemma_array32(blake3_digest(content));
    lemma_array32(blake3_digest(hash_chain(entries)));
    lemma_array32(blake3_digest(payload));
    assert(records_area(file, offset) =~= payload);
    let facts = written_facts(descriptor, compression, entries, payload);
    let scan = scan_directory(entries, descriptor.range.start.0, offset)->Ok_0;
    let checksum = blake3_digest(content);
    assert(parse_summary(file, descriptor, compression, offset, checksum, entries, scan) == Ok::<
        (SegmentFacts, u64),
        SegmentError,
    >((facts, offset)));
    assert(parse_directory(file, descriptor, compression, offset, length, checksum) == Ok::<
        (SegmentFacts, u64),
        SegmentError,
    >((facts, offset)));
}

/// Opening a written segment gives back its metadata: whatever linked records
/// a writer closed over its exact range, the reader accepts the file and
/// reports the same descriptor, compression, sizes, anchors and checksums.
pub proof fn law_written_segment_opens(
    descriptor: SegmentDescriptor,
    compression: Compression,
    entries: Seq<DirectoryEntry>,
    payload: Seq<u8>,
)
    requires
        descriptor.wf(),
        linked(entries, descriptor.range.start.0),
        entries.len() == descriptor.range.spec_len(),
        stored_total(entries) == payload.len(),
        logical_total(entries) <= u64::MAX,
        closed_len(entries.len() as int, payload.len() as int) <= u64::MAX,
    ensures
        parse_segment_file(segment_file(descriptor, compression, entries, payload)) == Ok::<
            (SegmentFacts, u64),
            SegmentError,
        >(
            (
                written_facts(descriptor, compression, entries, payload),
                (HEADER_BYTES + payload.len()) as u64,
            ),
        ),
{
    lemma_file_parts(descriptor, compression, entries, payload);
    lemma_parts_open(
        segment_file(descriptor, compression, entries, payload),
        descriptor,
        compression,
        entries,
        payload,
        content_bytes(descriptor, compression, entries, payload),
    );
}

/// In linked entries, entry `index` is the one of block `start + index`.
pub proof fn lemma_linked_entry(entries: Seq<DirectoryEntry>, start: u64, index: int)
    requires
        linked(entries, start),
        0 <= index < entries.len(),
    ensures
        entries[index].block_number.0 == start + index,
        index > 0 ==> entries[index].parent_hash == entries[index - 1].block_hash,
    decreases entries.len(),
{
    if index < entries.len() - 1 {
        lemma_linked_entry(entries.drop_last(), start, index);
    }
}

/// Reading a block of a file whose parts stand where the layout says.
#[verifier::rlimit(30)]
proof fn lemma_parts_read(
    file: Seq<u8>,
    facts: SegmentFacts,
    entries: Seq<DirectoryEntry>,
    payload: Seq<u8>,
    content: Seq<u8>,
    records: Seq<Seq<u8>>,
    block: BlockNumber,
)
    requires
        linked(entries, facts.descriptor.range.start.0),
        entries.len() == facts.descriptor.range.spec_len(),
        closed_len(entries.len() as int, payload.len() as int) <= u64::MAX,
        records_match(facts.compression, entries, payload, records),
        facts.descriptor.range.has(block.0 as int),
        has_parts(file, facts.descriptor, facts.compression, entries, payload, content),
    ensures
        ({
            let index = block.0 - facts.descriptor.range.start.0;
            &&& read_record(facts, (HEADER_BYTES + payload.len()) as u64, file, block) == Ok::<
                (DirectoryEntry, Seq<u8>),
                SegmentError,
            >((entries[index], records[index]))
            &&& entries[index].block_number == block
        }),
{
    lemma_file_entries(file, facts.descriptor, facts.compression, entries, payload, content);
    let offset = (HEADER_BYTES + payload.len()) as u64;
    let index = block.0 - facts.descriptor.range.start.0;
    assert(index < entries.len()) by {
        if facts.descriptor.range.end.0 - facts.descriptor.range.start.0 == u64::MAX {
            assert(closed_len(u64::MAX as int, payload.len() as int) > u64::MAX);
        }
    }
    lemma_linked_entry(entries, facts.descriptor.range.start.0, index);
    let entry = entries[index];
    assert(record_matches(facts.compression, entry, payload, records[index]));
    assert(file_entries(file, offset, entries.len() as u64)[index] == file_entry(
        file,
        offset,
        index,
    ));
    assert(index * DIRECTORY_ENTRY_BYTES + DIRECTORY_ENTRY_BYTES <= entries.len()
        * DIRECTORY_ENTRY_BYTES) by (nonlinear_arith)
        requires
            index < entries.len(),
            DIRECTORY_ENTRY_BYTES == 120,
    ;
    lemma_part_of_part(
        file,
        80,
        offset as int,
        entry.payload_offset - HEADER_BYTES,
        entry.payload_offset - HEADER_BYTES + entry.stored_len,
    );
    assert(file.subrange(
        entry.payload_offset as int,
        entry.payload_offset + entry.stored_len,
    ) == stored_record(entry, payload));
}

/// A read gives back what a write wrote: seeking any block of a written
/// segment yields its seek entry and the very bytes that were appended.
pub proof fn law_written_record_reads_back(
    descriptor: SegmentDescriptor,
    compression: Compression,
    entries: Seq<DirectoryEntry>,
    payload: Seq<u8>,
    records: Seq<Seq<u8>>,
    block: BlockNumber,
)
    requires
        descriptor.wf(),
        linked(entries, descriptor.range.start.0),
        entries.len() == descriptor.range.spec_len(),
        closed_len(entries.len() as int, payload.len() as int) <= u64::MAX,
        records_match(compression, entries, payload, records),
        descriptor.range.has(block.0 as int),
    ensures
        ({
            let index = block.0 - descriptor.range.start.0;
            read_record(
                written_facts(descriptor, compression, entries, payload),
                (HEADER_BYTES + payload.len()) as u64,
                segment_file(descriptor, compression, entries, payload),
                block,
            ) == Ok::<(DirectoryEntry, Seq<u8>), SegmentError>((entries[index], records[index]))
                && entries[index].block_number == block
        }),
{
    lemma_file_parts(descriptor, compression, entries, payload);
    lemma_parts_read(
        segment_file(descriptor, compression, entries, payload),
        written_facts(descriptor, compression, entries, payload),
        entries,
        payload,
        content_bytes(descriptor, compression, entries, payload),
        records,
        block,
    );
}

/// A directory without a fault is linked, and adds up to the scan.
proof fn lemma_scan_means_linked(
    entries: Seq<DirectoryEntry>,
    start: u64,
    directory_offset: u64,
)
    requires
        scan_directory(entries, start, directory_offset) is Ok,
    ensures
        linked(entries, start),
        scan_directory(entries, start, directory_offset)->Ok_0.stored == stored_total(entries),
        scan_directory(entries, start, directory_offset)->Ok_0.logical == logical_total(entries),
        entries.len() > 0 ==> scan_directory(entries, start, directory_offset)->Ok_0.last_hash
            == Some(entries.last().block_hash),
    decreases entries.len(),
{
    if entries.len() > 0 {
        lemma_scan_means_linked(entries.drop_last(), start, directory_offset);
    }
}

/// Opening fails closed: a file is accepted only if its content and its
/// records have the recorded checksums, and its directory covers the exact
/// range with consecutive blocks, adjoining records and linked parents.
pub proof fn law_open_fails_closed(file: Seq<u8>)
    requires
        parse_segment_file(file) is Ok,
    ensures
        ({
            let (facts, offset) = parse_segment_file(file)->Ok_0;
            let entries = file_entries(file, offset, facts.descriptor.range.spec_len());
            &&& facts.descriptor.problem() is None
            &&& facts.descriptor.range.wf()
            &&& facts.content_checksum@ == blake3_digest(
                file.subrange(0, file.len() - TRAILER_BYTES),
            )@
            &&& facts.records_checksum@ == blake3_digest(records_area(file, offset))@
            &&& facts.ordered_hash_digest@ == blake3_digest(hash_chain(entries))@
            &&& linked(entries, facts.descriptor.range.start.0)
            &&& stored_total(entries) == offset - HEADER_BYTES
            &&& logical_total(entries) == facts.logical_bytes
            &&& facts.last_hash == entries.last().block_hash
            &&& facts.physical_bytes == file.len()
        }),
{
    let (facts, offset) = parse_segment_file(file)->Ok_0;
    let entries = file_entries(file, offset, facts.descriptor.range.spec_len());
    lemma_scan_means_linked(entries, facts.descriptor.range.start.0, offset);
    let trailer = file.subrange(file.len() - TRAILER_BYTES, file.len() as int);
    let content = file.subrange(0, file.len() - TRAILER_BYTES);
    assert(trailer.subrange(16, 48) == blake3_digest(content)@);
    lemma_array32(blake3_digest(content));
    lemma_array32(blake3_digest(hash_chain(entries)));
    lemma_array32(blake3_digest(records_area(file, offset)));
}

/// The eight bytes from `from` on stand for another number once one of them is
/// another.
proof fn lemma_altered_number(file: Seq<u8>, altered: Seq<u8>, from: int, at: int)
    requires
        0 <= from <= at < from + 8 <= file.len(),
        altered.len() == file.len(),
        altered[at] != file[at],
    ensures
        from_be64(altered.subrange(from, from + 8)) != from_be64(file.subrange(from, from + 8)),
{
    let before = file.subrange(from, from + 8);
    let after = altered.subrange(from, from + 8);
    lemma_be64_of_bytes(before);
    lemma_be64_of_bytes(after);
    assert(before[at - from] == file[at]);
    assert(after[at - from] == altered[at]);
}

/// A segment file in which one byte was altered is refused, whichever byte it
/// is. An altered record or directory is told by the checksum of the content,
/// on the ground that the digest of the altered content is another.
pub proof fn law_altered_segment_is_refused(file: Seq<u8>, at: int, byte: u8)
    requires
        parse_segment_file(file) is Ok,
        0 <= at < file.len(),
        byte != file[at],
        at < file.len() - TRAILER_BYTES ==> blake3_digest(
            file.update(at, byte).subrange(0, file.len() - TRAILER_BYTES),
        )@ != blake3_digest(file.subrange(0, file.len() - TRAILER_BYTES))@,
    ensures
        parse_segment_file(file.update(at, byte)) is Err,
        HEADER_BYTES <= at < file.len() - TRAILER_BYTES ==> parse_segment_file(
            file.update(at, byte),
        ) == (Err::<(SegmentFacts, u64), SegmentError>(SegmentError::ContentChecksum)),
        file.len() - 40 <= at < file.len() - 8 ==> parse_segment_file(file.update(at, byte)) == (
        Err::<(SegmentFacts, u64), SegmentError>(SegmentError::ContentChecksum)),
        file.len() - 8 <= at ==> parse_segment_file(file.update(at, byte)) == (Err::<
            (SegmentFacts, u64),
            SegmentError,
        >(SegmentError::TrailerMagic)),
{
    let altered = file.update(at, byte);
    let size = file.len() as int;
    let start = size - TRAILER_BYTES;
    let trailer = file.subrange(start, size);
    let touched = altered.subrange(start, size);
    let content = file.subrange(0, start);
    assert(trailer.subrange(16, 48) == blake3_digest(content)@);
    assert forall|from: int, to: int|
        0 <= from <= to <= TRAILER_BYTES && !(start + from <= at < start + to) implies (
    #[trigger] touched.subrange(from, to)) == trailer.subrange(from, to) by {
        assert(touched.subrange(from, to) =~= trailer.subrange(from, to));
    }
    assert(trailer.subrange(0, 8) =~= file.subrange(start, start + 8));
    assert(touched.subrange(0, 8) =~= altered.subrange(start, start + 8));
    assert(trailer.subrange(8, 16) =~= file.subrange(start + 8, start + 16));
    assert(touched.subrange(8, 16) =~= altered.subrange(start + 8, start + 16));
    if at >= HEADER_BYTES {
        assert(altered.subrange(0, 80) =~= file.subrange(0, 80));
    }
    if at < start {
        assert(touched.subrange(48, 56) == trailer.subrange(48, 56));
        assert(touched.subrange(16, 48) == trailer.subrange(16, 48));
        assert(touched.subrange(0, 8) == trailer.subrange(0, 8));
        assert(touched.subrange(8, 16) == trailer.subrange(8, 16));
    } else if at < start + 8 {
        lemma_altered_number(file, altered, start, at);
        assert(touched.subrange(8, 16) == trailer.subrange(8, 16));
    } else if at < start + 16 {
        lemma_altered_number(file, altered, start + 8, at);
        assert(touched.subrange(0, 8) == trailer.subrange(0, 8));
    } else if at < start + 48 {
        assert(touched.subrange(48, 56) == trailer.subrange(48, 56));
        assert(touched.subrange(0, 8) == trailer.subrange(0, 8));
        assert(touched.subrange(8, 16) == trailer.subrange(8, 16));
        assert(altered.subrange(0, start) =~= content);
        assert(touched.subrange(16, 48)[at - start - 16] == byte);
        assert(trailer.subrange(16, 48)[at - start - 16] == file[at]);
    } else {
        assert(touched.subrange(48, 56)[at - start - 48] == byte);
        assert(trailer.subrange(48, 56)[at - start - 48] == file[at]);
    }
}

/// A segment file that was cut is refused: outright where less than a segment
/// is left or where the cut goes through the closing bytes, and otherwise on
/// the ground that what stands in the place of the checksum is not the digest
/// of what is left.
pub proof fn law_cut_segment_is_refused(file: Seq<u8>, size: int)
    requires
        parse_segment_file(file) is Ok,
        0 <= size < file.len(),
        shortest_file() <= size <= file.len() - 8 ==> blake3_digest(
            file.subrange(0, size - TRAILER_BYTES),
        )@ != file.subrange(size - 40, size - 8),
    ensures
        parse_segment_file(file.take(size)) is Err,
        size < shortest_file() ==> parse_segment_file(file.take(size)) == (Err::<
            (SegmentFacts, u64),
            SegmentError,
        >(SegmentError::Truncated)),
        shortest_file() <= size && file.len() - 8 < size ==> parse_segment_file(file.take(size))
            == (Err::<(SegmentFacts, u64), SegmentError>(SegmentError::TrailerMagic)),
{
    let cut = file.take(size);
    if size >= shortest_file() {
        let whole = file.subrange(file.len() - TRAILER_BYTES, file.len() as int);
        let trailer = cut.subrange(size - TRAILER_BYTES, size);
        assert(cut.subrange(0, 80) =~= file.subrange(0, 80));
        if file.len() - 8 < size {
            let lost = file.len() - size;
            assert(whole.subrange(48, 56)[0] == file[file.len() - 8]);
            assert(trailer.subrange(48, 56)[lost] == file[file.len() - 8]);
            assert(whole.subrange(48, 56)[0] == 0x49);
            assert(trailer_magic()[lost] != 0x49);
        } else {
            assert(trailer.subrange(16, 48) =~= file.subrange(size - 40, size - 8));
            assert(cut.subrange(0, size - TRAILER_BYTES) =~= file.subrange(0, size - TRAILER_BYTES));
        }
    }
}

} // verus!
