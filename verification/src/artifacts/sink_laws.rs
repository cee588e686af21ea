//! What holds of retained batches as a whole.

use crate::artifacts::batch::{
    appended, batch_problem, delta_problem, encodings, first_problem, summary, written_batch,
    BatchDelta,
};
use crate::artifacts::laws::{law_written_artifact_reads_back, law_written_artifacts_open};
use crate::artifacts::segment::{
    parse_artifact_file, read_artifact, record_stream, ArtifactCompression, ArtifactEntry,
    ArtifactSegmentError, ArtifactSegmentLimits, ArtifactSegmentMetadata, ContractView,
    DescriptorView, MetadataView, ParsedArtifacts,
};
use crate::artifacts::segment_sink::{
    spec_segment_path, FoundSegment, PreparedSegment, Retention, SinkView,
};
use crate::artifacts::sink::{
    disjoint, exact_from, inserted, law_retained_batches_are_found, lemma_exact_from,
    lemma_sharing_from, sharing_from, ArtifactBatchReceipt, ArtifactSinkError, BatchReceiptView,
};
use crate::artifacts::verify::{
    block_count, decoded_records, record_fault, records_fault, segment_fault,
};
use crate::artifacts::writer::{artifact_file, written_metadata, ArtifactWriterView};
use crate::digest::blake3_digest;
use crate::primitives::BlockNumber;
use vstd::prelude::*;

verus! {

/// A writer that accepted deltas holds their encodings.
proof fn lemma_appended(view: ArtifactWriterView, deltas: Seq<BatchDelta>, index: int)
    requires
        0 <= index <= deltas.len(),
        appended(view, deltas, index) is Ok,
        view.entries.len() == view.records.len(),
    ensures
        ({
            let after = appended(view, deltas, index)->Ok_0;
            &&& after.descriptor == view.descriptor
            &&& after.entries.len() == after.records.len()
            &&& after.records == view.records + encodings(deltas.skip(index))
        }),
    decreases deltas.len() - index,
{
    if index < deltas.len() {
        let delta = deltas[index];
        let next = view.after(
            delta.facts,
            delta.encoded@,
            view.compression.stored(delta.encoded@)->0,
        );
        lemma_appended(next, deltas, index + 1);
        let rest = encodings(deltas.skip(index + 1));
        assert(encodings(deltas.skip(index)) =~= seq![delta.encoded@] + rest);
        assert(next.records + rest =~= view.records + encodings(deltas.skip(index)));
    } else {
        assert(view.records + encodings(deltas.skip(index)) =~= view.records);
    }
}

proof fn lemma_written_records(
    descriptor: DescriptorView,
    compression: ArtifactCompression,
    limits: ArtifactSegmentLimits,
    deltas: Seq<BatchDelta>,
)
    requires
        written_batch(descriptor, compression, limits, deltas) is Ok,
    ensures
        ({
            let view = written_batch(descriptor, compression, limits, deltas)->Ok_0;
            &&& view.descriptor == descriptor
            &&& view.records == encodings(deltas)
            &&& view.entries.len() == deltas.len()
        }),
{
    let start = ArtifactWriterView {
        descriptor,
        descriptor_bytes: descriptor.encoded()->0,
        compression,
        limits,
        entries: Seq::empty(),
        payload: Seq::empty(),
        records: Seq::empty(),
    };
    lemma_appended(start, deltas, 0);
    assert(deltas.skip(0) =~= deltas);
    assert(start.records + encodings(deltas) =~= encodings(deltas));
}

/// Retaining a batch twice is retaining it once: once the segment written for
/// a batch is recorded, the same batch is found under its exact range, and its
/// records are the retained ones.
pub proof fn law_retry_is_answered_from_the_catalog(
    sink: SinkView,
    contract: ContractView,
    compression: ArtifactCompression,
    limits: ArtifactSegmentLimits,
    deltas: Seq<BatchDelta>,
)
    requires
        disjoint(sink.entries),
        batch_problem(deltas) is None,
        sharing_from(sink.entries, contract.instance, summary(deltas).range, 0) is None,
        written_batch(
            DescriptorView {
                contract,
                chain_id: summary(deltas).chain_id,
                range: summary(deltas).range,
            },
            compression,
            limits,
            deltas,
        ) is Ok,
    ensures
        ({
            let batch = summary(deltas);
            let view = written_batch(
                DescriptorView { contract, chain_id: batch.chain_id, range: batch.range },
                compression,
                limits,
                deltas,
            )->Ok_0;
            let entry = SinkView::batch_entry(contract, batch, written_metadata(view));
            let after = inserted(sink.entries, entry);
            let found = exact_from(after, contract.instance, batch.range, 0);
            &&& found is Some
            &&& after[found->0] == entry
            &&& entry.is_identical(batch)
        }),
{
    let batch = summary(deltas);
    let descriptor = DescriptorView { contract, chain_id: batch.chain_id, range: batch.range };
    lemma_written_records(descriptor, compression, limits, deltas);
    let view = written_batch(descriptor, compression, limits, deltas)->Ok_0;
    let entry = SinkView::batch_entry(contract, batch, written_metadata(view));
    law_retained_batches_are_found(sink.entries, entry);
}

/// A batch that was written and recorded is retained once: the same batch
/// again is answered with the first receipt, but as not newly retained.
pub proof fn law_retaining_again_is_answered_alike(
    before: SinkView,
    after: SinkView,
    contract: ContractView,
    deltas: Seq<BatchDelta>,
    prepared: PreparedSegment,
    receipt: ArtifactBatchReceipt,
    existing: Option<Result<ArtifactSegmentMetadata, ArtifactSegmentError>>,
    again: Result<Retention, ArtifactSinkError>,
)
    requires
        before.wf(),
        before.retention_answers(
            contract,
            deltas,
            None,
            Ok::<Retention, ArtifactSinkError>(Retention::Fresh(prepared)),
        ),
        before.record_answers(
            after,
            prepared,
            Ok::<ArtifactBatchReceipt, ArtifactSinkError>(receipt),
        ),
        after.retention_answers(contract, deltas, existing, again),
    ensures
        receipt@.newly_retained,
        again is Ok,
        again->Ok_0 is Held,
        again->Ok_0->Held_0@ == (BatchReceiptView { newly_retained: false, ..receipt@ }),
{
    let batch = summary(deltas);
    law_retry_is_answered_from_the_catalog(
        before,
        contract,
        before.config.compression,
        before.writing_limits(),
        deltas,
    );
    assert(prepared.entry@.is_identical(batch));
}

/// A batch over a range that overlaps a retained one without being it is
/// refused, with the range of a retained batch that it shares a block with.
pub proof fn law_overlapping_batches_conflict(
    sink: SinkView,
    contract: ContractView,
    held: int,
    deltas: Seq<BatchDelta>,
    existing: Option<Result<ArtifactSegmentMetadata, ArtifactSegmentError>>,
    outcome: Result<Retention, ArtifactSinkError>,
)
    requires
        sink.wf(),
        0 <= held < sink.entries.len(),
        sink.entries[held].shares(contract.instance, summary(deltas).range),
        sink.entries[held].range != summary(deltas).range,
        batch_problem(deltas) is None,
        sink.retention_answers(contract, deltas, existing, outcome),
    ensures
        exists|at: int|
            0 <= at < sink.entries.len() && (#[trigger] sink.entries[at]).shares(
                contract.instance,
                summary(deltas).range,
            ) && outcome == Err::<Retention, ArtifactSinkError>(
                ArtifactSinkError::Conflict(sink.entries[at].range),
            ),
{
    let range = summary(deltas).range;
    lemma_exact_from(sink.entries, contract.instance, range, 0);
    lemma_sharing_from(sink.entries, contract.instance, range, 0);
    if let Some(at) = exact_from(sink.entries, contract.instance, range, 0) {
        if at < held {
            assert(sink.entries[at].range.end.0 < sink.entries[held].range.start.0);
        } else if held < at {
            assert(sink.entries[held].range.end.0 < sink.entries[at].range.start.0);
        }
    }
}

/// A batch over the range of a retained one, but with other records, is
/// refused with that range, on the ground that the digests of the records
/// differ.
pub proof fn law_other_records_conflict(
    sink: SinkView,
    contract: ContractView,
    held: int,
    deltas: Seq<BatchDelta>,
    existing: Option<Result<ArtifactSegmentMetadata, ArtifactSegmentError>>,
    outcome: Result<Retention, ArtifactSinkError>,
)
    requires
        sink.wf(),
        0 <= held < sink.entries.len(),
        sink.entries[held].is_exact(contract.instance, summary(deltas).range),
        sink.entries[held].records_checksum != blake3_digest(record_stream(encodings(deltas))),
        batch_problem(deltas) is None,
        sink.retention_answers(contract, deltas, existing, outcome),
    ensures
        outcome == Err::<Retention, ArtifactSinkError>(
            ArtifactSinkError::Conflict(sink.entries[held].range),
        ),
{
    let range = summary(deltas).range;
    lemma_exact_from(sink.entries, contract.instance, range, 0);
    let at = exact_from(sink.entries, contract.instance, range, 0)->0;
    if at < held {
        assert(sink.entries[at].range.end.0 < sink.entries[held].range.start.0);
    } else if held < at {
        assert(sink.entries[held].range.end.0 < sink.entries[at].range.start.0);
    }
}

/// Once a batch is retained, another batch of the same processor is refused
/// with a conflict if it overlaps the range without being over it, or if it is
/// over it with records of another digest.
pub proof fn law_retained_batches_are_not_replaced(
    before: SinkView,
    after: SinkView,
    contract: ContractView,
    deltas: Seq<BatchDelta>,
    first: Option<Result<ArtifactSegmentMetadata, ArtifactSegmentError>>,
    prepared: PreparedSegment,
    receipt: ArtifactBatchReceipt,
    other: Seq<BatchDelta>,
    second: Option<Result<ArtifactSegmentMetadata, ArtifactSegmentError>>,
    outcome: Result<Retention, ArtifactSinkError>,
)
    requires
        before.wf(),
        after.wf(),
        before.retention_answers(
            contract,
            deltas,
            first,
            Ok::<Retention, ArtifactSinkError>(Retention::Fresh(prepared)),
        ),
        before.record_answers(
            after,
            prepared,
            Ok::<ArtifactBatchReceipt, ArtifactSinkError>(receipt),
        ),
        after.retention_answers(contract, other, second, outcome),
        batch_problem(other) is None,
        summary(other).range.start.0 <= summary(deltas).range.end.0,
        summary(deltas).range.start.0 <= summary(other).range.end.0,
        summary(other).range != summary(deltas).range || blake3_digest(
            record_stream(encodings(other)),
        ) != blake3_digest(record_stream(encodings(deltas))),
    ensures
        outcome is Err,
        outcome->Err_0 is Conflict,
{
    let entry = prepared.entry@;
    law_retained_batches_are_found(before.entries, entry);
    lemma_exact_from(after.entries, entry.instance, entry.range, 0);
    let held = exact_from(after.entries, entry.instance, entry.range, 0)->0;
    if summary(other).range == summary(deltas).range {
        law_other_records_conflict(after, contract, held, other, second, outcome);
    } else {
        law_overlapping_batches_conflict(after, contract, held, other, second, outcome);
    }
}

/// A prepared segment that shares a block with a recorded one is refused with
/// a conflict, and the sink stays as it is.
pub proof fn law_recording_a_conflict_changes_nothing(
    before: SinkView,
    after: SinkView,
    held: int,
    prepared: PreparedSegment,
    outcome: Result<ArtifactBatchReceipt, ArtifactSinkError>,
)
    requires
        0 <= held < before.entries.len(),
        before.entries[held].shares(prepared.entry@.instance, prepared.entry@.range),
        before.record_answers(after, prepared, outcome),
    ensures
        outcome is Err,
        outcome->Err_0 is Conflict,
        after == before,
{
    lemma_sharing_from(before.entries, prepared.entry@.instance, prepared.entry@.range, 0);
}

/// A retained batch reads back: seeking any block in the segment written for a
/// batch yields the very encoding that the batch held for it.
pub proof fn law_retained_batch_reads_back(
    contract: ContractView,
    compression: ArtifactCompression,
    limits: ArtifactSegmentLimits,
    deltas: Seq<BatchDelta>,
    view: ArtifactWriterView,
    index: int,
)
    requires
        batch_problem(deltas) is None,
        written_batch(
            DescriptorView {
                contract,
                chain_id: summary(deltas).chain_id,
                range: summary(deltas).range,
            },
            compression,
            limits,
            deltas,
        ) == Ok::<ArtifactWriterView, ArtifactSegmentError>(view),
        view.wf(),
        artifact_file(view).len() <= usize::MAX,
        0 <= index < deltas.len(),
    ensures
        read_artifact(
            written_metadata(view),
            view.position(),
            artifact_file(view),
            BlockNumber((summary(deltas).range.start.0 + index) as u64),
        ) == Ok::<(ArtifactEntry, Seq<u8>), ArtifactSegmentError>(
            (view.entries[index], deltas[index].encoded@),
        ),
{
    let batch = summary(deltas);
    let descriptor = DescriptorView { contract, chain_id: batch.chain_id, range: batch.range };
    lemma_written_records(descriptor, compression, limits, deltas);
    let block = BlockNumber((batch.range.start.0 + index) as u64);
    assert(batch.range.start.0 + index <= batch.range.end.0);
    assert(view.records[index] == deltas[index].encoded@);
    assert(deltas[index].encoded.len() <= usize::MAX);
    law_written_artifact_reads_back(view, block);
}

/// A writer that accepted deltas has an entry with the hash and the checksum
/// of each.
proof fn lemma_appended_hashes(view: ArtifactWriterView, deltas: Seq<BatchDelta>, index: int)
    requires
        0 <= index <= deltas.len(),
        appended(view, deltas, index) is Ok,
    ensures
        ({
            let after = appended(view, deltas, index)->Ok_0;
            let held = view.entries.len() - index;
            &&& after.entries.len() == held + deltas.len()
            &&& forall|i: int|
                0 <= i < view.entries.len() ==> after.entries[i] == #[trigger] view.entries[i]
            &&& forall|i: int|
                index <= i < deltas.len() ==> after.entries[held + i].block_hash == (
                #[trigger] deltas[i]).facts.block.hash && after.entries[held + i].delta_checksum
                    == deltas[i].facts.checksum
        }),
    decreases deltas.len() - index,
{
    if index < deltas.len() {
        let delta = deltas[index];
        let next = view.after(
            delta.facts,
            delta.encoded@,
            view.compression.stored(delta.encoded@)->0,
        );
        lemma_appended_hashes(next, deltas, index + 1);
        let after = appended(view, deltas, index)->Ok_0;
        assert(after == appended(next, deltas, index + 1)->Ok_0);
        assert(after.entries[view.entries.len() as int] == next.entries[view.entries.len() as int]);
        assert forall|i: int| 0 <= i < view.entries.len() implies after.entries[i]
            == #[trigger] view.entries[i] by {
            assert(next.entries[i] == view.entries[i]);
        }
    }
}

/// What decoding the records of a batch gives.
pub open spec fn all_decoded(deltas: Seq<BatchDelta>) -> Seq<Option<BatchDelta>> {
    deltas.map_values(|delta: BatchDelta| Some(delta))
}

proof fn lemma_each_delta_is_sound(deltas: Seq<BatchDelta>, from: int, index: int)
    requires
        0 <= from <= index < deltas.len(),
        first_problem(deltas, from) is None,
    ensures
        delta_problem(deltas, index) is None,
    decreases index - from,
{
    if from < index {
        lemma_each_delta_is_sound(deltas, from + 1, index);
    }
}

/// The record of a delta reads back with the entry that names it.
pub open spec fn record_found(
    metadata: MetadataView,
    directory_offset: u64,
    file: Seq<u8>,
    delta: BatchDelta,
    index: int,
) -> bool {
    let block = BlockNumber((metadata.descriptor.range.start.0 + index) as u64);
    match read_artifact(metadata, directory_offset, file, block) {
        Ok((entry, _)) => {
            &&& entry.block_hash == delta.facts.block.hash
            &&& entry.delta_checksum == delta.facts.checksum
        },
        Err(_) => false,
    }
}

proof fn lemma_batch_count(deltas: Seq<BatchDelta>)
    requires
        batch_problem(deltas) is None,
    ensures
        block_count(summary(deltas).range) == deltas.len(),
{
    lemma_each_delta_is_sound(deltas, 0, deltas.len() - 1);
}

proof fn lemma_records_verify(
    metadata: MetadataView,
    directory_offset: u64,
    file: Seq<u8>,
    deltas: Seq<BatchDelta>,
    from: int,
)
    requires
        batch_problem(deltas) is None,
        0 <= from <= deltas.len(),
        metadata.descriptor.range == summary(deltas).range,
        metadata.descriptor.chain_id == summary(deltas).chain_id,
        forall|i: int|
            0 <= i < deltas.len() ==> record_found(
                metadata,
                directory_offset,
                file,
                #[trigger] deltas[i],
                i,
            ),
    ensures
        records_fault(
            metadata,
            directory_offset,
            file,
            all_decoded(deltas),
            from,
            if from == 0 {
                None
            } else {
                Some(deltas[from - 1].facts.block.hash)
            },
        ) is None,
    decreases deltas.len() - from,
{
    let range = summary(deltas).range;
    lemma_batch_count(deltas);
    if from < deltas.len() {
        lemma_records_verify(metadata, directory_offset, file, deltas, from + 1);
        lemma_each_delta_is_sound(deltas, 0, from);
        assert(record_found(metadata, directory_offset, file, deltas[from], from));
        assert(all_decoded(deltas)[from] == Some(deltas[from]));
        let block = BlockNumber((range.start.0 + from) as u64);
        assert(block.0 - range.start.0 == from);
        assert(record_fault(metadata, directory_offset, file, all_decoded(deltas), block) is None);
    }
}

/// What is written verifies: the segment written for a sound batch passes full
/// verification, record by record, link by link and by its checksum.
pub proof fn law_written_batches_verify(
    contract: ContractView,
    compression: ArtifactCompression,
    limits: ArtifactSegmentLimits,
    deltas: Seq<BatchDelta>,
    view: ArtifactWriterView,
)
    requires
        batch_problem(deltas) is None,
        written_batch(
            DescriptorView {
                contract,
                chain_id: summary(deltas).chain_id,
                range: summary(deltas).range,
            },
            compression,
            limits,
            deltas,
        ) == Ok::<ArtifactWriterView, ArtifactSegmentError>(view),
        view.wf(),
        artifact_file(view).len() <= usize::MAX,
    ensures
        segment_fault(
            written_metadata(view),
            view.position(),
            artifact_file(view),
            all_decoded(deltas),
        ) is None,
{
    let batch = summary(deltas);
    let descriptor = DescriptorView { contract, chain_id: batch.chain_id, range: batch.range };
    lemma_written_records(descriptor, compression, limits, deltas);
    let start = ArtifactWriterView {
        descriptor,
        descriptor_bytes: descriptor.encoded()->0,
        compression,
        limits,
        entries: Seq::empty(),
        payload: Seq::empty(),
        records: Seq::empty(),
    };
    lemma_appended_hashes(start, deltas, 0);
    let metadata = written_metadata(view);
    let file = artifact_file(view);
    assert forall|i: int| 0 <= i < deltas.len() implies record_found(
        metadata,
        view.position(),
        file,
        #[trigger] deltas[i],
        i,
    ) by {
        law_retained_batch_reads_back(contract, compression, limits, deltas, view, i);
    }
    lemma_records_verify(metadata, view.position(), file, deltas, 0);
    lemma_batch_count(deltas);
    assert(decoded_records(all_decoded(deltas), deltas.len() as int) =~= encodings(deltas)) by {
        assert forall|i: int| 0 <= i < deltas.len() implies decoded_records(
            all_decoded(deltas),
            deltas.len() as int,
        )[i] == encodings(deltas)[i] by {
            assert(all_decoded(deltas)[i] == Some(deltas[i]));
        }
    }
}

/// What is retained is adopted after a restart: inspecting the file written
/// for a batch gives the very entry that was recorded for it.
pub proof fn law_restart_adopts_what_was_retained(
    contract: ContractView,
    compression: ArtifactCompression,
    limits: ArtifactSegmentLimits,
    deltas: Seq<BatchDelta>,
    view: ArtifactWriterView,
    parsed: ParsedArtifacts,
    found: FoundSegment,
)
    requires
        batch_problem(deltas) is None,
        written_batch(
            DescriptorView {
                contract,
                chain_id: summary(deltas).chain_id,
                range: summary(deltas).range,
            },
            compression,
            limits,
            deltas,
        ) == Ok::<ArtifactWriterView, ArtifactSegmentError>(view),
        view.wf(),
        artifact_file(view).len() <= u64::MAX,
        parse_artifact_file(artifact_file(view)) == Ok::<ParsedArtifacts, ArtifactSegmentError>(
            parsed,
        ),
        found.path@ == spec_segment_path(contract, summary(deltas).range),
        found.inspection.metadata@ == parsed.metadata,
        found.inspection.first_block_hash == parsed.first.block_hash,
        found.inspection.last_block_hash == parsed.last.block_hash,
    ensures
        found.entry() == SinkView::batch_entry(
            contract,
            summary(deltas),
            written_metadata(view),
        ),
{
    let batch = summary(deltas);
    let descriptor = DescriptorView { contract, chain_id: batch.chain_id, range: batch.range };
    lemma_written_records(descriptor, compression, limits, deltas);
    let start = ArtifactWriterView {
        descriptor,
        descriptor_bytes: descriptor.encoded()->0,
        compression,
        limits,
        entries: Seq::empty(),
        payload: Seq::empty(),
        records: Seq::empty(),
    };
    lemma_appended_hashes(start, deltas, 0);
    law_written_artifacts_open(view);
    let last = deltas.len() - 1;
    assert(view.entries[0].block_hash == deltas[0].facts.block.hash);
    assert(view.entries[last].block_hash == deltas[last].facts.block.hash);
    assert(found.inspection.metadata@ == written_metadata(view));
    assert(found.inspection.metadata@.descriptor.contract == contract);
}

} // verus!
