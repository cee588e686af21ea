//! Batches of finalized artifacts, and the segment files that hold them.

use crate::artifacts::segment::{
    directory_bytes, header_bytes, record_stream, records_total, ArtifactCompression,
    ArtifactSegmentError, ArtifactSegmentLimits, ArtifactSegmentMetadata, DeltaFacts,
    DescriptorView, ProcessorContract,
};
use crate::artifacts::writer::{
    artifact_file, hash_record, lemma_directory_layout, sat, written_metadata,
    ArtifactSegmentWriter, ArtifactWriterView,
};
use crate::bytes::{be64, push_bytes};
use crate::digest::{absorbed, blake3_digest, hasher_finalize, hasher_new};
use crate::primitives::{BlockHash, BlockNumber, BlockRange, ChainId};
use vstd::prelude::*;

verus! {

/// Why a batch is not one contiguous piece of one chain.
#[derive(Clone, Copy, Debug, PartialEq, Eq, Structural)]
pub enum BatchProblem {
    Empty,
    ReversedRange { start: BlockNumber, end: BlockNumber },
    OneDeltaPerBlock,
    InvalidDelta(BlockNumber),
    NotContiguous,
    BytesOverflow,
}

/// One delta of a batch with its durable encoding.
#[derive(Debug)]
pub struct BatchDelta {
    pub facts: DeltaFacts,
    pub encoded: Vec<u8>,
}

/// What a batch stands for as a whole.
#[derive(Clone, Copy, Debug)]
pub struct ValidatedBatch {
    pub range: BlockRange,
    pub chain_id: ChainId,
    pub first_hash: BlockHash,
    pub last_hash: BlockHash,
    pub logical_bytes: u64,
    pub records_checksum: [u8; 32],
}

/// The encodings of a batch.
pub open spec fn encodings(deltas: Seq<BatchDelta>) -> Seq<Seq<u8>> {
    deltas.map_values(|delta: BatchDelta| delta.encoded@)
}

/// What is wrong with the delta at `index` of a batch, as the batch is walked
/// from its start.
pub open spec fn delta_problem(deltas: Seq<BatchDelta>, index: int) -> Option<BatchProblem> {
    let facts = deltas[index].facts;
    if !facts.valid {
        Some(BatchProblem::InvalidDelta(facts.block.number))
    } else if facts.chain_id != deltas[0].facts.chain_id || facts.block.number.0
        != deltas[0].facts.block.number.0 + index || (index > 0 && facts.block.parent_hash
        != deltas[index - 1].facts.block.hash) {
        Some(BatchProblem::NotContiguous)
    } else if records_total(encodings(deltas.take(index + 1))) > u64::MAX {
        Some(BatchProblem::BytesOverflow)
    } else {
        None
    }
}

/// The first problem of a batch from `index` on.
pub open spec fn first_problem(deltas: Seq<BatchDelta>, index: int) -> Option<BatchProblem>
    decreases deltas.len() - index,
{
    if index >= deltas.len() {
        None
    } else if delta_problem(deltas, index) is Some {
        delta_problem(deltas, index)
    } else {
        first_problem(deltas, index + 1)
    }
}

/// Why a batch is refused, if it is.
pub open spec fn batch_problem(deltas: Seq<BatchDelta>) -> Option<BatchProblem> {
    if deltas.len() == 0 {
        Some(BatchProblem::Empty)
    } else {
        let start = deltas[0].facts.block.number;
        let end = deltas.last().facts.block.number;
        if end.0 < start.0 {
            Some(BatchProblem::ReversedRange { start, end })
        } else if (BlockRange { start, end }).spec_len() != deltas.len() {
            Some(BatchProblem::OneDeltaPerBlock)
        } else {
            first_problem(deltas, 0)
        }
    }
}

/// What a sound batch stands for.
pub open spec fn summary(deltas: Seq<BatchDelta>) -> ValidatedBatch {
    ValidatedBatch {
        range: BlockRange {
            start: deltas[0].facts.block.number,
            end: deltas.last().facts.block.number,
        },
        chain_id: deltas[0].facts.chain_id,
        first_hash: deltas[0].facts.block.hash,
        last_hash: deltas.last().facts.block.hash,
        logical_bytes: records_total(encodings(deltas)) as u64,
        records_checksum: blake3_digest(record_stream(encodings(deltas))),
    }
}

/// One more delta: one more encoding.
proof fn lemma_encodings_step(deltas: Seq<BatchDelta>, index: int)
    requires
        0 <= index < deltas.len(),
    ensures
        encodings(deltas.take(index + 1)) == encodings(deltas.take(index)).push(
            deltas[index].encoded@,
        ),
        records_total(encodings(deltas.take(index + 1))) == records_total(
            encodings(deltas.take(index)),
        ) + deltas[index].encoded@.len(),
        record_stream(encodings(deltas.take(index + 1))) == record_stream(
            encodings(deltas.take(index)),
        ) + be64(deltas[index].encoded@.len() as u64) + deltas[index].encoded@,
{
    let after = encodings(deltas.take(index + 1));
    let before = encodings(deltas.take(index));
    assert(after =~= before.push(deltas[index].encoded@));
    assert(after.drop_last() =~= before);
}

/// Checks that a batch holds exactly one valid delta per block of one
/// contiguous, parent-linked range of one chain, and sums it up.
pub fn validate_batch(deltas: &[BatchDelta]) -> (outcome: Result<ValidatedBatch, BatchProblem>)
    ensures
        outcome == (match batch_problem(deltas@) {
            Some(problem) => Err::<ValidatedBatch, BatchProblem>(problem),
            None => Ok(summary(deltas@)),
        }),
        outcome is Ok ==> outcome->Ok_0.range.wf(),
{
    if deltas.len() == 0 {
        return Err(BatchProblem::Empty);
    }
    let first = deltas[0].facts;
    let last = deltas[deltas.len() - 1].facts;
    let range = match BlockRange::new(first.block.number, last.block.number) {
        Ok(range) => range,
        Err(invalid) => {
            return Err(BatchProblem::ReversedRange { start: invalid.start, end: invalid.end });
        },
    };
    if range.len() != deltas.len() as u64 {
        return Err(BatchProblem::OneDeltaPerBlock);
    }
    let mut logical_bytes: u64 = 0;
    let mut parent: Option<BlockHash> = None;
    let mut records = hasher_new();
    let mut index: usize = 0;
    proof {
        assert(encodings(deltas@.take(0)) =~= Seq::empty());
    }
    while index < deltas.len()
        invariant
            index <= deltas@.len(),
            deltas@.len() > 0,
            first == deltas@[0].facts,
            range == (BlockRange {
                start: first.block.number,
                end: deltas@.last().facts.block.number,
            }),
            range.wf(),
            range.spec_len() == deltas@.len(),
            batch_problem(deltas@) == first_problem(deltas@, index as int),
            logical_bytes == records_total(encodings(deltas@.take(index as int))),
            absorbed(records) == record_stream(encodings(deltas@.take(index as int))),
            parent == (if index == 0 {
                None
            } else {
                Some(deltas@[index - 1].facts.block.hash)
            }),
        decreases deltas@.len() - index,
    {
        let facts = deltas[index].facts;
        proof {
            lemma_encodings_step(deltas@, index as int);
        }
        if !facts.valid {
            return Err(BatchProblem::InvalidDelta(facts.block.number));
        }
        let linked = match parent {
            Some(hash) => facts.block.parent_hash == hash,
            None => true,
        };
        if facts.chain_id != first.chain_id || facts.block.number.0 != first.block.number.0
            + index as u64 || !linked {
            return Err(BatchProblem::NotContiguous);
        }
        let encoded = deltas[index].encoded.as_slice();
        logical_bytes =
        match logical_bytes.checked_add(encoded.len() as u64) {
            Some(total) => total,
            None => {
                return Err(BatchProblem::BytesOverflow);
            },
        };
        hash_record(&mut records, encoded);
        parent = Some(facts.block.hash);
        index += 1;
    }
    let records_checksum: [u8; 32] = hasher_finalize(&records);
    proof {
        assert(deltas@.take(deltas@.len() as int) =~= deltas@);
    }
    Ok(
        ValidatedBatch {
            range,
            chain_id: first.chain_id,
            first_hash: first.block.hash,
            last_hash: last.block.hash,
            logical_bytes,
            records_checksum,
        },
    )
}

/// The writer after the deltas from `index` on, or the first refusal.
pub open spec fn appended(
    view: ArtifactWriterView,
    deltas: Seq<BatchDelta>,
    index: int,
) -> Result<ArtifactWriterView, ArtifactSegmentError>
    decreases deltas.len() - index,
{
    if index >= deltas.len() {
        Ok(view)
    } else {
        let delta = deltas[index];
        match view.refusal(delta.facts, delta.encoded@) {
            Some(error) => Err(error),
            None => appended(
                view.after(
                    delta.facts,
                    delta.encoded@,
                    view.compression.stored(delta.encoded@)->0,
                ),
                deltas,
                index + 1,
            ),
        }
    }
}

/// The writer that holds a whole batch, or why it cannot be written.
pub open spec fn written_batch(
    descriptor: DescriptorView,
    compression: ArtifactCompression,
    limits: ArtifactSegmentLimits,
    deltas: Seq<BatchDelta>,
) -> Result<ArtifactWriterView, ArtifactSegmentError> {
    if !limits.wf() {
        Err(ArtifactSegmentError::InvalidLimits)
    } else {
        match descriptor.encoded() {
            None => Err(ArtifactSegmentError::Encoding),
            Some(descriptor_bytes) => if descriptor_bytes.len() > u32::MAX {
                Err(ArtifactSegmentError::Numeric("descriptor bytes"))
            } else {
                match appended(
                    ArtifactWriterView {
                        descriptor,
                        descriptor_bytes,
                        compression,
                        limits,
                        entries: Seq::empty(),
                        payload: Seq::empty(),
                        records: Seq::empty(),
                    },
                    deltas,
                    0,
                ) {
                    Err(error) => Err(error),
                    Ok(view) => if view.complete() {
                        Ok(view)
                    } else {
                        Err(
                            ArtifactSegmentError::Incomplete {
                                expected: descriptor.range.spec_len(),
                                observed: sat(view.entries.len() as int),
                            },
                        )
                    },
                }
            },
        }
    }
}

/// A whole segment file with its metadata.
#[derive(Debug)]
pub struct WrittenSegment {
    pub file: Vec<u8>,
    pub metadata: ArtifactSegmentMetadata,
}

/// Writes a batch as one closed segment file.
pub fn write_segment(
    processor: &ProcessorContract,
    batch: &ValidatedBatch,
    deltas: &[BatchDelta],
    compression: ArtifactCompression,
    limits: ArtifactSegmentLimits,
) -> (outcome: Result<WrittenSegment, ArtifactSegmentError>)
    requires
        batch.range.wf(),
    ensures
        match (
            outcome,
            written_batch(
                DescriptorView {
                    contract: processor@,
                    chain_id: batch.chain_id,
                    range: batch.range,
                },
                compression,
                limits,
                deltas@,
            ),
        ) {
            (Ok(written), Ok(view)) => {
                &&& view.wf()
                &&& view.complete()
                &&& written.file@ == artifact_file(view)
                &&& written.metadata@ == written_metadata(view)
            },
            (Err(error), Err(expected)) => error == expected,
            _ => false,
        },
{
    let mut writer = ArtifactSegmentWriter::create(
        processor,
        batch.chain_id,
        batch.range,
        compression,
        limits,
    )?;
    let mut file: Vec<u8> = writer.header();
    let mut directory: Vec<u8> = Vec::new();
    let ghost start = writer@;
    let mut index: usize = 0;
    proof {
        writer.lemma_inv();
        assert(file@ =~= header_bytes(start.descriptor_bytes, start.compression) + start.payload);
    }
    while index < deltas.len()
        invariant
            index <= deltas@.len(),
            writer.inv(),
            writer@.descriptor == start.descriptor,
            writer@.descriptor_bytes == start.descriptor_bytes,
            writer@.compression == start.compression,
            file@ == header_bytes(writer@.descriptor_bytes, writer@.compression) + writer@.payload,
            directory@ == directory_bytes(writer@.entries),
            appended(start, deltas@, 0) == appended(writer@, deltas@, index as int),
            start.descriptor == (DescriptorView {
                contract: processor@,
                chain_id: batch.chain_id,
                range: batch.range,
            }),
            start.descriptor.encoded() == Some(start.descriptor_bytes),
            start.descriptor_bytes.len() <= u32::MAX,
            start == (ArtifactWriterView {
                descriptor: start.descriptor,
                descriptor_bytes: start.descriptor_bytes,
                compression,
                limits,
                entries: Seq::empty(),
                payload: Seq::empty(),
                records: Seq::empty(),
            }),
            limits.wf(),
        decreases deltas@.len() - index,
    {
        let delta = &deltas[index];
        let ghost before = writer@;
        let record = writer.append(&delta.facts, delta.encoded.as_slice())?;
        push_bytes(&mut file, record.stored.as_slice());
        push_bytes(&mut directory, record.entry.as_slice());
        proof {
            let header = header_bytes(before.descriptor_bytes, before.compression);
            assert(file@ =~= header + (before.payload + record.stored@));
            assert(writer@.entries.drop_last() =~= before.entries);
        }
        index += 1;
    }
    let ghost view = writer@;
    proof {
        writer.lemma_inv();
    }
    let closed = writer.finish(directory.as_slice())?;
    let ghost opening = file@;
    push_bytes(&mut file, closed.closing.as_slice());
    let total: usize = file.len();
    proof {
        lemma_directory_layout(view.entries);
        assert(total == opening.len() + closed.closing@.len());
        assert(artifact_file(view).len() == total);
        assert(file@ =~= artifact_file(view));
    }
    Ok(WrittenSegment { file, metadata: closed.metadata })
}

} // verus!
