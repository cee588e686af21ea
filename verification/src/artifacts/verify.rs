//! Full verification of segments: every record, the links between blocks, and
//! the ordered checksum.

use crate::artifacts::batch::BatchDelta;
use crate::artifacts::scan::{goes_on, SegmentChain};
use crate::artifacts::segment::{
    parse_artifact_file, read_artifact, record_stream, ArtifactRecord, ArtifactSegmentError,
    ArtifactSegmentReader, DeltaFacts, MetadataView, ProcessorContract,
};
use crate::artifacts::sink::{ArtifactSinkError, EntryView, SegmentEntry};
use crate::artifacts::writer::ArtifactVerifier;
use crate::digest::blake3_digest;
use crate::primitives::{BlockHash, BlockNumber, BlockRange};
use vstd::prelude::*;

verus! {

/// The delta that decoding the record at a place gave, if it gave one.
pub open spec fn decoded_at(deltas: Seq<Option<BatchDelta>>, index: int) -> Option<BatchDelta> {
    if 0 <= index < deltas.len() {
        deltas[index]
    } else {
        None
    }
}

/// The first fault of one record: it cannot be read, it holds no delta of the
/// processor, or its delta is not the one that the directory names.
pub open spec fn record_fault(
    metadata: MetadataView,
    directory_offset: u64,
    file: Seq<u8>,
    deltas: Seq<Option<BatchDelta>>,
    block: BlockNumber,
) -> Option<ArtifactSegmentError> {
    match read_artifact(metadata, directory_offset, file, block) {
        Err(error) => Some(error),
        Ok((entry, _)) => match decoded_at(
            deltas,
            block.0 - metadata.descriptor.range.start.0,
        ) {
            None => Some(ArtifactSegmentError::Delta),
            Some(delta) => if !delta.facts.valid {
                Some(ArtifactSegmentError::Delta)
            } else if delta.facts.block.number != block || delta.facts.block.hash
                != entry.block_hash || delta.facts.checksum != entry.delta_checksum
                || delta.facts.chain_id != metadata.descriptor.chain_id {
                Some(ArtifactSegmentError::RecordIdentity(block))
            } else {
                None
            },
        },
    }
}

/// The first fault of the records from place `from` on, where `previous` is
/// the block before.
pub open spec fn records_fault(
    metadata: MetadataView,
    directory_offset: u64,
    file: Seq<u8>,
    deltas: Seq<Option<BatchDelta>>,
    from: int,
    previous: Option<BlockHash>,
) -> Option<ArtifactSegmentError>
    decreases block_count(metadata.descriptor.range) - from,
{
    let block = BlockNumber((metadata.descriptor.range.start.0 + from) as u64);
    if from < 0 || from >= block_count(metadata.descriptor.range) {
        None
    } else {
        let fault = record_fault(metadata, directory_offset, file, deltas, block);
        let facts = deltas[from]->0.facts;
        if fault is Some {
            fault
        } else if previous is Some && facts.block.parent_hash != previous->0 {
            Some(ArtifactSegmentError::ParentLink(block))
        } else {
            records_fault(
                metadata,
                directory_offset,
                file,
                deltas,
                from + 1,
                Some(facts.block.hash),
            )
        }
    }
}

/// The blocks of a range.
pub open spec fn block_count(range: BlockRange) -> int {
    if range.start.0 <= range.end.0 {
        range.end.0 - range.start.0 + 1
    } else {
        0
    }
}

/// The encodings of the first `count` deltas.
pub open spec fn decoded_records(deltas: Seq<Option<BatchDelta>>, count: int) -> Seq<Seq<u8>> {
    Seq::new(count as nat, |i: int| deltas[i]->0.encoded@)
}

/// The first fault of a segment as a whole.
pub open spec fn segment_fault(
    metadata: MetadataView,
    directory_offset: u64,
    file: Seq<u8>,
    deltas: Seq<Option<BatchDelta>>,
) -> Option<ArtifactSegmentError> {
    let fault = records_fault(metadata, directory_offset, file, deltas, 0, None);
    if fault is Some {
        fault
    } else if blake3_digest(
        record_stream(decoded_records(deltas, block_count(metadata.descriptor.range))),
    ) != metadata.records_checksum {
        Some(ArtifactSegmentError::RecordsChecksum)
    } else {
        None
    }
}

impl ArtifactSegmentReader {
    /// Reads the record of a block and holds its delta to the directory.
    /// `deltas` has what decoding each record of the segment gave.
    pub fn checked_delta(
        &self,
        file: &[u8],
        deltas: &Vec<Option<BatchDelta>>,
        block: BlockNumber,
    ) -> (outcome: Result<DeltaFacts, ArtifactSegmentError>)
        ensures
            match outcome {
                Ok(facts) => {
                    let index = block.0 - self.spec_metadata().descriptor.range.start.0;
                    &&& record_fault(
                        self.spec_metadata(),
                        self.spec_directory_offset(),
                        file@,
                        deltas@,
                        block,
                    ) is None
                    &&& 0 <= index < deltas@.len()
                    &&& deltas@[index] is Some
                    &&& facts == deltas@[index]->0.facts
                },
                Err(error) => record_fault(
                    self.spec_metadata(),
                    self.spec_directory_offset(),
                    file@,
                    deltas@,
                    block,
                ) == Some(error),
            },
    {
        let record: ArtifactRecord = self.read(file, block)?;
        let start: BlockNumber = self.metadata().descriptor.range.start;
        let index: u64 = block.0 - start.0;
        if index >= deltas.len() as u64 {
            return Err(ArtifactSegmentError::Delta);
        }
        match &deltas[index as usize] {
            None => Err(ArtifactSegmentError::Delta),
            Some(delta) => {
                self.verify_delta(&record, &delta.facts)?;
                Ok(delta.facts)
            },
        }
    }

    /// Verifies every record, every link between blocks, and the ordered
    /// checksum. `deltas` has what decoding each record of the segment gave.
    pub fn verify(&self, file: &[u8], deltas: &Vec<Option<BatchDelta>>) -> (outcome: Result<
        (),
        ArtifactSegmentError,
    >)
        ensures
            outcome == (match segment_fault(
                self.spec_metadata(),
                self.spec_directory_offset(),
                file@,
                deltas@,
            ) {
                Some(error) => Err::<(), ArtifactSegmentError>(error),
                None => Ok(()),
            }),
    {
        let range: BlockRange = self.metadata().descriptor.range;
        let ghost metadata = self.spec_metadata();
        let ghost offset = self.spec_directory_offset();
        let mut verifier = ArtifactVerifier::new();
        let mut number: u64 = range.start.0;
        let mut more: bool = range.start.0 <= range.end.0;
        let mut index: usize = 0;
        assert(verifier.seen() =~= decoded_records(deltas@, 0));
        while more
            invariant
                range == metadata.descriptor.range,
                metadata == self.spec_metadata(),
                offset == self.spec_directory_offset(),
                verifier.inv(),
                index <= deltas@.len(),
                0 <= index <= block_count(range),
                more == (index < block_count(range)),
                more ==> number == range.start.0 + index,
                verifier.seen() == decoded_records(deltas@, index as int),
                segment_fault(metadata, offset, file@, deltas@) == (if records_fault(
                    metadata,
                    offset,
                    file@,
                    deltas@,
                    index as int,
                    verifier.spec_previous(),
                ) is Some {
                    records_fault(
                        metadata,
                        offset,
                        file@,
                        deltas@,
                        index as int,
                        verifier.spec_previous(),
                    )
                } else if blake3_digest(
                    record_stream(decoded_records(deltas@, block_count(range))),
                ) != metadata.records_checksum {
                    Some(ArtifactSegmentError::RecordsChecksum)
                } else {
                    None
                }),
            decreases block_count(range) - index,
        {
            let block: BlockNumber = BlockNumber(number);
            let facts: DeltaFacts = self.checked_delta(file, deltas, block)?;
            match &deltas[index] {
                None => {
                    return Err(ArtifactSegmentError::Delta);
                },
                Some(delta) => {
                    verifier.step(block, &facts, delta.encoded.as_slice())?;
                },
            }
            assert(index < deltas.len());
            index += 1;
            assert(verifier.seen() =~= decoded_records(deltas@, index as int));
            if number < range.end.0 {
                number += 1;
            } else {
                more = false;
            }
        }
        verifier.finish(&self.metadata().records_checksum)
    }
}

/// The first fault of a retained segment, where `previous` tells the one
/// before.
pub open spec fn chain_fault(
    previous: Option<(BlockRange, BlockHash)>,
    contract: ProcessorContract,
    entry: EntryView,
    file: Seq<u8>,
    deltas: Seq<Option<BatchDelta>>,
) -> Option<ArtifactSinkError> {
    match parse_artifact_file(file) {
        Err(error) => Some(ArtifactSinkError::Segment(error)),
        Ok(parsed) => {
            let metadata = parsed.metadata;
            let offset = parsed.directory_offset;
            let start = metadata.descriptor.range.start.0;
            let first = record_fault(metadata, offset, file, deltas, entry.range.start);
            let last = record_fault(metadata, offset, file, deltas, entry.range.end);
            let fault = segment_fault(metadata, offset, file, deltas);
            if metadata.descriptor.contract != contract@ {
                Some(ArtifactSinkError::Segment(ArtifactSegmentError::Contract))
            } else if first is Some {
                Some(ArtifactSinkError::Segment(first->0))
            } else if last is Some {
                Some(ArtifactSinkError::Segment(last->0))
            } else if !goes_on(
                previous,
                entry,
                deltas[entry.range.start.0 - start]->0.facts,
                deltas[entry.range.end.0 - start]->0.facts,
            ) {
                Some(ArtifactSinkError::CoverageGap(entry.range.start))
            } else if fault is Some {
                Some(ArtifactSinkError::Segment(fault->0))
            } else {
                None
            }
        },
    }
}

impl SegmentChain {
    /// Verifies the next segment of an instance: it is of the contract, goes
    /// on from the one before, and is sound as a whole.
    pub fn verify(
        &mut self,
        contract: &ProcessorContract,
        entry: &SegmentEntry,
        file: &[u8],
        deltas: &Vec<Option<BatchDelta>>,
    ) -> (outcome: Result<(), ArtifactSinkError>)
        ensures
            match chain_fault(old(self).previous, *contract, entry@, file@, deltas@) {
                Some(error) => {
                    &&& outcome == Err::<(), ArtifactSinkError>(error)
                    &&& *final(self) == *old(self)
                },
                None => {
                    &&& outcome == Ok::<(), ArtifactSinkError>(())
                    &&& final(self).previous == Some((entry.range, entry.last_hash))
                },
            },
    {
        let reader: ArtifactSegmentReader = match ArtifactSegmentReader::open(file, contract) {
            Ok(reader) => reader,
            Err(error) => {
                return Err(ArtifactSinkError::Segment(error));
            },
        };
        let first: DeltaFacts = match reader.checked_delta(file, deltas, entry.range.start) {
            Ok(facts) => facts,
            Err(error) => {
                return Err(ArtifactSinkError::Segment(error));
            },
        };
        let last: DeltaFacts = match reader.checked_delta(file, deltas, entry.range.end) {
            Ok(facts) => facts,
            Err(error) => {
                return Err(ArtifactSinkError::Segment(error));
            },
        };
        let mut after: SegmentChain = *self;
        after.step(entry, &first, &last)?;
        match reader.verify(file, deltas) {
            Ok(()) => {
                *self = after;
                Ok(())
            },
            Err(error) => Err(ArtifactSinkError::Segment(error)),
        }
    }
}

} // verus!
