//! Opening, slicing and streaming planned chunks, and lookups by hash.

use crate::frame::{BlockFrame, Material};
use crate::history::catalog::{first_closed, BlockHashLocator, HistoryStore, TransactionLocator};
use crate::history::error::HistoryStoreError;
use crate::history::job::normal_list;
use crate::history::layout::{SegmentDescriptor, SegmentId};
use crate::history::lookups::{
    block_hits, transaction_hits, RankedBlock, RankedTransaction,
};
use crate::history::segment::SegmentMetadata;
use crate::history::source::{
    retained_schema_version, source_store_error, RetainedHistorySource,
    RetainedHistorySourceStats,
};
use crate::history::source_plan::{
    encode_partition, encode_text, parse_partition, partition_decoded, partition_encoded,
    read_partition, text_encoded, PartitionView, RetainedPartition,
};
use crate::primitives::{
    BlockHash, BlockNumber, BlockRange, CapabilitySet, ChainId, TransactionHash,
};
use crate::request::{SourceBudget, SourceChunk, SourceError};
use crate::text::same_text;
use vstd::prelude::*;

verus! {

/// What keeps a chunk from being sliced.
pub open spec fn slice_problem(chunk: SourceChunk, range: BlockRange) -> Option<SourceError> {
    if range.start.0 < chunk.range.start.0 || range.end.0 > chunk.range.end.0 {
        Some(SourceError::InvalidPlan("retained segment slice exceeds its planned chunk"))
    } else if parse_partition(chunk.partition@) is None {
        Some(SourceError::InvalidPlan("retained chunk carries no retained partition"))
    } else {
        None
    }
}

/// What keeps a chunk from being opened, before its segment is looked at.
pub open spec fn chunk_problem(
    source_id: Seq<char>,
    chunk: SourceChunk,
    budget: SourceBudget,
) -> Option<SourceError> {
    if !budget.wf() {
        Some(SourceError::InvalidPlan("source budget limits must be non-zero"))
    } else if chunk.source_id@ != source_id || chunk.schema_version@
        != retained_schema_version()@ {
        Some(SourceError::InvalidPlan("retained chunk identity does not match this source"))
    } else {
        match parse_partition(chunk.partition@) {
            None => Some(
                SourceError::InvalidPlan("retained chunk carries no retained partition"),
            ),
            Some(partition) => if partition.range != chunk.range {
                Some(SourceError::InvalidPlan("retained partition range differs from its chunk"))
            } else if chunk.range.spec_len() > budget.max_frames {
                Some(
                    SourceError::BudgetExceeded {
                        resource: "frames",
                        limit: budget.max_frames,
                        observed: chunk.range.spec_len(),
                    },
                )
            } else {
                None
            },
        }
    }
}

impl RetainedHistorySource {
    /// Chunks of the same segment share an identity; a chunk of another kind
    /// is its own.
    pub fn coalescing_partition_identity(&self, chunk: &SourceChunk) -> (identity: Vec<u8>)
        ensures
            identity@ == (match parse_partition(chunk.partition@) {
                Some(partition) => text_encoded(partition.segment),
                None => chunk.partition@,
            }),
    {
        match read_partition(chunk.partition.as_slice()) {
            Some(partition) => encode_text(partition.segment_id.as_str()),
            None => {
                let mut identity: Vec<u8> = Vec::new();
                crate::bytes::push_bytes(&mut identity, chunk.partition.as_slice());
                assert(identity@ =~= chunk.partition@);
                identity
            },
        }
    }

    /// Narrows a planned chunk to a part of its range.
    pub fn slice_chunk(&self, chunk: &SourceChunk, range: BlockRange) -> (outcome: Result<
        SourceChunk,
        SourceError,
    >)
        ensures
            match outcome {
                Ok(sliced) => {
                    let partition = parse_partition(chunk.partition@)->0;
                    &&& slice_problem(*chunk, range) is None
                    &&& sliced.source_id == chunk.source_id
                    &&& sliced.range == range
                    &&& sliced.partition@ == partition_encoded(
                        partition.segment,
                        range.start.0,
                        range.end.0,
                    )
                    &&& partition_decoded(sliced.partition@) == Some(
                        (partition.segment, range.start.0, range.end.0),
                    )
                    &&& sliced.schema_version == chunk.schema_version
                    &&& sliced.expected_parent is None
                    &&& sliced.estimated_bytes is None
                },
                Err(error) => Some(error) == slice_problem(*chunk, range),
            },
    {
        if range.start.0 < chunk.range.start.0 || range.end.0 > chunk.range.end.0 {
            return Err(
                SourceError::InvalidPlan("retained segment slice exceeds its planned chunk"),
            );
        }
        match read_partition(chunk.partition.as_slice()) {
            Some(partition) => Ok(
                SourceChunk {
                    source_id: chunk.source_id.clone(),
                    range,
                    partition: encode_partition(
                        partition.segment_id.as_str(),
                        range.start.0,
                        range.end.0,
                    ),
                    schema_version: chunk.schema_version.clone(),
                    expected_parent: None,
                    estimated_bytes: None,
                },
            ),
            None => Err(SourceError::InvalidPlan("retained chunk carries no retained partition")),
        }
    }

    /// The segment that a chunk is to be read from.
    pub fn resolve_chunk(&self, chunk: &SourceChunk, budget: SourceBudget) -> (outcome: Result<
        SegmentId,
        SourceError,
    >)
        ensures
            match outcome {
                Ok(segment) => {
                    &&& chunk_problem(self.descriptor.id@, *chunk, budget) is None
                    &&& parse_partition(chunk.partition@) == Some(
                        PartitionView { segment: segment@, range: chunk.range },
                    )
                },
                Err(error) => Some(error) == chunk_problem(self.descriptor.id@, *chunk, budget),
            },
    {
        budget.validate()?;
        if !same_text(chunk.source_id.as_str(), self.descriptor.id.as_str()) || !same_text(
            chunk.schema_version.as_str(),
            "retained-raw-segment.v1",
        ) {
            return Err(
                SourceError::InvalidPlan("retained chunk identity does not match this source"),
            );
        }
        let partition: RetainedPartition = match read_partition(chunk.partition.as_slice()) {
            Some(partition) => partition,
            None => {
                return Err(
                    SourceError::InvalidPlan("retained chunk carries no retained partition"),
                );
            },
        };
        if partition.range != chunk.range {
            return Err(SourceError::InvalidPlan("retained partition range differs from its chunk"));
        }
        if chunk.range.len() > budget.max_frames {
            return Err(
                SourceError::BudgetExceeded {
                    resource: "frames",
                    limit: budget.max_frames,
                    observed: chunk.range.len(),
                },
            );
        }
        Ok(partition.segment_id)
    }

    /// A segment that still holds all of a chunk.
    pub open spec fn still_serves(self, descriptor: SegmentDescriptor, range: BlockRange) -> bool {
        &&& descriptor.chain_id == self.config.chain_id
        &&& descriptor.material_shape == self.config.material_shape
        &&& descriptor.range.start.0 <= range.start.0
        &&& descriptor.range.end.0 >= range.end.0
    }

    /// Starts to stream a chunk from the segment that it was planned on.
    pub fn open(&mut self, metadata: &SegmentMetadata, chunk: &SourceChunk, budget: SourceBudget) -> (
        outcome: Result<RetainedStream, SourceError>)
        requires
            chunk.range.wf(),
        ensures
            final(self).config == old(self).config,
            final(self).descriptor == old(self).descriptor,
            match outcome {
                Ok(stream) => {
                    &&& old(self).still_serves(metadata.descriptor, chunk.range)
                    &&& stream == (RetainedStream {
                        next: Some(chunk.range.start.0),
                        end: chunk.range.end.0,
                        budget,
                        input_bytes: 0,
                    })
                    &&& final(self).stats == (RetainedHistorySourceStats {
                        segment_opens: crate::history::source::wrapped(
                            old(self).stats.segment_opens,
                            1,
                        ),
                        ..old(self).stats
                    })
                },
                Err(error) => {
                    &&& !old(self).still_serves(metadata.descriptor, chunk.range)
                    &&& error == SourceError::InvalidPlan(
                        "retained segment no longer satisfies its planned chunk",
                    )
                    &&& final(self).stats == old(self).stats
                },
            },
    {
        let descriptor: &SegmentDescriptor = &metadata.descriptor;
        if descriptor.chain_id != self.config.chain_id || descriptor.material_shape
            != self.config.material_shape || descriptor.range.start.0 > chunk.range.start.0
            || descriptor.range.end.0 < chunk.range.end.0 {
            return Err(
                SourceError::InvalidPlan("retained segment no longer satisfies its planned chunk"),
            );
        }
        self.stats.opened();
        Ok(
            RetainedStream {
                next: Some(chunk.range.start.0),
                end: chunk.range.end.0,
                budget,
                input_bytes: 0,
            },
        )
    }

    /// The first locator of a block whose segment a lookup may read, among
    /// those of the chain and the hash. A chain that no column can hold is
    /// refused.
    pub fn block_lookup(
        &self,
        store: &HistoryStore,
        chain_id: ChainId,
        hash: BlockHash,
        required: CapabilitySet,
    ) -> (outcome: Result<Option<BlockHashLocator>, SourceError>)
        ensures
            if chain_id != self.config.chain_id {
                outcome matches Ok(found) && found is None
            } else if chain_id.0 > i64::MAX {
                outcome == Err::<Option<BlockHashLocator>, SourceError>(
                    SourceError::CorruptStore(HistoryStoreError::NumericRange("chain ID")),
                )
            } else {
                outcome matches Ok(found) && exists|hits: Seq<RankedBlock>|
                    #[trigger] normal_list(
                        block_hits(*store, chain_id, hash, store.block_locators@.len() as int),
                        hits,
                    ) && match (found, self.first_block(*store, hits, required, 0)) {
                        (Some(locator), Some(at)) => locator == hits[at].locator,
                        (None, None) => true,
                        _ => false,
                    }
            },
    {
        if chain_id != self.config.chain_id {
            return Ok(None);
        }
        let hits: Vec<RankedBlock> = match store.block_hash_locators(chain_id, hash) {
            Ok(hits) => hits,
            Err(error) => return Err(source_store_error(error)),
        };
        let ghost all = hits@;
        let mut index: usize = 0;
        let mut found: Option<BlockHashLocator> = None;
        while index < hits.len()
            invariant_except_break
                found is None,
            invariant
                index <= hits@.len(),
                all == hits@,
                found is None ==> self.first_block(*store, all, required, 0) == self.first_block(
                    *store,
                    all,
                    required,
                    index as int,
                ),
            ensures
                match (found, self.first_block(*store, all, required, 0)) {
                    (Some(locator), Some(at)) => locator == all[at].locator,
                    (None, None) => true,
                    _ => false,
                },
            decreases hits@.len() - index,
        {
            if let Some(record) = store.segment(&hits[index].locator.segment_id) {
                if self.compatible_lookup_segment(record, required) {
                    found = Some(
                        BlockHashLocator {
                            segment_id: hits[index].locator.segment_id.clone(),
                            block_number: hits[index].locator.block_number,
                        },
                    );
                    break;
                }
            }
            index += 1;
        }
        Ok(found)
    }

    /// The first hit in a segment that a lookup may read, from `from` on.
    pub open spec fn first_block(
        self,
        store: HistoryStore,
        hits: Seq<RankedBlock>,
        required: CapabilitySet,
        from: int,
    ) -> Option<int>
        decreases hits.len() - from,
    {
        if from < 0 || from >= hits.len() {
            None
        } else {
            match first_closed(store.segments@, hits[from].locator.segment_id@, 0) {
                Some(at) if self.lookup_serves(store.segments@[at].record, required) => Some(from),
                _ => self.first_block(store, hits, required, from + 1),
            }
        }
    }

    /// The first locator of a transaction whose segment a lookup may read,
    /// among those of the chain and the hash. A chain that no column can hold is
    /// refused.
    pub fn transaction_lookup(
        &self,
        store: &HistoryStore,
        chain_id: ChainId,
        hash: TransactionHash,
        required: CapabilitySet,
    ) -> (outcome: Result<Option<TransactionLocator>, SourceError>)
        ensures
            if chain_id != self.config.chain_id {
                outcome matches Ok(found) && found is None
            } else if chain_id.0 > i64::MAX {
                outcome == Err::<Option<TransactionLocator>, SourceError>(
                    SourceError::CorruptStore(HistoryStoreError::NumericRange("chain ID")),
                )
            } else {
                outcome matches Ok(found) && exists|hits: Seq<RankedTransaction>|
                    #[trigger] normal_list(
                        transaction_hits(
                            *store,
                            chain_id,
                            hash,
                            store.transaction_locators@.len() as int,
                        ),
                        hits,
                    ) && match (found, self.first_transaction(*store, hits, required, 0)) {
                        (Some(locator), Some(at)) => locator == hits[at].locator,
                        (None, None) => true,
                        _ => false,
                    }
            },
    {
        if chain_id != self.config.chain_id {
            return Ok(None);
        }
        let hits: Vec<RankedTransaction> = match store.transaction_locators(chain_id, hash) {
            Ok(hits) => hits,
            Err(error) => return Err(source_store_error(error)),
        };
        let ghost all = hits@;
        let mut index: usize = 0;
        let mut found: Option<TransactionLocator> = None;
        while index < hits.len()
            invariant_except_break
                found is None,
            invariant
                index <= hits@.len(),
                all == hits@,
                found is None ==> self.first_transaction(*store, all, required, 0)
                    == self.first_transaction(*store, all, required, index as int),
            ensures
                match (found, self.first_transaction(*store, all, required, 0)) {
                    (Some(locator), Some(at)) => locator == all[at].locator,
                    (None, None) => true,
                    _ => false,
                },
            decreases hits@.len() - index,
        {
            if let Some(record) = store.segment(&hits[index].locator.segment_id) {
                if self.compatible_lookup_segment(record, required) {
                    found = Some(
                        TransactionLocator {
                            segment_id: hits[index].locator.segment_id.clone(),
                            block_number: hits[index].locator.block_number,
                            transaction_index: hits[index].locator.transaction_index,
                        },
                    );
                    break;
                }
            }
            index += 1;
        }
        Ok(found)
    }

    /// The first hit in a segment that a lookup may read, from `from` on.
    pub open spec fn first_transaction(
        self,
        store: HistoryStore,
        hits: Seq<RankedTransaction>,
        required: CapabilitySet,
        from: int,
    ) -> Option<int>
        decreases hits.len() - from,
    {
        if from < 0 || from >= hits.len() {
            None
        } else {
            match first_closed(store.segments@, hits[from].locator.segment_id@, 0) {
                Some(at) if self.lookup_serves(store.segments@[at].record, required) => Some(from),
                _ => self.first_transaction(store, hits, required, from + 1),
            }
        }
    }
}

/// Refuses a frame that a block-hash locator led to but that is another
/// block.
pub fn check_located_block(frame: &BlockFrame, hash: BlockHash) -> (outcome: Result<
    (),
    SourceError,
>)
    ensures
        outcome == (if frame.block.hash == hash {
            Ok::<(), SourceError>(())
        } else {
            Err(SourceError::CorruptFrame("block-hash locator conflicts with retained frame"))
        }),
{
    if frame.block.hash != hash {
        return Err(SourceError::CorruptFrame("block-hash locator conflicts with retained frame"));
    }
    Ok(())
}

/// The frame has this transaction at this index, among all of its
/// transactions.
pub open spec fn holds_transaction(frame: BlockFrame, index: u32, hash: TransactionHash) -> bool {
    match frame.transactions {
        Material::Complete(transactions) => index < transactions@.len()
            && transactions@[index as int].hash == hash,
        _ => false,
    }
}

/// Refuses a frame that a transaction locator led to but that does not hold
/// the transaction there.
pub fn check_located_transaction(frame: &BlockFrame, index: u32, hash: TransactionHash) -> (
    outcome: Result<(), SourceError>)
    ensures
        outcome == (if holds_transaction(*frame, index, hash) {
            Ok::<(), SourceError>(())
        } else {
            Err(SourceError::CorruptFrame("transaction locator conflicts with retained frame"))
        }),
{
    let found = match &frame.transactions {
        Material::Complete(transactions) => (index as usize) < transactions.len()
            && transactions[index as usize].hash == hash,
        _ => false,
    };
    if !found {
        return Err(SourceError::CorruptFrame("transaction locator conflicts with retained frame"));
    }
    Ok(())
}

/// A chunk that is being streamed: the next height, and what has been read.
#[derive(Clone, Copy, Debug, PartialEq, Eq, Structural)]
pub struct RetainedStream {
    pub next: Option<u64>,
    pub end: u64,
    pub budget: SourceBudget,
    pub input_bytes: u64,
}

/// What a stream does next.
#[derive(Clone, Copy, Debug, PartialEq, Eq, Structural)]
pub enum StreamStep {
    /// All heights have been streamed, or an error has ended the stream.
    Done,
    /// The caller has cancelled; the stream ends with that.
    Cancelled,
    /// This height is to be read.
    Read(BlockNumber),
}

/// Why a record does not fit the budget, given what was read before.
pub open spec fn record_refusal(stream: RetainedStream, logical: u64) -> Option<SourceError> {
    if logical > stream.budget.max_frame_bytes {
        Some(
            SourceError::BudgetExceeded {
                resource: "frame_bytes",
                limit: stream.budget.max_frame_bytes,
                observed: logical,
            },
        )
    } else if stream.input_bytes + logical > stream.budget.max_input_bytes {
        Some(
            SourceError::BudgetExceeded {
                resource: "input_bytes",
                limit: stream.budget.max_input_bytes,
                observed: if stream.input_bytes + logical > u64::MAX {
                    u64::MAX
                } else {
                    (stream.input_bytes + logical) as u64
                },
            },
        )
    } else {
        None
    }
}

impl RetainedStream {
    /// The heights that are left do not pass the end.
    pub open spec fn wf(self) -> bool {
        self.next matches Some(next) ==> next <= self.end
    }

    /// Decides what comes next.
    pub fn step(&mut self, cancelled: bool) -> (step: StreamStep)
        requires
            old(self).wf(),
        ensures
            final(self).wf(),
            match old(self).next {
                None => step == StreamStep::Done && *final(self) == *old(self),
                Some(next) => if cancelled {
                    step == StreamStep::Cancelled && *final(self) == (RetainedStream {
                        next: None,
                        ..*old(self)
                    })
                } else {
                    step == StreamStep::Read(BlockNumber(next)) && *final(self) == *old(self)
                },
            },
    {
        match self.next {
            None => StreamStep::Done,
            Some(next) => {
                if cancelled {
                    self.next = None;
                    StreamStep::Cancelled
                } else {
                    StreamStep::Read(BlockNumber(next))
                }
            },
        }
    }

    /// Ends the stream, after a record that could not be read.
    pub fn fail(&mut self)
        ensures
            *final(self) == (RetainedStream { next: None, ..*old(self) }),
    {
        self.next = None;
    }

    /// Takes a record that was read, or ends the stream where it does not fit
    /// the budget.
    pub fn accept(&mut self, stored: u64, logical: u64, stats: &mut RetainedHistorySourceStats) -> (
        outcome: Result<(), SourceError>)
        requires
            old(self).wf(),
            old(self).next is Some,
        ensures
            final(self).wf(),
            match record_refusal(*old(self), logical) {
                Some(error) => {
                    &&& outcome == Err::<(), SourceError>(error)
                    &&& *final(self) == (RetainedStream { next: None, ..*old(self) })
                    &&& *final(stats) == *old(stats)
                },
                None => {
                    &&& outcome is Ok
                    &&& *final(self) == (RetainedStream {
                        next: if old(self).next->0 == old(self).end {
                            None
                        } else {
                            Some((old(self).next->0 + 1) as u64)
                        },
                        input_bytes: (old(self).input_bytes + logical) as u64,
                        ..*old(self)
                    })
                    &&& *final(stats) == (RetainedHistorySourceStats {
                        record_reads: crate::history::source::wrapped(
                            old(stats).record_reads,
                            1,
                        ),
                        stored_record_bytes: crate::history::source::wrapped(
                            old(stats).stored_record_bytes,
                            stored,
                        ),
                        decompressed_bytes: crate::history::source::wrapped(
                            old(stats).decompressed_bytes,
                            logical,
                        ),
                        ..*old(stats)
                    })
                },
            },
    {
        if logical > self.budget.max_frame_bytes {
            self.next = None;
            return Err(
                SourceError::BudgetExceeded {
                    resource: "frame_bytes",
                    limit: self.budget.max_frame_bytes,
                    observed: logical,
                },
            );
        }
        let observed: u64 = match self.input_bytes.checked_add(logical) {
            Some(bytes) => bytes,
            None => {
                self.next = None;
                return Err(
                    SourceError::BudgetExceeded {
                        resource: "input_bytes",
                        limit: self.budget.max_input_bytes,
                        observed: u64::MAX,
                    },
                );
            },
        };
        if observed > self.budget.max_input_bytes {
            self.next = None;
            return Err(
                SourceError::BudgetExceeded {
                    resource: "input_bytes",
                    limit: self.budget.max_input_bytes,
                    observed,
                },
            );
        }
        self.input_bytes = observed;
        stats.read(stored, logical);
        if let Some(next) = self.next {
            self.next = if next == self.end {
                None
            } else {
                Some(next + 1)
            };
        }
        Ok(())
    }
}

} // verus!
