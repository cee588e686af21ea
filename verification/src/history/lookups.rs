//! Ordered listings of the catalog, lookups by hash, and what it amounts to.

use crate::bytes::{be64, push_bytes, push_u64};
use crate::history::catalog::{
    first_closed, reserved_logical, reserved_physical, retained_logical, retained_physical,
    BlockHashLocator, BlockLocatorRow, DiskUsage, HistoryStore, HistoryStoreStats, SegmentOwner,
    StorageBudget, StoredSegment, TransactionLocator, TransactionLocatorRow,
};
use crate::history::error::{CatalogProblem, HistoryStoreError};
use crate::history::job::normal_list;
use crate::history::layout::SegmentId;
use crate::history::paths::{is_segment_path, resolve_relative_path};
use crate::history::rows::{ensure_metadata_matches, SegmentOwnerKind, SegmentRecord};
use crate::history::segment::{parse_segment_file, SegmentReader};
use crate::order::{sort_dedup, Keyed};
use crate::primitives::{BlockHash, ChainId, TransactionHash};
use vstd::prelude::*;
use vstd::utf8::encode_utf8;

verus! {

/// Records are ordered by chain, range and name.
impl Keyed for SegmentRecord {
    open spec fn key(&self) -> Seq<u8> {
        be64(self.metadata.descriptor.chain_id.0) + be64(self.metadata.descriptor.range.start.0)
            + be64(self.metadata.descriptor.range.end.0) + encode_utf8(self.metadata.id@)
    }

    fn key_bytes(&self) -> (bytes: Vec<u8>) {
        let mut bytes: Vec<u8> = Vec::new();
        push_u64(&mut bytes, self.metadata.descriptor.chain_id.0);
        push_u64(&mut bytes, self.metadata.descriptor.range.start.0);
        push_u64(&mut bytes, self.metadata.descriptor.range.end.0);
        push_bytes(&mut bytes, self.metadata.id.as_str().as_bytes());
        assert(bytes@ =~= self.key());
        bytes
    }
}

/// The records of the readable segments among the first `count`.
pub open spec fn closed_records(segments: Seq<StoredSegment>, count: int) -> Seq<SegmentRecord>
    decreases count,
{
    if count <= 0 {
        Seq::empty()
    } else {
        let before = closed_records(segments, count - 1);
        if segments[count - 1].deleting {
            before
        } else {
            before.push(segments[count - 1].record)
        }
    }
}

impl Clone for SegmentOwner {
    fn clone(&self) -> (copy: SegmentOwner)
        ensures
            copy == *self,
    {
        SegmentOwner {
            segment_id: self.segment_id.clone(),
            kind: self.kind,
            owner_id: self.owner_id.clone(),
            created_at_unix_ms: self.created_at_unix_ms,
        }
    }
}

impl SegmentOwnerKind {
    /// Place of the kind's text among the kinds.
    pub open spec fn text_place(self) -> u8 {
        match self {
            SegmentOwnerKind::OperatorPin => 0u8,
            SegmentOwnerKind::ProcessorJob => 1u8,
            SegmentOwnerKind::RawHistoryJob => 2u8,
        }
    }
}

/// The owners of one segment are ordered by the text of their kind, then by
/// name.
impl Keyed for SegmentOwner {
    open spec fn key(&self) -> Seq<u8> {
        seq![self.kind.text_place()] + encode_utf8(self.owner_id@)
    }

    fn key_bytes(&self) -> (bytes: Vec<u8>) {
        let mut bytes: Vec<u8> = Vec::new();
        bytes.push(
            match self.kind {
                SegmentOwnerKind::OperatorPin => 0u8,
                SegmentOwnerKind::ProcessorJob => 1u8,
                SegmentOwnerKind::RawHistoryJob => 2u8,
            },
        );
        push_bytes(&mut bytes, self.owner_id.as_str().as_bytes());
        assert(bytes@ =~= self.key());
        bytes
    }
}

/// The owners of a segment among the first `count`.
pub open spec fn owners_of(owners: Seq<SegmentOwner>, segment: Seq<char>, count: int) -> Seq<
    SegmentOwner,
>
    decreases count,
{
    if count <= 0 {
        Seq::empty()
    } else {
        let before = owners_of(owners, segment, count - 1);
        if owners[count - 1].segment_id@ == segment {
            before.push(owners[count - 1])
        } else {
            before
        }
    }
}

/// A locator with the guarantees of its segment. Stronger guarantees come
/// first, and then names decide.
#[derive(Debug)]
pub struct RankedBlock {
    pub verification: u8,
    pub trust: u8,
    pub locator: BlockHashLocator,
}

impl Keyed for RankedBlock {
    open spec fn key(&self) -> Seq<u8> {
        seq![(255 - self.verification) as u8, (255 - self.trust) as u8] + encode_utf8(
            self.locator.segment_id@,
        )
    }

    fn key_bytes(&self) -> (bytes: Vec<u8>) {
        let mut bytes: Vec<u8> = Vec::new();
        bytes.push(255 - self.verification);
        bytes.push(255 - self.trust);
        push_bytes(&mut bytes, self.locator.segment_id.as_str().as_bytes());
        assert(bytes@ =~= self.key());
        bytes
    }
}

/// A locator with the guarantees of its segment, ordered alike.
#[derive(Debug)]
pub struct RankedTransaction {
    pub verification: u8,
    pub trust: u8,
    pub locator: TransactionLocator,
}

impl Keyed for RankedTransaction {
    open spec fn key(&self) -> Seq<u8> {
        seq![(255 - self.verification) as u8, (255 - self.trust) as u8] + encode_utf8(
            self.locator.segment_id@,
        )
    }

    fn key_bytes(&self) -> (bytes: Vec<u8>) {
        let mut bytes: Vec<u8> = Vec::new();
        bytes.push(255 - self.verification);
        bytes.push(255 - self.trust);
        push_bytes(&mut bytes, self.locator.segment_id.as_str().as_bytes());
        assert(bytes@ =~= self.key());
        bytes
    }
}

/// The block locators of a hash in readable segments, among the first
/// `count`.
pub open spec fn block_hits(
    store: HistoryStore,
    chain_id: ChainId,
    hash: BlockHash,
    count: int,
) -> Seq<RankedBlock>
    decreases count,
{
    if count <= 0 {
        Seq::empty()
    } else {
        let before = block_hits(store, chain_id, hash, count - 1);
        let row = store.block_locators@[count - 1];
        match first_closed(store.segments@, row.locator.segment_id@, 0) {
            Some(at) if row.chain_id == chain_id && row.hash == hash => before.push(
                RankedBlock {
                    verification: store.segments@[at].record.metadata.descriptor.verification.spec_rank(),
                    trust: store.segments@[at].record.metadata.descriptor.trust.spec_rank(),
                    locator: row.locator,
                },
            ),
            _ => before,
        }
    }
}

/// The transaction locators of a hash in readable segments, among the first
/// `count`.
pub open spec fn transaction_hits(
    store: HistoryStore,
    chain_id: ChainId,
    hash: TransactionHash,
    count: int,
) -> Seq<RankedTransaction>
    decreases count,
{
    if count <= 0 {
        Seq::empty()
    } else {
        let before = transaction_hits(store, chain_id, hash, count - 1);
        let row = store.transaction_locators@[count - 1];
        match first_closed(store.segments@, row.locator.segment_id@, 0) {
            Some(at) if row.chain_id == chain_id && row.hash == hash => before.push(
                RankedTransaction {
                    verification: store.segments@[at].record.metadata.descriptor.verification.spec_rank(),
                    trust: store.segments@[at].record.metadata.descriptor.trust.spec_rank(),
                    locator: row.locator,
                },
            ),
            _ => before,
        }
    }
}

impl HistoryStore {
    /// Every readable segment, by chain, range and name.
    pub fn segments(&self) -> (records: Vec<SegmentRecord>)
        ensures
            normal_list(closed_records(self.segments@, self.segments@.len() as int), records@),
    {
        let mut records: Vec<SegmentRecord> = Vec::new();
        let mut index: usize = 0;
        while index < self.segments.len()
            invariant
                index <= self.segments@.len(),
                records@ == closed_records(self.segments@, index as int),
            decreases self.segments@.len() - index,
        {
            if !self.segments[index].deleting {
                records.push(self.segments[index].record.clone());
            }
            index += 1;
        }
        sort_dedup(records)
    }

    /// The owners of one segment.
    pub fn owners(&self, id: &SegmentId) -> (owners: Vec<SegmentOwner>)
        ensures
            normal_list(owners_of(self.owners@, id@, self.owners@.len() as int), owners@),
    {
        let mut owners: Vec<SegmentOwner> = Vec::new();
        let mut index: usize = 0;
        while index < self.owners.len()
            invariant
                index <= self.owners@.len(),
                owners@ == owners_of(self.owners@, id@, index as int),
            decreases self.owners@.len() - index,
        {
            if self.owners[index].segment_id.same(id) {
                owners.push(self.owners[index].clone());
            }
            index += 1;
        }
        sort_dedup(owners)
    }

    /// Where a canonical block is retained, strongest guarantees first. A
    /// chain that no column can hold is refused.
    pub fn block_hash_locators(&self, chain_id: ChainId, hash: BlockHash) -> (outcome: Result<
        Vec<RankedBlock>,
        HistoryStoreError,
    >)
        ensures
            match outcome {
                Ok(hits) => chain_id.0 <= i64::MAX && normal_list(
                    block_hits(*self, chain_id, hash, self.block_locators@.len() as int),
                    hits@,
                ),
                Err(error) => chain_id.0 > i64::MAX && error == HistoryStoreError::NumericRange(
                    "chain ID",
                ),
            },
    {
        if chain_id.0 > 0x7fff_ffff_ffff_ffff {
            return Err(HistoryStoreError::NumericRange("chain ID"));
        }
        let mut hits: Vec<RankedBlock> = Vec::new();
        let mut index: usize = 0;
        while index < self.block_locators.len()
            invariant
                index <= self.block_locators@.len(),
                hits@ == block_hits(*self, chain_id, hash, index as int),
            decreases self.block_locators@.len() - index,
        {
            let row: &BlockLocatorRow = &self.block_locators[index];
            if let Some(at) = self.find_closed(&row.locator.segment_id) {
                if row.chain_id == chain_id && row.hash == hash {
                    hits.push(
                        RankedBlock {
                            verification: self.segments[at].record.metadata.descriptor.verification.rank(),
                            trust: self.segments[at].record.metadata.descriptor.trust.rank(),
                            locator: BlockHashLocator {
                                segment_id: row.locator.segment_id.clone(),
                                block_number: row.locator.block_number,
                            },
                        },
                    );
                }
            }
            index += 1;
        }
        Ok(sort_dedup(hits))
    }

    /// Where a canonical transaction is retained, strongest guarantees first. A
    /// chain that no column can hold is refused.
    pub fn transaction_locators(&self, chain_id: ChainId, hash: TransactionHash) -> (
        outcome: Result<Vec<RankedTransaction>, HistoryStoreError>)
        ensures
            match outcome {
                Ok(hits) => chain_id.0 <= i64::MAX && normal_list(
                    transaction_hits(*self, chain_id, hash, self.transaction_locators@.len() as int),
                    hits@,
                ),
                Err(error) => chain_id.0 > i64::MAX && error == HistoryStoreError::NumericRange(
                    "chain ID",
                ),
            },
    {
        if chain_id.0 > 0x7fff_ffff_ffff_ffff {
            return Err(HistoryStoreError::NumericRange("chain ID"));
        }
        let mut hits: Vec<RankedTransaction> = Vec::new();
        let mut index: usize = 0;
        while index < self.transaction_locators.len()
            invariant
                index <= self.transaction_locators@.len(),
                hits@ == transaction_hits(*self, chain_id, hash, index as int),
            decreases self.transaction_locators@.len() - index,
        {
            let row: &TransactionLocatorRow = &self.transaction_locators[index];
            if let Some(at) = self.find_closed(&row.locator.segment_id) {
                if row.chain_id == chain_id && row.hash == hash {
                    hits.push(
                        RankedTransaction {
                            verification: self.segments[at].record.metadata.descriptor.verification.rank(),
                            trust: self.segments[at].record.metadata.descriptor.trust.rank(),
                            locator: TransactionLocator {
                                segment_id: row.locator.segment_id.clone(),
                                block_number: row.locator.block_number,
                                transaction_index: row.locator.transaction_index,
                            },
                        },
                    );
                }
            }
            index += 1;
        }
        Ok(sort_dedup(hits))
    }

    /// Opens the file of a readable segment, and refuses one that the catalog
    /// does not describe.
    pub fn reader(&self, id: &SegmentId, file: &[u8]) -> (outcome: Result<
        SegmentReader,
        HistoryStoreError,
    >)
        ensures
            match first_closed(self.segments@, id@, 0) {
                None => outcome == Err::<SegmentReader, HistoryStoreError>(
                    HistoryStoreError::UnknownSegment(*id),
                ),
                Some(at) => {
                    let record = self.segments@[at].record;
                    if !is_segment_path(record.relative_path@) {
                        outcome == Err::<SegmentReader, HistoryStoreError>(
                            HistoryStoreError::CatalogIntegrity(
                                CatalogProblem::InvalidRelativePath(record.relative_path),
                            ),
                        )
                    } else {
                        match parse_segment_file(file@) {
                            Err(error) => outcome == Err::<SegmentReader, HistoryStoreError>(
                                HistoryStoreError::Segment(error),
                            ),
                            Ok((facts, offset)) => if facts == record.metadata.facts() {
                                outcome matches Ok(reader) && reader.facts() == facts
                                    && reader.spec_directory_offset() == offset && reader.id()
                                    == id@
                            } else {
                                outcome == Err::<SegmentReader, HistoryStoreError>(
                                    HistoryStoreError::CatalogIntegrity(
                                        CatalogProblem::MetadataDiffers(record.metadata.id),
                                    ),
                                )
                            },
                        }
                    }
                },
            },
    {
        let record: &SegmentRecord = match self.segment(id) {
            Some(record) => record,
            None => {
                return Err(HistoryStoreError::UnknownSegment(id.clone()));
            },
        };
        resolve_relative_path(&record.relative_path)?;
        let reader: SegmentReader = match SegmentReader::open(file, id.clone()) {
            Ok(reader) => reader,
            Err(error) => {
                return Err(HistoryStoreError::Segment(error));
            },
        };
        ensure_metadata_matches(&record.metadata, reader.metadata())?;
        Ok(reader)
    }
}

proof fn lemma_physical_prefix(segments: Seq<StoredSegment>, count: int)
    requires
        0 <= count <= segments.len(),
    ensures
        0 <= retained_physical(segments.take(count)) <= retained_physical(segments),
    decreases segments.len(),
{
    if count < segments.len() {
        lemma_physical_prefix(segments.drop_last(), count);
        assert(segments.drop_last().take(count) =~= segments.take(count));
    } else {
        assert(segments.take(count) =~= segments);
        if segments.len() > 0 {
            lemma_physical_prefix(segments.drop_last(), count - 1);
        }
    }
}

impl HistoryStore {
    /// What the catalog and its files amount to.
    pub open spec fn spec_stats(self, disk: DiskUsage) -> HistoryStoreStats {
        HistoryStoreStats {
            closed_segments: self.segments@.len() as u64,
            owners: self.owners@.len() as u64,
            block_hash_locators: self.block_locators@.len() as u64,
            transaction_locators: self.transaction_locators@.len() as u64,
            retained_logical_bytes: retained_logical(self.segments@) as u64,
            retained_segment_physical_bytes: retained_physical(self.segments@) as u64,
            reserved_logical_bytes: reserved_logical(self.reservations@) as u64,
            reserved_physical_bytes: reserved_physical(self.reservations@) as u64,
            catalog_physical_bytes: disk.catalog_physical_bytes,
            temporary_physical_bytes: disk.temporary_physical_bytes,
            quarantine_physical_bytes: disk.quarantine_physical_bytes,
            total_physical_bytes: disk.total_physical_bytes,
        }
    }

    /// Counts and sums the catalog, beside what was measured on disk.
    pub fn stats(&self, disk: DiskUsage) -> (outcome: Result<HistoryStoreStats, HistoryStoreError>)
        requires
            self.wf(),
        ensures
            match outcome {
                Ok(stats) => retained_physical(self.segments@) <= u64::MAX && stats
                    == self.spec_stats(disk),
                Err(error) => retained_physical(self.segments@) > u64::MAX && error
                    == HistoryStoreError::ArithmeticOverflow,
            },
    {
        let capacity = self.catalog_capacity();
        let mut physical: u64 = 0;
        let mut index: usize = 0;
        proof {
            assert(self.segments@.take(0) =~= Seq::<StoredSegment>::empty());
        }
        while index < self.segments.len()
            invariant
                index <= self.segments@.len(),
                physical == retained_physical(self.segments@.take(index as int)),
            decreases self.segments@.len() - index,
        {
            proof {
                let longer = self.segments@.take(index + 1);
                assert(longer.drop_last() =~= self.segments@.take(index as int));
                assert(longer.last() == self.segments@[index as int]);
                lemma_physical_prefix(self.segments@, index + 1);
            }
            physical = match physical.checked_add(
                self.segments[index].record.metadata.physical_bytes,
            ) {
                Some(physical) => physical,
                None => {
                    return Err(HistoryStoreError::ArithmeticOverflow);
                },
            };
            index += 1;
        }
        assert(self.segments@.take(index as int) =~= self.segments@);
        Ok(
            HistoryStoreStats {
                closed_segments: self.segments.len() as u64,
                owners: self.owners.len() as u64,
                block_hash_locators: self.block_locators.len() as u64,
                transaction_locators: self.transaction_locators.len() as u64,
                retained_logical_bytes: capacity.retained_logical,
                retained_segment_physical_bytes: physical,
                reserved_logical_bytes: capacity.reserved_logical,
                reserved_physical_bytes: capacity.reserved_physical,
                catalog_physical_bytes: disk.catalog_physical_bytes,
                temporary_physical_bytes: disk.temporary_physical_bytes,
                quarantine_physical_bytes: disk.quarantine_physical_bytes,
                total_physical_bytes: disk.total_physical_bytes,
            },
        )
    }
}

/// Refuses to open a store that already holds more than its budget.
pub fn check_existing_usage(budget: StorageBudget, stats: &HistoryStoreStats) -> (outcome: Result<
    (),
    HistoryStoreError,
>)
    ensures
        outcome == (if stats.retained_logical_bytes > budget.maximum_logical_bytes
            || stats.total_physical_bytes > budget.maximum_physical_bytes {
            Err::<(), HistoryStoreError>(
                HistoryStoreError::ExistingBudgetExceeded {
                    logical_limit: budget.maximum_logical_bytes,
                    logical_observed: stats.retained_logical_bytes,
                    physical_limit: budget.maximum_physical_bytes,
                    physical_observed: stats.total_physical_bytes,
                },
            )
        } else {
            Ok(())
        }),
{
    if stats.retained_logical_bytes > budget.maximum_logical_bytes || stats.total_physical_bytes
        > budget.maximum_physical_bytes {
        return Err(
            HistoryStoreError::ExistingBudgetExceeded {
                logical_limit: budget.maximum_logical_bytes,
                logical_observed: stats.retained_logical_bytes,
                physical_limit: budget.maximum_physical_bytes,
                physical_observed: stats.total_physical_bytes,
            },
        );
    }
    Ok(())
}

/// Refuses a catalog of another schema.
pub fn check_schema_version(version: i64) -> (outcome: Result<(), HistoryStoreError>)
    ensures
        outcome == (if version == crate::history::catalog::CATALOG_SCHEMA_VERSION {
            Ok::<(), HistoryStoreError>(())
        } else {
            Err(HistoryStoreError::UnsupportedSchema(version))
        }),
{
    if version != crate::history::catalog::CATALOG_SCHEMA_VERSION {
        return Err(HistoryStoreError::UnsupportedSchema(version));
    }
    Ok(())
}

/// Adds up measured sizes, and refuses a sum that overflows.
pub fn sum_bytes(sizes: &[u64]) -> (outcome: Result<u64, HistoryStoreError>)
    ensures
        outcome == (if total_bytes(sizes@) <= u64::MAX {
            Ok::<u64, HistoryStoreError>(total_bytes(sizes@) as u64)
        } else {
            Err(HistoryStoreError::ArithmeticOverflow)
        }),
{
    let mut total: u64 = 0;
    let mut index: usize = 0;
    proof {
        assert(sizes@.take(0) =~= Seq::<u64>::empty());
    }
    while index < sizes.len()
        invariant
            index <= sizes@.len(),
            total == total_bytes(sizes@.take(index as int)),
        decreases sizes@.len() - index,
    {
        proof {
            let longer = sizes@.take(index + 1);
            assert(longer.drop_last() =~= sizes@.take(index as int));
            lemma_total_prefix(sizes@, index + 1);
        }
        total = match total.checked_add(sizes[index]) {
            Some(total) => total,
            None => {
                return Err(HistoryStoreError::ArithmeticOverflow);
            },
        };
        index += 1;
    }
    assert(sizes@.take(index as int) =~= sizes@);
    Ok(total)
}

/// The sum of sizes.
pub open spec fn total_bytes(sizes: Seq<u64>) -> int
    decreases sizes.len(),
{
    if sizes.len() == 0 {
        0
    } else {
        total_bytes(sizes.drop_last()) + sizes.last()
    }
}

proof fn lemma_total_prefix(sizes: Seq<u64>, count: int)
    requires
        0 <= count <= sizes.len(),
    ensures
        0 <= total_bytes(sizes.take(count)) <= total_bytes(sizes),
    decreases sizes.len(),
{
    if count < sizes.len() {
        lemma_total_prefix(sizes.drop_last(), count);
        assert(sizes.drop_last().take(count) =~= sizes.take(count));
    } else {
        assert(sizes.take(count) =~= sizes);
        if sizes.len() > 0 {
            lemma_total_prefix(sizes.drop_last(), count - 1);
        }
    }
}

} // verus!
