//! Projections of blob transactions, object by object and table by table.

use crate::frame::{BlockFrame, Material};
use crate::frame_view::{views, FrameView, MaterialView};
use crate::primitives::BlockRange;
use crate::request::SourceBudget;
use crate::xatu::catalog::{
    reaches, visited_days, CatalogObject, PartitionKind, XatuCatalog, XatuTable,
};
use crate::xatu::columns::RowBatch;
use crate::xatu::dates::XatuDate;
use crate::xatu::error::{DataProblem, XatuError};
use crate::xatu::normalize::{
    blobs_of, normalize_frames, sizes_of, split_entries, BlobsTables,
};
use crate::xatu::reading::{
    charge_bytes, frame_budget_problem, lemma_none_oversized, provenances, spec_provenances,
    totals_of, validate_frame_budget, ProjectionMetrics, ProjectionObjectMetrics,
};
use crate::xatu::rows::{
    gather, gather_unique, gathered, gathered_unique, BeaconBlocks, BeaconTransactions,
    ExecutionBlocks, ExecutionTransactionRow, ExecutionTransactions, GenericExecutionBlockRow,
    SlotTransaction, Withdrawals,
};
use crate::xatu::sizes::{capped, BeaconBlockRow, ExecutionBlockRow, WithdrawalRow};
use std::collections::HashSet;
use vstd::prelude::*;

verus! {

broadcast use vstd::std_specs::hash::group_hash_axioms;

/// Frames of a range, and what projecting them took.
#[derive(Debug)]
pub struct BlobsProjection {
    pub range: BlockRange,
    pub frames: Vec<BlockFrame>,
    pub metrics: ProjectionMetrics,
}

/// The objects of one table that are being read.
#[derive(Debug)]
pub struct ObjectQueue {
    pub catalog: XatuCatalog,
    pub range: BlockRange,
    /// The first and the last day of the beacon tables, once they are known.
    pub dates: Option<(XatuDate, XatuDate)>,
    pub budget: SourceBudget,
    pub objects: Vec<CatalogObject>,
    pub next: usize,
    /// The bytes that were charged for all objects.
    pub projected_bytes: u64,
    /// The bytes that were charged for the object that is read.
    pub charged: u64,
    pub metrics: Vec<ProjectionObjectMetrics>,
}

/// The metrics of an object, with the bytes that were charged for it.
pub open spec fn charged_with(
    metrics: ProjectionObjectMetrics,
    charged: u64,
) -> ProjectionObjectMetrics {
    ProjectionObjectMetrics { projected_compressed_bytes: charged, ..metrics }
}

/// Why a projection cannot start.
pub open spec fn start_problem(budget: SourceBudget, batch_rows: usize) -> Option<XatuError> {
    if !budget.wf() {
        Some(XatuError::Data(DataProblem::Text("source budget limits must be non-zero")))
    } else if batch_rows == 0 {
        Some(XatuError::Data(DataProblem::Text("Parquet batch rows must be greater than zero")))
    } else {
        None
    }
}

pub fn check_start(budget: SourceBudget, batch_rows: usize) -> (outcome: Result<(), XatuError>)
    ensures
        outcome == (match start_problem(budget, batch_rows) {
            Some(problem) => Err::<(), XatuError>(problem),
            None => Ok(()),
        }),
{
    if budget.validate().is_err() {
        return Err(XatuError::Data(DataProblem::Text("source budget limits must be non-zero")));
    }
    if batch_rows == 0 {
        return Err(
            XatuError::Data(DataProblem::Text("Parquet batch rows must be greater than zero")),
        );
    }
    Ok(())
}

impl ObjectQueue {
    /// There is an object to read, and the bytes read so far are in budget.
    pub open spec fn wf(self) -> bool {
        &&& self.range.wf()
        &&& self.next < self.objects@.len()
        &&& self.in_budget()
    }

    /// The bytes charged so far are those of the objects that were read and of
    /// the one that is read, and the budget allows them.
    pub open spec fn in_budget(self) -> bool {
        let read = totals_of(self.metrics@).projected_compressed_bytes;
        &&& read >= 0
        &&& self.projected_bytes == capped(read + self.charged)
        &&& self.projected_bytes <= self.budget.max_input_bytes
    }

    /// The objects are those of a table, all of them and in order.
    pub open spec fn lists(self, table: XatuTable) -> bool {
        if table.spec_partition_kind() is BlockChunk1000 {
            self.catalog.is_chunk_list(table, self.range, self.objects@)
        } else {
            self.dates matches Some(dates) && self.catalog.is_day_list(
                table,
                visited_days(dates.0, dates.1),
                self.objects@,
            )
        }
    }

    /// The objects of a table can be located.
    pub open spec fn locates(self, table: XatuTable) -> bool {
        if table.spec_partition_kind() is BlockChunk1000 {
            self.catalog.chunks_resolve(table, self.range)
        } else {
            self.dates matches Some(dates) && !dates.1.before(dates.0)
                && self.catalog.days_resolve(table, visited_days(dates.0, dates.1)) && reaches(
                dates.0,
                dates.1,
            )
        }
    }

    /// Why the objects of a table cannot be located.
    pub open spec fn is_locate_problem(self, table: XatuTable, error: XatuError) -> bool {
        if table.spec_partition_kind() is BlockChunk1000 {
            self.catalog.is_chunk_problem(table, self.range, error)
        } else {
            self.dates matches Some(dates) && if dates.1.before(dates.0) {
                error == XatuError::Date
            } else if !self.catalog.days_resolve(table, visited_days(dates.0, dates.1)) {
                self.catalog.is_day_problem(table, visited_days(dates.0, dates.1), error)
            } else {
                !reaches(dates.0, dates.1) && error == XatuError::Date
            }
        }
    }

    /// All is as it was but for the objects to read.
    pub open spec fn same_but_objects(self, other: ObjectQueue) -> bool {
        self == (ObjectQueue { objects: self.objects, next: self.next, ..other })
    }

    /// Goes on to the objects of a table.
    pub fn open_table(&mut self, table: XatuTable) -> (outcome: Result<(), XatuError>)
        requires
            old(self).range.wf(),
            old(self).in_budget(),
            table.spec_partition_kind() is Daily ==> old(self).dates is Some,
        ensures
            final(self).same_but_objects(*old(self)),
            match outcome {
                Ok(()) => {
                    &&& old(self).locates(table)
                    &&& final(self).lists(table)
                    &&& final(self).next == 0
                    &&& final(self).wf()
                },
                Err(error) => {
                    &&& old(self).is_locate_problem(table, error)
                    &&& *final(self) == *old(self)
                },
            },
    {
        let objects: Vec<CatalogObject> = if table.partition_kind()
            == PartitionKind::BlockChunk1000 {
            self.catalog.execution_objects(table, self.range)?
        } else {
            match self.dates {
                Some((start, end)) => {
                    proof {
                        crate::xatu::catalog::lemma_visited(start, end);
                    }
                    self.catalog.daily_objects(table, start, end)?
                },
                None => {
                    return Err(XatuError::Date);
                },
            }
        };
        self.objects = objects;
        self.next = 0;
        Ok(())
    }

    /// Counts the bytes of the object that is read next.
    pub fn charge(&mut self, bytes: u64) -> (outcome: Result<(), XatuError>)
        requires
            old(self).in_budget(),
        ensures
            final(self).in_budget(),
            if capped(old(self).projected_bytes + bytes) > old(self).budget.max_input_bytes {
                &&& *final(self) == *old(self)
                &&& outcome == Err::<(), XatuError>(
                    XatuError::Budget {
                        resource: "projected_input_bytes",
                        actual: capped(old(self).projected_bytes + bytes),
                        limit: old(self).budget.max_input_bytes,
                    },
                )
            } else {
                &&& *final(self) == (ObjectQueue {
                    projected_bytes: capped(old(self).projected_bytes + bytes),
                    charged: capped(old(self).charged + bytes),
                    ..*old(self)
                })
                &&& outcome == Ok::<(), XatuError>(())
            },
    {
        let next: u64 = charge_bytes(self.projected_bytes, bytes, self.budget)?;
        self.projected_bytes = next;
        self.charged = self.charged.saturating_add(bytes);
        Ok(())
    }

    /// The object that is read next.
    pub fn current(&self) -> (object: &CatalogObject)
        requires
            self.wf(),
        ensures
            *object == self.objects@[self.next as int],
    {
        &self.objects[self.next]
    }

    /// Records what reading an object took, with the bytes that were charged
    /// for it, and goes on to the next. Tells whether there is none.
    pub fn record(&mut self, metrics: ProjectionObjectMetrics) -> (exhausted: bool)
        requires
            old(self).wf(),
        ensures
            final(self).range == old(self).range,
            final(self).catalog == old(self).catalog,
            final(self).dates == old(self).dates,
            final(self).budget == old(self).budget,
            final(self).objects == old(self).objects,
            final(self).projected_bytes == old(self).projected_bytes,
            final(self).charged == 0,
            final(self).next == old(self).next + 1,
            final(self).metrics@ == old(self).metrics@.push(
                charged_with(metrics, old(self).charged),
            ),
            final(self).in_budget(),
            exhausted == (final(self).next == final(self).objects@.len()),
    {
        let count: usize = self.objects.len();
        self.metrics.push(
            ProjectionObjectMetrics { projected_compressed_bytes: self.charged, ..metrics },
        );
        proof {
            assert(self.metrics@.drop_last() =~= old(self).metrics@);
        }
        self.charged = 0;
        self.next = self.next + 1;
        self.next == count
    }
}

/// A block with a number and a time.
pub trait Dated: Sized {
    spec fn height(&self) -> u64;

    spec fn time(&self) -> u64;

    fn block_number(&self) -> (number: u64)
        ensures
            number == self.height(),
    ;

    fn block_time(&self) -> (timestamp: u64)
        ensures
            timestamp == self.time(),
    ;
}

impl Dated for ExecutionBlockRow {
    open spec fn height(&self) -> u64 {
        self.number
    }

    open spec fn time(&self) -> u64 {
        self.timestamp
    }

    fn block_number(&self) -> (number: u64) {
        self.number
    }

    fn block_time(&self) -> (timestamp: u64) {
        self.timestamp
    }
}

impl Dated for GenericExecutionBlockRow {
    open spec fn height(&self) -> u64 {
        self.number
    }

    open spec fn time(&self) -> u64 {
        self.timestamp
    }

    fn block_number(&self) -> (number: u64) {
        self.number
    }

    fn block_time(&self) -> (timestamp: u64) {
        self.timestamp
    }
}

/// The place of the block with the least number, or with the greatest.
pub open spec fn is_extreme<B: Dated>(blocks: Seq<B>, at: int, greatest: bool) -> bool {
    &&& 0 <= at < blocks.len()
    &&& forall|i: int|
        0 <= i < blocks.len() ==> if greatest {
            (#[trigger] blocks[i]).height() <= blocks[at].height()
        } else {
            blocks[at].height() <= blocks[i].height()
        }
}

pub fn extreme<B: Dated>(blocks: &Vec<B>, greatest: bool) -> (at: Option<usize>)
    ensures
        match at {
            Some(at) => is_extreme(blocks@, at as int, greatest),
            None => blocks@.len() == 0,
        },
{
    if blocks.len() == 0 {
        return None;
    }
    let mut at: usize = 0;
    let mut index: usize = 1;
    while index < blocks.len()
        invariant
            at < index <= blocks@.len(),
            forall|i: int|
                0 <= i < index ==> if greatest {
                    (#[trigger] blocks@[i]).height() <= blocks@[at as int].height()
                } else {
                    blocks@[at as int].height() <= blocks@[i].height()
                },
        decreases blocks@.len() - index,
    {
        if (greatest && blocks[index].block_number() > blocks[at].block_number()) || (!greatest
            && blocks[index].block_number() < blocks[at].block_number()) {
            at = index;
        }
        index += 1;
    }
    Some(at)
}

/// A date of the day that a timestamp falls on.
pub open spec fn is_day_of(date: XatuDate, timestamp: u64) -> bool {
    date.valid() && date.day_number() == timestamp as int / 86400
}

/// The days from the first block of a table to its last.
pub open spec fn spans_days<B: Dated>(
    blocks: Seq<B>,
    dates: (XatuDate, XatuDate),
) -> bool {
    exists|first: int, last: int|
        #![trigger is_extreme(blocks, first, false), is_extreme(blocks, last, true)]
        is_extreme(blocks, first, false) && is_extreme(blocks, last, true) && is_day_of(
            dates.0,
            blocks[first].time(),
        ) && is_day_of(dates.1, blocks[last].time())
}

/// A timestamp of a day after the last that a date can name.
pub open spec fn is_beyond_dates(timestamp: u64) -> bool {
    timestamp as int / 86400 > crate::xatu::dates::last_day_number()
}

/// Why the days of blocks cannot be told.
pub open spec fn is_days_problem<B: Dated>(blocks: Seq<B>, error: XatuError) -> bool {
    if blocks.len() == 0 {
        error == XatuError::Data(DataProblem::Text("execution range returned no blocks"))
    } else {
        &&& error == XatuError::Date
        &&& exists|i: int|
            (is_extreme(blocks, i, false) || is_extreme(blocks, i, true)) && is_beyond_dates(
                (#[trigger] blocks[i]).time(),
            )
    }
}

pub fn block_days<B: Dated>(blocks: &Vec<B>) -> (outcome: Result<
    (XatuDate, XatuDate),
    XatuError,
>)
    ensures
        match outcome {
            Ok(dates) => spans_days(blocks@, dates),
            Err(error) => is_days_problem(blocks@, error),
        },
{
    let first: usize = match extreme(blocks, false) {
        Some(at) => at,
        None => {
            return Err(XatuError::Data(DataProblem::Text("execution range returned no blocks")));
        },
    };
    let last: usize = match extreme(blocks, true) {
        Some(at) => at,
        None => {
            return Err(XatuError::Data(DataProblem::Text("execution range returned no blocks")));
        },
    };
    let start: XatuDate = match XatuDate::from_unix_seconds(blocks[first].block_time()) {
        Ok(date) => date,
        Err(error) => {
            assert(is_beyond_dates(blocks@[first as int].time()));
            return Err(error);
        },
    };
    let end: XatuDate = match XatuDate::from_unix_seconds(blocks[last].block_time()) {
        Ok(date) => date,
        Err(error) => {
            assert(is_beyond_dates(blocks@[last as int].time()));
            return Err(error);
        },
    };
    proof {
        assert(is_extreme(blocks@, first as int, false) && is_extreme(blocks@, last as int, true));
    }
    Ok((start, end))
}

/// Some block has this slot.
pub open spec fn has_slot(blocks: Seq<BeaconBlockRow>, slot: u64) -> bool {
    exists|i: int| 0 <= i < blocks.len() && (#[trigger] blocks[i]).slot == slot
}

/// The set holds the slots of the blocks and no others.
pub open spec fn is_slots(set: Set<u64>, blocks: Seq<BeaconBlockRow>) -> bool {
    forall|slot: u64| #[trigger] set.contains(slot) <==> has_slot(blocks, slot)
}

fn slots_of(blocks: &Vec<BeaconBlockRow>) -> (slots: HashSet<u64>)
    ensures
        is_slots(slots@, blocks@),
{
    let mut slots: HashSet<u64> = HashSet::new();
    let mut index: usize = 0;
    while index < blocks.len()
        invariant
            index <= blocks@.len(),
            forall|slot: u64| #[trigger]
                slots@.contains(slot) <==> has_slot(blocks@.take(index as int), slot),
        decreases blocks@.len() - index,
    {
        let ghost before = slots@;
        let slot: u64 = blocks[index].slot;
        slots.insert(slot);
        proof {
            let shorter = blocks@.take(index as int);
            let longer = blocks@.take(index + 1);
            assert forall|other: u64| #[trigger] slots@.contains(other) <==> has_slot(
                longer,
                other,
            ) by {
                if has_slot(shorter, other) {
                    let i = choose|i: int|
                        0 <= i < shorter.len() && (#[trigger] shorter[i]).slot == other;
                    assert(longer[i].slot == other);
                }
                if has_slot(longer, other) {
                    let i = choose|i: int|
                        0 <= i < longer.len() && (#[trigger] longer[i]).slot == other;
                    if i < index {
                        assert(shorter[i].slot == other);
                    }
                }
                if other == slot {
                    assert(longer[index as int].slot == other);
                }
            }
        }
        index += 1;
    }
    assert(blocks@.take(index as int) =~= blocks@);
    slots
}

/// The table that a projection of blobs reads.
#[derive(Clone, Copy, Debug, PartialEq, Eq, Structural)]
pub enum BlobsStage {
    ExecutionBlocks,
    BeaconBlocks,
    BeaconTransactions,
    Withdrawals,
    ExecutionTransactions,
    Joined,
}

impl BlobsStage {
    pub open spec fn spec_table(self) -> Option<XatuTable> {
        match self {
            BlobsStage::ExecutionBlocks => Some(XatuTable::CanonicalExecutionBlock),
            BlobsStage::BeaconBlocks => Some(XatuTable::CanonicalBeaconBlock),
            BlobsStage::BeaconTransactions => Some(XatuTable::CanonicalBeaconBlockExecutionTransaction),
            BlobsStage::Withdrawals => Some(XatuTable::CanonicalBeaconBlockWithdrawal),
            BlobsStage::ExecutionTransactions => Some(XatuTable::CanonicalExecutionTransaction),
            BlobsStage::Joined => None,
        }
    }

    pub open spec fn spec_columns(self) -> Seq<&'static str> {
        match self {
            BlobsStage::ExecutionBlocks => seq![
                "block_date_time",
                "block_number",
                "block_hash",
                "gas_used",
                "extra_data",
                "base_fee_per_gas",
            ],
            BlobsStage::BeaconBlocks => seq![
                "slot",
                "slot_start_date_time",
                "block_version",
                "block_total_bytes",
                "execution_payload_block_hash",
                "execution_payload_block_number",
                "execution_payload_base_fee_per_gas",
                "execution_payload_blob_gas_used",
                "execution_payload_excess_blob_gas",
                "execution_payload_gas_limit",
                "execution_payload_gas_used",
                "execution_payload_parent_hash",
                "execution_payload_transactions_count",
                "execution_payload_transactions_total_bytes",
            ],
            BlobsStage::BeaconTransactions => seq![
                "slot",
                "position",
                "hash",
                "from",
                "to",
                "gas",
                "type",
                "size",
                "blob_gas",
                "blob_gas_fee_cap",
                "blob_hashes",
            ],
            BlobsStage::Withdrawals => seq![
                "slot",
                "withdrawal_index",
                "withdrawal_validator_index",
                "withdrawal_address",
                "withdrawal_amount",
            ],
            BlobsStage::ExecutionTransactions => seq![
                "block_number",
                "transaction_index",
                "transaction_hash",
                "gas_used",
                "gas_price",
                "transaction_type",
                "success",
            ],
            BlobsStage::Joined => Seq::empty(),
        }
    }

    /// The columns that the stage reads.
    pub fn columns(self) -> (columns: &'static [&'static str])
        ensures
            columns@ == self.spec_columns(),
    {
        let columns: &'static [&'static str] = match self {
            BlobsStage::ExecutionBlocks => &[
                "block_date_time",
                "block_number",
                "block_hash",
                "gas_used",
                "extra_data",
                "base_fee_per_gas",
            ],
            BlobsStage::BeaconBlocks => &[
                "slot",
                "slot_start_date_time",
                "block_version",
                "block_total_bytes",
                "execution_payload_block_hash",
                "execution_payload_block_number",
                "execution_payload_base_fee_per_gas",
                "execution_payload_blob_gas_used",
                "execution_payload_excess_blob_gas",
                "execution_payload_gas_limit",
                "execution_payload_gas_used",
                "execution_payload_parent_hash",
                "execution_payload_transactions_count",
                "execution_payload_transactions_total_bytes",
            ],
            BlobsStage::BeaconTransactions => &[
                "slot",
                "position",
                "hash",
                "from",
                "to",
                "gas",
                "type",
                "size",
                "blob_gas",
                "blob_gas_fee_cap",
                "blob_hashes",
            ],
            BlobsStage::Withdrawals => &[
                "slot",
                "withdrawal_index",
                "withdrawal_validator_index",
                "withdrawal_address",
                "withdrawal_amount",
            ],
            BlobsStage::ExecutionTransactions => &[
                "block_number",
                "transaction_index",
                "transaction_hash",
                "gas_used",
                "gas_price",
                "transaction_type",
                "success",
            ],
            BlobsStage::Joined => &[],
        };
        assert(columns@ =~= self.spec_columns());
        columns
    }

    /// The stage after this one.
    pub open spec fn spec_next(self) -> BlobsStage {
        match self {
            BlobsStage::ExecutionBlocks => BlobsStage::BeaconBlocks,
            BlobsStage::BeaconBlocks => BlobsStage::BeaconTransactions,
            BlobsStage::BeaconTransactions => BlobsStage::Withdrawals,
            BlobsStage::Withdrawals => BlobsStage::ExecutionTransactions,
            _ => BlobsStage::Joined,
        }
    }
}

/// Projects the five tables that tell of blob transactions.
#[derive(Debug)]
pub struct XatuBlobsProjector {
    pub catalog: XatuCatalog,
}

impl XatuBlobsProjector {
    pub fn new(catalog: XatuCatalog) -> (projector: XatuBlobsProjector)
        ensures
            projector.catalog == catalog,
    {
        XatuBlobsProjector { catalog }
    }

    /// Starts to project a range whose beacon tables lie between two dates.
    pub fn project(
        &self,
        range: BlockRange,
        start_date: XatuDate,
        end_date: XatuDate,
        budget: SourceBudget,
        batch_rows: usize,
    ) -> (outcome: Result<BlobsRun, XatuError>)
        requires
            range.wf(),
        ensures
            BlobsRun::is_started(
                self.catalog,
                range,
                Some((start_date, end_date)),
                budget,
                batch_rows,
                outcome,
            ),
    {
        BlobsRun::start(
            self.catalog.clone(),
            range,
            Some((start_date, end_date)),
            budget,
            batch_rows,
        )
    }

    /// Starts to project a range whose execution blocks tell the dates.
    pub fn project_auto_dates(&self, range: BlockRange, budget: SourceBudget, batch_rows: usize) -> (
        outcome: Result<BlobsRun, XatuError>)
        requires
            range.wf(),
        ensures
            BlobsRun::is_started(self.catalog, range, None, budget, batch_rows, outcome),
    {
        BlobsRun::start(self.catalog.clone(), range, None, budget, batch_rows)
    }
}

/// A projection of blobs in progress.
#[derive(Debug)]
pub struct BlobsRun {
    pub queue: ObjectQueue,
    pub stage: BlobsStage,
    pub execution_blocks: Vec<ExecutionBlockRow>,
    pub beacon_blocks: Vec<BeaconBlockRow>,
    pub transaction_reader: BeaconTransactions,
    pub withdrawal_reader: Withdrawals,
    pub transactions: Vec<SlotTransaction>,
    pub withdrawals: Vec<(u64, WithdrawalRow)>,
    pub execution_transactions: Vec<ExecutionTransactionRow>,
}

impl BlobsRun {
    /// The objects are those of the stage's table, their bytes are in budget,
    /// and the readers know the slots of the beacon blocks once these are
    /// read.
    pub open spec fn wf(self) -> bool {
        &&& self.queue.range.wf()
        &&& self.queue.in_budget()
        &&& match self.stage.spec_table() {
            Some(table) => self.queue.wf() && self.queue.lists(table),
            None => true,
        }
        &&& !(self.stage is ExecutionBlocks) ==> self.queue.dates is Some
        &&& !(self.stage is ExecutionBlocks || self.stage is BeaconBlocks) ==> {
            &&& is_slots(self.transaction_reader.slots@, self.beacon_blocks@)
            &&& is_slots(self.withdrawal_reader.slots@, self.beacon_blocks@)
        }
    }

    /// What starting a projection gives.
    pub open spec fn is_started(
        catalog: XatuCatalog,
        range: BlockRange,
        dates: Option<(XatuDate, XatuDate)>,
        budget: SourceBudget,
        batch_rows: usize,
        outcome: Result<BlobsRun, XatuError>,
    ) -> bool {
        match start_problem(budget, batch_rows) {
            Some(problem) => outcome == Err::<BlobsRun, XatuError>(problem),
            None => match outcome {
                Ok(run) => {
                    &&& catalog.chunks_resolve(XatuTable::CanonicalExecutionBlock, range)
                    &&& run.wf()
                    &&& run.stage == BlobsStage::ExecutionBlocks
                    &&& run.queue.catalog == catalog
                    &&& run.queue.range == range
                    &&& run.queue.dates == dates
                    &&& run.queue.budget == budget
                    &&& run.queue.next == 0
                    &&& run.queue.projected_bytes == 0
                    &&& run.queue.charged == 0
                    &&& run.queue.metrics@.len() == 0
                    &&& run.execution_blocks@.len() == 0
                    &&& run.beacon_blocks@.len() == 0
                    &&& run.transactions@.len() == 0
                    &&& run.withdrawals@.len() == 0
                    &&& run.execution_transactions@.len() == 0
                },
                Err(error) => catalog.is_chunk_problem(
                    XatuTable::CanonicalExecutionBlock,
                    range,
                    error,
                ),
            },
        }
    }

    /// Starts a projection. Without dates, the execution blocks tell them.
    pub fn start(
        catalog: XatuCatalog,
        range: BlockRange,
        dates: Option<(XatuDate, XatuDate)>,
        budget: SourceBudget,
        batch_rows: usize,
    ) -> (outcome: Result<BlobsRun, XatuError>)
        requires
            range.wf(),
        ensures
            BlobsRun::is_started(catalog, range, dates, budget, batch_rows, outcome),
    {
        check_start(budget, batch_rows)?;
        let objects: Vec<CatalogObject> = catalog.execution_objects(
            XatuTable::CanonicalExecutionBlock,
            range,
        )?;
        Ok(
            BlobsRun {
                queue: ObjectQueue {
                    catalog,
                    range,
                    dates,
                    budget,
                    objects,
                    next: 0,
                    projected_bytes: 0,
                    charged: 0,
                    metrics: Vec::new(),
                },
                stage: BlobsStage::ExecutionBlocks,
                execution_blocks: Vec::new(),
                beacon_blocks: Vec::new(),
                transaction_reader: BeaconTransactions { slots: HashSet::new() },
                withdrawal_reader: Withdrawals { slots: HashSet::new() },
                transactions: Vec::new(),
                withdrawals: Vec::new(),
                execution_transactions: Vec::new(),
            },
        )
    }

    /// What a batch adds to the stage's table, and why it stops.
    pub open spec fn is_consumed(
        self,
        after: BlobsRun,
        batch: RowBatch,
        outcome: Result<u64, XatuError>,
    ) -> bool {
        match self.stage {
            BlobsStage::ExecutionBlocks => {
                let (rows, problem) = gathered_unique(
                    (ExecutionBlocks { range: self.queue.range }),
                    batch,
                    0,
                    views(self.execution_blocks@),
                );
                &&& after == (BlobsRun {
                    execution_blocks: after.execution_blocks,
                    ..self
                })
                &&& views(after.execution_blocks@) == rows
                &&& counts(
                    batch,
                    outcome,
                    problem,
                    after.execution_blocks@.len() - self.execution_blocks@.len(),
                )
            },
            BlobsStage::BeaconBlocks => {
                let (rows, problem) = gathered_unique(
                    (BeaconBlocks { range: self.queue.range }),
                    batch,
                    0,
                    views(self.beacon_blocks@),
                );
                &&& after == (BlobsRun { beacon_blocks: after.beacon_blocks, ..self })
                &&& views(after.beacon_blocks@) == rows
                &&& counts(
                    batch,
                    outcome,
                    problem,
                    after.beacon_blocks@.len() - self.beacon_blocks@.len(),
                )
            },
            BlobsStage::BeaconTransactions => {
                let (rows, problem) = gathered(
                    self.transaction_reader,
                    batch,
                    0,
                    views(self.transactions@),
                );
                &&& after == (BlobsRun { transactions: after.transactions, ..self })
                &&& views(after.transactions@) == rows
                &&& counts(batch, outcome, problem, after.transactions@.len() - self.transactions@.len())
            },
            BlobsStage::Withdrawals => {
                let (rows, problem) = gathered(
                    self.withdrawal_reader,
                    batch,
                    0,
                    views(self.withdrawals@),
                );
                &&& after == (BlobsRun { withdrawals: after.withdrawals, ..self })
                &&& views(after.withdrawals@) == rows
                &&& counts(batch, outcome, problem, after.withdrawals@.len() - self.withdrawals@.len())
            },
            BlobsStage::ExecutionTransactions => {
                let (rows, problem) = gathered_unique(
                    (ExecutionTransactions { range: self.queue.range }),
                    batch,
                    0,
                    views(self.execution_transactions@),
                );
                &&& after == (BlobsRun {
                    execution_transactions: after.execution_transactions,
                    ..self
                })
                &&& views(after.execution_transactions@) == rows
                &&& counts(
                    batch,
                    outcome,
                    problem,
                    after.execution_transactions@.len() - self.execution_transactions@.len(),
                )
            },
            BlobsStage::Joined => after == self && outcome == Ok::<u64, XatuError>(0),
        }
    }

    /// Adds the rows of a batch to the stage's table.
    pub fn consume(&mut self, batch: &RowBatch) -> (outcome: Result<u64, XatuError>)
        requires
            batch.wf(),
        ensures
            old(self).is_consumed(*final(self), *batch, outcome),
    {
        let outcome: Result<u64, DataProblem> = match self.stage {
            BlobsStage::ExecutionBlocks => {
                let reader: ExecutionBlocks = ExecutionBlocks { range: self.queue.range };
                gather_unique(&reader, batch, &mut self.execution_blocks)
            },
            BlobsStage::BeaconBlocks => {
                let reader: BeaconBlocks = BeaconBlocks { range: self.queue.range };
                gather_unique(&reader, batch, &mut self.beacon_blocks)
            },
            BlobsStage::BeaconTransactions => gather(
                &self.transaction_reader,
                batch,
                &mut self.transactions,
            ),
            BlobsStage::Withdrawals => gather(
                &self.withdrawal_reader,
                batch,
                &mut self.withdrawals,
            ),
            BlobsStage::ExecutionTransactions => {
                let reader: ExecutionTransactions = ExecutionTransactions {
                    range: self.queue.range,
                };
                gather_unique(&reader, batch, &mut self.execution_transactions)
            },
            BlobsStage::Joined => Ok(0),
        };
        match outcome {
            Ok(selected) => Ok(selected),
            Err(problem) => Err(batch.row_error(problem)),
        }
    }

    /// The tables hold what they held.
    pub open spec fn same_tables(self, other: BlobsRun) -> bool {
        &&& self.execution_blocks == other.execution_blocks
        &&& self.beacon_blocks == other.beacon_blocks
        &&& self.transactions == other.transactions
        &&& self.withdrawals == other.withdrawals
        &&& self.execution_transactions == other.execution_transactions
        &&& self.queue.catalog == other.queue.catalog
        &&& self.queue.range == other.queue.range
        &&& self.queue.budget == other.queue.budget
        &&& self.queue.projected_bytes == other.queue.projected_bytes
    }

    /// The dates that the beacon tables are read for.
    pub open spec fn dates_known(self, after: BlobsRun) -> bool {
        match self.queue.dates {
            Some(dates) => after.queue.dates == Some(dates),
            None => if self.stage is ExecutionBlocks {
                after.queue.dates matches Some(dates) && spans_days(
                    self.execution_blocks@,
                    dates,
                )
            } else {
                after.queue.dates is None
            },
        }
    }

    /// Records an object that was read. After the last one of a table, goes
    /// on to the next table.
    pub fn finish_object(&mut self, metrics: ProjectionObjectMetrics) -> (outcome: Result<
        (),
        XatuError,
    >)
        requires
            old(self).wf(),
            old(self).stage.spec_table() is Some,
        ensures
            final(self).same_tables(*old(self)),
            final(self).queue.metrics@ == old(self).queue.metrics@.push(
                charged_with(metrics, old(self).queue.charged),
            ),
            final(self).queue.charged == 0,
            outcome is Ok ==> final(self).wf(),
            if old(self).queue.next + 1 < old(self).queue.objects@.len() {
                &&& outcome is Ok
                &&& final(self).stage == old(self).stage
                &&& final(self).queue.dates == old(self).queue.dates
                &&& final(self).queue.objects == old(self).queue.objects
                &&& final(self).queue.next == old(self).queue.next + 1
            } else {
                match outcome {
                    Ok(()) => {
                        &&& final(self).stage == old(self).stage.spec_next()
                        &&& old(self).dates_known(*final(self))
                        &&& final(self).stage.spec_table() matches Some(table) ==> {
                            final(self).queue.next == 0 && final(self).queue.locates(table)
                        }
                    },
                    Err(error) => {
                        ||| old(self).stage is ExecutionBlocks && old(self).queue.dates is None
                            && is_days_problem(old(self).execution_blocks@, error)
                        ||| old(self).dates_known(*final(self)) && (
                        old(self).stage.spec_next().spec_table() matches Some(table)
                            && final(self).queue.is_locate_problem(table, error))
                    },
                }
            },
    {
        if !self.queue.record(metrics) {
            return Ok(());
        }
        match self.stage {
            BlobsStage::ExecutionBlocks => {
                if self.queue.dates.is_none() {
                    let dates: (XatuDate, XatuDate) = block_days(&self.execution_blocks)?;
                    self.queue.dates = Some(dates);
                }
                self.queue.open_table(XatuTable::CanonicalBeaconBlock)?;
                self.stage = BlobsStage::BeaconBlocks;
            },
            BlobsStage::BeaconBlocks => {
                self.transaction_reader = BeaconTransactions {
                    slots: slots_of(&self.beacon_blocks),
                };
                self.withdrawal_reader = Withdrawals { slots: slots_of(&self.beacon_blocks) };
                self.queue.open_table(XatuTable::CanonicalBeaconBlockExecutionTransaction)?;
                self.stage = BlobsStage::BeaconTransactions;
            },
            BlobsStage::BeaconTransactions => {
                self.queue.open_table(XatuTable::CanonicalBeaconBlockWithdrawal)?;
                self.stage = BlobsStage::Withdrawals;
            },
            BlobsStage::Withdrawals => {
                self.queue.open_table(XatuTable::CanonicalExecutionTransaction)?;
                self.stage = BlobsStage::ExecutionTransactions;
            },
            _ => {
                self.stage = BlobsStage::Joined;
            },
        }
        Ok(())
    }

    /// The tables as frames are joined from them.
    pub open spec fn joins(self, tables: BlobsTables, now: u64) -> bool {
        &&& tables.range == self.queue.range
        &&& tables.execution_blocks == self.execution_blocks
        &&& tables.beacon_blocks == self.beacon_blocks
        &&& tables.sizes@ == sizes_of(self.transactions@)
        &&& tables.withdrawals == self.withdrawals
        &&& tables.execution_transactions == self.execution_transactions
        &&& views(tables.provenance@) == spec_provenances(
            self.queue.metrics@,
            self.queue.range,
            now,
        )
    }

    /// Joins the tables into frames, once all are read.
    pub fn join(self, now: u64) -> (outcome: Result<ProjectedFrames, XatuError>)
        requires
            self.wf(),
            self.stage is Joined,
        ensures
            exists|tables: BlobsTables| #[trigger]
                self.joins(tables, now) && match outcome {
                    Ok(projected) => {
                        &&& tables.is_joined(
                            blobs_of(self.transactions@),
                            Ok::<Vec<BlockFrame>, XatuError>(projected.frames),
                        )
                        &&& projected.range == self.queue.range
                        &&& projected.budget == self.queue.budget
                        &&& projected.objects == self.queue.metrics
                        &&& projected.in_budget()
                    },
                    Err(error) => tables.is_joined(
                        blobs_of(self.transactions@),
                        Err::<Vec<BlockFrame>, XatuError>(error),
                    ),
                },
    {
        let provenance = provenances(&self.queue.metrics, self.queue.range, now);
        let (sizes, blobs) = split_entries(self.transactions);
        let tables: BlobsTables = BlobsTables {
            range: self.queue.range,
            execution_blocks: self.execution_blocks,
            beacon_blocks: self.beacon_blocks,
            sizes,
            withdrawals: self.withdrawals,
            execution_transactions: self.execution_transactions,
            provenance,
        };
        assert(self.joins(tables, now));
        match normalize_frames(&tables, blobs) {
            Ok(frames) => Ok(
                ProjectedFrames {
                    range: self.queue.range,
                    budget: self.queue.budget,
                    frames,
                    objects: self.queue.metrics,
                },
            ),
            Err(error) => Err(error),
        }
    }
}

/// How many rows were selected, or why reading stopped.
pub open spec fn counts(
    batch: RowBatch,
    outcome: Result<u64, XatuError>,
    problem: Option<DataProblem>,
    added: int,
) -> bool {
    match problem {
        Some(problem) => outcome matches Err(error) && batch.is_row_error(problem, error),
        None => outcome matches Ok(selected) && selected == added,
    }
}

/// Frames of a range whose sizes are still to be checked.
#[derive(Debug)]
pub struct ProjectedFrames {
    pub range: BlockRange,
    pub budget: SourceBudget,
    pub frames: Vec<BlockFrame>,
    pub objects: Vec<ProjectionObjectMetrics>,
}

/// All transactions that frames hold.
pub open spec fn transactions_held(frames: Seq<FrameView>) -> int
    decreases frames.len(),
{
    if frames.len() == 0 {
        0
    } else {
        transactions_held(frames.drop_last()) + match frames.last().transactions {
            MaterialView::Missing(_) => 0,
            MaterialView::Filtered { value, .. } => value.len() as int,
            MaterialView::Complete(value) => value.len() as int,
        }
    }
}

fn count_transactions(frames: &Vec<BlockFrame>) -> (total: u64)
    ensures
        total == capped(transactions_held(views(frames@))),
{
    let ghost all = views(frames@);
    let mut total: u64 = 0;
    let mut index: usize = 0;
    while index < frames.len()
        invariant
            index <= frames@.len(),
            all == views(frames@),
            transactions_held(all.take(index as int)) >= 0,
            total == capped(transactions_held(all.take(index as int))),
        decreases frames@.len() - index,
    {
        proof {
            let longer = all.take(index + 1);
            assert(longer.drop_last() =~= all.take(index as int));
            assert(longer.last() == frames@[index as int]@);
        }
        let count: u64 = match &frames[index].transactions {
            Material::Missing(_) => 0,
            Material::Filtered { value, .. } => value.len() as u64,
            Material::Complete(value) => value.len() as u64,
        };
        total = total.saturating_add(count);
        index += 1;
    }
    assert(all.take(index as int) =~= all);
    total
}

impl ProjectedFrames {
    /// Reading the objects took no more projected bytes than the budget allows.
    pub open spec fn in_budget(self) -> bool {
        capped(totals_of(self.objects@).projected_compressed_bytes) <= self.budget.max_input_bytes
    }

    /// Checks what the frames take against the budget, and sums up.
    pub fn finish(self, sizes: &Vec<u64>, blobs: bool, elapsed_ms: u64) -> (outcome: Result<
        BlobsProjection,
        XatuError,
    >)
        requires
            sizes@.len() == self.frames@.len(),
            self.in_budget(),
        ensures
            match frame_budget_problem(sizes@, self.budget) {
                Some(problem) => outcome == Err::<BlobsProjection, XatuError>(problem),
                None => match outcome {
                    Ok(projection) => {
                        &&& projection.range == self.range
                        &&& projection.frames == self.frames
                        &&& projection.metrics.objects == self.objects
                        &&& projection.metrics.sums_up()
                        &&& projection.metrics.projected_compressed_bytes
                            <= self.budget.max_input_bytes
                        &&& projection.metrics.frames == self.frames@.len()
                        &&& projection.metrics.frames <= self.budget.max_frames
                        &&& forall|i: int|
                            0 <= i < sizes@.len() ==> #[trigger] sizes@[i]
                                <= self.budget.max_frame_bytes
                        &&& projection.metrics.blob_transactions == if blobs {
                            capped(transactions_held(views(self.frames@)))
                        } else {
                            0
                        }
                        &&& projection.metrics.elapsed_ms == elapsed_ms
                    },
                    Err(_) => false,
                },
            },
    {
        validate_frame_budget(sizes, self.budget)?;
        proof {
            lemma_none_oversized(sizes@, self.budget.max_frame_bytes, 0);
        }
        let blob_transactions: u64 = if blobs {
            count_transactions(&self.frames)
        } else {
            0
        };
        let count: u64 = self.frames.len() as u64;
        Ok(
            BlobsProjection {
                range: self.range,
                frames: self.frames,
                metrics: ProjectionMetrics::summarize(
                    self.objects,
                    count,
                    blob_transactions,
                    elapsed_ms,
                ),
            },
        )
    }
}

} // verus!
