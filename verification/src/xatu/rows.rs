//! Rows of the public tables, and how they are read from batches.

use crate::bytes::{push_bytes, same_array, same_bytes};
use crate::frame::{Log, TransactionEnvelope};
use crate::frame_view::{views, LogView, TransactionView};
use crate::primitives::{Address, BlockHash, BlockNumber, BlockRange, Quantity, TransactionHash};
use crate::request::{FilterSet, LogField, LogFieldSet, TopicFilter};
use crate::xatu::columns::{decode_variable_bytes, variable_of, RowBatch};
use crate::xatu::error::{DataProblem, XatuError};
use crate::xatu::sizes::{
    BeaconBlockRow, ExecutionBlockFork, ExecutionBlockRow, TransactionSizeRow, WithdrawalRow,
};
use std::collections::HashSet;
use vstd::prelude::*;

verus! {

broadcast use vstd::std_specs::hash::group_hash_axioms;

/// What execution tables tell of a blob transaction.
#[derive(Clone, Copy, Debug)]
pub struct ExecutionTransactionRow {
    pub block_number: u64,
    pub index: u32,
    pub hash: TransactionHash,
    pub gas_used: u64,
    pub gas_price: Quantity,
    pub success: bool,
}

/// A blob transaction of the beacon tables.
#[derive(Debug)]
pub struct BeaconTransactionRow {
    pub index: u32,
    pub hash: TransactionHash,
    pub from: Address,
    pub to: Option<Address>,
    pub gas_limit: u64,
    pub size_bytes: u32,
    pub blob_gas: u64,
    pub max_fee_per_blob_gas: Quantity,
    pub blob_hashes: Vec<BlockHash>,
}

/// A blob transaction by value.
pub struct BlobTransactionView {
    pub index: u32,
    pub hash: TransactionHash,
    pub from: Address,
    pub to: Option<Address>,
    pub gas_limit: u64,
    pub size_bytes: u32,
    pub blob_gas: u64,
    pub max_fee_per_blob_gas: Quantity,
    pub blob_hashes: Seq<BlockHash>,
}

impl View for BeaconTransactionRow {
    type V = BlobTransactionView;

    open spec fn view(&self) -> BlobTransactionView {
        BlobTransactionView {
            index: self.index,
            hash: self.hash,
            from: self.from,
            to: self.to,
            gas_limit: self.gas_limit,
            size_bytes: self.size_bytes,
            blob_gas: self.blob_gas,
            max_fee_per_blob_gas: self.max_fee_per_blob_gas,
            blob_hashes: self.blob_hashes@,
        }
    }
}

/// A transaction of the beacon tables: its size, and more of it where it
/// carries blobs.
#[derive(Debug)]
pub struct SlotTransaction {
    pub slot: u64,
    pub size: TransactionSizeRow,
    pub blob: Option<BeaconTransactionRow>,
}

/// A transaction of the beacon tables by value.
pub struct SlotTransactionView {
    pub slot: u64,
    pub size: TransactionSizeRow,
    pub blob: Option<BlobTransactionView>,
}

impl View for SlotTransaction {
    type V = SlotTransactionView;

    open spec fn view(&self) -> SlotTransactionView {
        SlotTransactionView {
            slot: self.slot,
            size: self.size,
            blob: match self.blob {
                Some(blob) => Some(blob@),
                None => None,
            },
        }
    }
}

/// The identity of an execution block.
#[derive(Clone, Copy, Debug)]
pub struct GenericExecutionBlockRow {
    pub number: u64,
    pub hash: BlockHash,
    pub timestamp: u64,
}

/// The identity of a beacon block's execution payload.
#[derive(Clone, Copy, Debug)]
pub struct GenericBeaconBlockRow {
    pub number: u64,
    pub hash: BlockHash,
    pub parent_hash: BlockHash,
    pub timestamp: u64,
    pub transaction_count: u32,
}

/// An execution block by value.
pub struct ExecutionBlockView {
    pub number: u64,
    pub hash: BlockHash,
    pub timestamp: u64,
    pub gas_used: u64,
    pub extra_data: Seq<u8>,
    pub base_fee_per_gas: u64,
}

impl View for ExecutionBlockRow {
    type V = ExecutionBlockView;

    open spec fn view(&self) -> ExecutionBlockView {
        ExecutionBlockView {
            number: self.number,
            hash: self.hash,
            timestamp: self.timestamp,
            gas_used: self.gas_used,
            extra_data: self.extra_data@,
            base_fee_per_gas: self.base_fee_per_gas,
        }
    }
}

impl View for ExecutionTransactionRow {
    type V = ExecutionTransactionRow;

    open spec fn view(&self) -> ExecutionTransactionRow {
        *self
    }
}

impl View for GenericExecutionBlockRow {
    type V = GenericExecutionBlockRow;

    open spec fn view(&self) -> GenericExecutionBlockRow {
        *self
    }
}

impl View for GenericBeaconBlockRow {
    type V = GenericBeaconBlockRow;

    open spec fn view(&self) -> GenericBeaconBlockRow {
        *self
    }
}

impl View for BeaconBlockRow {
    type V = BeaconBlockRow;

    open spec fn view(&self) -> BeaconBlockRow {
        *self
    }
}

impl View for WithdrawalRow {
    type V = WithdrawalRow;

    open spec fn view(&self) -> WithdrawalRow {
        *self
    }
}

/// The encoding rules of a block version, as far as they are known.
pub open spec fn fork_of(version: Seq<u8>) -> Option<ExecutionBlockFork> {
    if version == seq![0x64u8, 0x65, 0x6e, 0x65, 0x62] {
        Some(ExecutionBlockFork::Cancun)
    } else if version == seq![0x65u8, 0x6c, 0x65, 0x63, 0x74, 0x72, 0x61] || version == seq![
        0x66u8,
        0x75,
        0x6c,
        0x75,
    ] {
        Some(ExecutionBlockFork::Prague)
    } else {
        None
    }
}

/// The encoding rules of a block version: of `deneb`, of `electra` and of
/// `fulu`.
fn known_fork(version: &[u8]) -> (fork: Option<ExecutionBlockFork>)
    ensures
        fork == fork_of(version@),
{
    let deneb: [u8; 5] = [0x64, 0x65, 0x6e, 0x65, 0x62];
    let electra: [u8; 7] = [0x65, 0x6c, 0x65, 0x63, 0x74, 0x72, 0x61];
    let fulu: [u8; 4] = [0x66, 0x75, 0x6c, 0x75];
    proof {
        assert(deneb@ =~= seq![0x64u8, 0x65, 0x6e, 0x65, 0x62]);
        assert(electra@ =~= seq![0x65u8, 0x6c, 0x65, 0x63, 0x74, 0x72, 0x61]);
        assert(fulu@ =~= seq![0x66u8, 0x75, 0x6c, 0x75]);
    }
    if same_bytes(version, &deneb) {
        Some(ExecutionBlockFork::Cancun)
    } else if same_bytes(version, &electra) || same_bytes(version, &fulu) {
        Some(ExecutionBlockFork::Prague)
    } else {
        None
    }
}

/// Tells the encoding rules of a block version, and names a version whose
/// rules are not known. Size rules of any other must be added explicitly.
pub fn parse_execution_block_fork(version: &[u8]) -> (outcome: Result<
    ExecutionBlockFork,
    XatuError,
>)
    ensures
        match fork_of(version@) {
            Some(fork) => outcome == Ok::<ExecutionBlockFork, XatuError>(fork),
            None => outcome matches Err(XatuError::UnsupportedVersion(name)) && name@ == version@,
        },
{
    match known_fork(version) {
        Some(fork) => Ok(fork),
        None => {
            let mut name: Vec<u8> = Vec::new();
            push_bytes(&mut name, version);
            assert(name@ =~= version@);
            Err(XatuError::UnsupportedVersion(name))
        },
    }
}

/// What reading gave is what it should have given.
pub open spec fn is_read<R: View>(
    outcome: Result<Option<R>, DataProblem>,
    expected: Result<Option<R::V>, DataProblem>,
) -> bool {
    match outcome {
        Ok(Some(row)) => expected == Ok::<Option<R::V>, DataProblem>(Some(row@)),
        Ok(None) => expected == Ok::<Option<R::V>, DataProblem>(None),
        Err(problem) => expected == Err::<Option<R::V>, DataProblem>(problem),
    }
}

/// What the rows of one kind are.
pub trait RowRules: Sized {
    type Row: View;

    /// What a row gives: nothing where it is passed over.
    spec fn row_at(&self, batch: RowBatch, row: usize) -> Result<
        Option<<Self::Row as View>::V>,
        DataProblem,
    >;
}

/// Reads the rows of one kind from batches.
pub trait RowReader: RowRules {
    fn read(&self, batch: &RowBatch, row: usize) -> (outcome: Result<Option<Self::Row>, DataProblem>)
        requires
            batch.wf(),
            row < batch.rows,
        ensures
            is_read(outcome, self.row_at(*batch, row)),
    ;
}

/// What rows are of which no two may share a key.
pub trait UniqueRules: RowRules {
    spec fn clashes(
        &self,
        held: <Self::Row as View>::V,
        fresh: <Self::Row as View>::V,
    ) -> bool;

    /// What two rows that clash are called.
    spec fn label(&self) -> &'static str;
}

/// Reads rows of which no two may share a key.
pub trait UniqueReader: RowReader + UniqueRules {
    fn clash(&self, held: &Self::Row, fresh: &Self::Row) -> (found: bool)
        ensures
            found == self.clashes(held@, fresh@),
    ;

    fn name(&self) -> (label: &'static str)
        ensures
            label == self.label(),
    ;
}

/// What the rows of a batch from `from` on add to a table, and why they stop.
pub open spec fn gathered<R: RowRules>(
    reader: R,
    batch: RowBatch,
    from: int,
    held: Seq<<R::Row as View>::V>,
) -> (Seq<<R::Row as View>::V>, Option<DataProblem>)
    decreases batch.rows - from,
{
    if from < 0 || from >= batch.rows {
        (held, None)
    } else {
        match reader.row_at(batch, from as usize) {
            Ok(Some(row)) => gathered(reader, batch, from + 1, held.push(row)),
            Ok(None) => gathered(reader, batch, from + 1, held),
            Err(problem) => (held, Some(problem)),
        }
    }
}

/// Some row of a table clashes with a fresh one.
pub open spec fn any_clash<R: UniqueRules>(
    reader: R,
    held: Seq<<R::Row as View>::V>,
    fresh: <R::Row as View>::V,
) -> bool {
    exists|i: int| 0 <= i < held.len() && reader.clashes(#[trigger] held[i], fresh)
}

/// What the rows of a batch from `from` on add to a table without
/// repetitions, and why they stop.
pub open spec fn gathered_unique<R: UniqueRules>(
    reader: R,
    batch: RowBatch,
    from: int,
    held: Seq<<R::Row as View>::V>,
) -> (Seq<<R::Row as View>::V>, Option<DataProblem>)
    decreases batch.rows - from,
{
    if from < 0 || from >= batch.rows {
        (held, None)
    } else {
        match reader.row_at(batch, from as usize) {
            Ok(Some(row)) => if any_clash(reader, held, row) {
                (held, Some(DataProblem::Duplicate(reader.label())))
            } else {
                gathered_unique(reader, batch, from + 1, held.push(row))
            },
            Ok(None) => gathered_unique(reader, batch, from + 1, held),
            Err(problem) => (held, Some(problem)),
        }
    }
}

proof fn lemma_views_push<T: View>(values: Seq<T>, value: T)
    ensures
        views(values.push(value)) == views(values).push(value@),
{
    assert(views(values.push(value)) =~= views(values).push(value@));
}

/// Adds the rows of a batch to a table, and counts them.
pub fn gather<R: RowReader>(reader: &R, batch: &RowBatch, output: &mut Vec<R::Row>) -> (outcome:
    Result<u64, DataProblem>)
    requires
        batch.wf(),
    ensures
        ({
            let (rows, problem) = gathered(*reader, *batch, 0, views(old(output)@));
            &&& views(final(output)@) == rows
            &&& match problem {
                Some(problem) => outcome == Err::<u64, DataProblem>(problem),
                None => outcome matches Ok(selected) && selected == final(output)@.len() - old(
                    output,
                )@.len(),
            }
        }),
{
    let ghost before = output@;
    let mut selected: u64 = 0;
    let mut row: usize = 0;
    while row < batch.rows
        invariant
            batch.wf(),
            row <= batch.rows,
            before == old(output)@,
            gathered(*reader, *batch, 0, views(before)) == gathered(
                *reader,
                *batch,
                row as int,
                views(output@),
            ),
            selected == output@.len() - before.len(),
            selected <= row,
        decreases batch.rows - row,
    {
        match reader.read(batch, row) {
            Ok(Some(fresh)) => {
                proof {
                    lemma_views_push(output@, fresh);
                }
                output.push(fresh);
                selected = selected + 1;
            },
            Ok(None) => {},
            Err(problem) => {
                return Err(problem);
            },
        }
        row += 1;
    }
    Ok(selected)
}

fn find_clash<R: UniqueReader>(reader: &R, held: &Vec<R::Row>, fresh: &R::Row) -> (found: bool)
    ensures
        found == any_clash(*reader, views(held@), fresh@),
{
    let ghost values = views(held@);
    let mut index: usize = 0;
    while index < held.len()
        invariant
            index <= held@.len(),
            values == views(held@),
            forall|i: int| 0 <= i < index ==> !reader.clashes(#[trigger] values[i], fresh@),
        decreases held@.len() - index,
    {
        if reader.clash(&held[index], fresh) {
            assert(reader.clashes(values[index as int], fresh@));
            return true;
        }
        index += 1;
    }
    false
}

/// Adds the rows of a batch to a table without repetitions, and counts them.
pub fn gather_unique<R: UniqueReader>(reader: &R, batch: &RowBatch, output: &mut Vec<R::Row>) -> (
    outcome: Result<u64, DataProblem>)
    requires
        batch.wf(),
    ensures
        ({
            let (rows, problem) = gathered_unique(*reader, *batch, 0, views(old(output)@));
            &&& views(final(output)@) == rows
            &&& match problem {
                Some(problem) => outcome == Err::<u64, DataProblem>(problem),
                None => outcome matches Ok(selected) && selected == final(output)@.len() - old(
                    output,
                )@.len(),
            }
        }),
{
    let ghost before = output@;
    let mut selected: u64 = 0;
    let mut row: usize = 0;
    while row < batch.rows
        invariant
            batch.wf(),
            row <= batch.rows,
            before == old(output)@,
            gathered_unique(*reader, *batch, 0, views(before)) == gathered_unique(
                *reader,
                *batch,
                row as int,
                views(output@),
            ),
            selected == output@.len() - before.len(),
            selected <= row,
        decreases batch.rows - row,
    {
        match reader.read(batch, row) {
            Ok(Some(fresh)) => {
                if find_clash(reader, output, &fresh) {
                    return Err(DataProblem::Duplicate(reader.name()));
                }
                proof {
                    lemma_views_push(output@, fresh);
                }
                output.push(fresh);
                selected = selected + 1;
            },
            Ok(None) => {},
            Err(problem) => {
                return Err(problem);
            },
        }
        row += 1;
    }
    Ok(selected)
}

/// Reads the identity of execution blocks.
#[derive(Debug)]
pub struct GenericExecutionBlocks {
    pub range: BlockRange,
}

impl RowRules for GenericExecutionBlocks {
    type Row = GenericExecutionBlockRow;

    open spec fn row_at(&self, batch: RowBatch, row: usize) -> Result<
        Option<GenericExecutionBlockRow>,
        DataProblem,
    > {
        match batch.u64_at("block_number", row) {
            Err(problem) => Err(problem),
            Ok(number) => {
                if !self.range.has(number as int) {
                    Ok(None)
                } else {
                    match batch.i64_at("block_date_time", row) {
                        Err(problem) => Err(problem),
                        Ok(milliseconds) => {
                            if milliseconds < 0 {
                                Err(DataProblem::Text("negative block timestamp"))
                            } else {
                                match batch.hash_at("block_hash", row) {
                                    Err(problem) => Err(problem),
                                    Ok(hash) => {
                                        Ok(
                                            Some(
                                                GenericExecutionBlockRow {
                                                    number,
                                                    hash,
                                                    timestamp: (milliseconds as int / 1000) as u64,
                                                },
                                            ),
                                        )
                                    },
                                }
                            }
                        },
                    }
                }
            },
        }
    }
}

impl RowReader for GenericExecutionBlocks {
    fn read(&self, batch: &RowBatch, row: usize) -> (outcome: Result<
        Option<GenericExecutionBlockRow>,
        DataProblem,
    >) {
        let number: u64 = batch.required_u64("block_number", row)?;
        if !self.range.contains(BlockNumber(number)) {
            return Ok(None);
        }
        let milliseconds: i64 = batch.required_i64("block_date_time", row)?;
        if milliseconds < 0 {
            return Err(DataProblem::Text("negative block timestamp"));
        }
        let hash: BlockHash = batch.required_hash("block_hash", row)?;
        Ok(Some(GenericExecutionBlockRow { number, hash, timestamp: milliseconds as u64 / 1000 }))
    }
}

impl UniqueRules for GenericExecutionBlocks {
    open spec fn clashes(&self, held: GenericExecutionBlockRow, fresh: GenericExecutionBlockRow) -> bool {
        held.number == fresh.number
    }

    open spec fn label(&self) -> &'static str {
        "generic execution block"
    }
}

impl UniqueReader for GenericExecutionBlocks {
    fn clash(&self, held: &GenericExecutionBlockRow, fresh: &GenericExecutionBlockRow) -> (found: bool) {
        held.number == fresh.number
    }

    fn name(&self) -> (label: &'static str) {
        "generic execution block"
    }
}

/// Reads the identity of beacon blocks.
#[derive(Debug)]
pub struct GenericBeaconBlocks {
    pub range: BlockRange,
}

impl RowRules for GenericBeaconBlocks {
    type Row = GenericBeaconBlockRow;

    open spec fn row_at(&self, batch: RowBatch, row: usize) -> Result<
        Option<GenericBeaconBlockRow>,
        DataProblem,
    > {
        match batch.optional_u64_at("execution_payload_block_number", row) {
            Err(problem) => Err(problem),
            Ok(found) => {
                if found is None {
                    Ok(None)
                } else {
                    let number = found->0;
                    if !self.range.has(number as int) {
                        Ok(None)
                    } else {
                        match batch.hash_at("execution_payload_block_hash", row) {
                            Err(problem) => Err(problem),
                            Ok(hash) => {
                                match batch.hash_at("execution_payload_parent_hash", row) {
                                    Err(problem) => Err(problem),
                                    Ok(parent_hash) => {
                                        match batch.u64_at("slot_start_date_time", row) {
                                            Err(problem) => Err(problem),
                                            Ok(timestamp) => {
                                                match batch.u32_at("execution_payload_transactions_count", row) {
                                                    Err(problem) => Err(problem),
                                                    Ok(transaction_count) => {
                                                        Ok(Some(GenericBeaconBlockRow { number, hash, parent_hash, timestamp, transaction_count }))
                                                    },
                                                }
                                            },
                                        }
                                    },
                                }
                            },
                        }
                    }
                }
            },
        }
    }
}

impl RowReader for GenericBeaconBlocks {
    fn read(&self, batch: &RowBatch, row: usize) -> (outcome: Result<
        Option<GenericBeaconBlockRow>,
        DataProblem,
    >) {
        let number: u64 = match batch.optional_u64("execution_payload_block_number", row)? {
            Some(number) => number,
            None => {
                return Ok(None);
            },
        };
        if !self.range.contains(BlockNumber(number)) {
            return Ok(None);
        }
        let hash: BlockHash = batch.required_hash("execution_payload_block_hash", row)?;
        let parent_hash: BlockHash = batch.required_hash("execution_payload_parent_hash", row)?;
        let timestamp: u64 = batch.required_u64("slot_start_date_time", row)?;
        let transaction_count: u32 = batch.required_u32("execution_payload_transactions_count", row)?;
        Ok(Some(GenericBeaconBlockRow { number, hash, parent_hash, timestamp, transaction_count }))
    }
}

impl UniqueRules for GenericBeaconBlocks {
    open spec fn clashes(&self, held: GenericBeaconBlockRow, fresh: GenericBeaconBlockRow) -> bool {
        held.number == fresh.number
    }

    open spec fn label(&self) -> &'static str {
        "generic beacon block"
    }
}

impl UniqueReader for GenericBeaconBlocks {
    fn clash(&self, held: &GenericBeaconBlockRow, fresh: &GenericBeaconBlockRow) -> (found: bool) {
        held.number == fresh.number
    }

    fn name(&self) -> (label: &'static str) {
        "generic beacon block"
    }
}

/// Reads execution blocks.
#[derive(Debug)]
pub struct ExecutionBlocks {
    pub range: BlockRange,
}

impl RowRules for ExecutionBlocks {
    type Row = ExecutionBlockRow;

    open spec fn row_at(&self, batch: RowBatch, row: usize) -> Result<
        Option<ExecutionBlockView>,
        DataProblem,
    > {
        match batch.u64_at("block_number", row) {
            Err(problem) => Err(problem),
            Ok(number) => {
                if !self.range.has(number as int) {
                    Ok(None)
                } else {
                    match batch.i64_at("block_date_time", row) {
                        Err(problem) => Err(problem),
                        Ok(milliseconds) => {
                            if milliseconds < 0 {
                                Err(DataProblem::Text("negative block timestamp"))
                            } else {
                                match batch.hash_at("block_hash", row) {
                                    Err(problem) => Err(problem),
                                    Ok(hash) => {
                                        match batch.u64_at("gas_used", row) {
                                            Err(problem) => Err(problem),
                                            Ok(gas_used) => {
                                                match batch.bytes_at("extra_data", row) {
                                                    Err(problem) => Err(problem),
                                                    Ok(raw_extra) => {
                                                        match variable_of(raw_extra, "extra_data", row) {
                                                            Err(problem) => Err(problem),
                                                            Ok(extra_data) => {
                                                                match batch.u64_at("base_fee_per_gas", row) {
                                                                    Err(problem) => Err(problem),
                                                                    Ok(base_fee_per_gas) => {
                                                                        Ok(
                                                                            Some(
                                                                                ExecutionBlockView {
                                                                                    number,
                                                                                    hash,
                                                                                    timestamp: (milliseconds as int / 1000) as u64,
                                                                                    gas_used,
                                                                                    extra_data,
                                                                                    base_fee_per_gas,
                                                                                },
                                                                            ),
                                                                        )
                                                                    },
                                                                }
                                                            },
                                                        }
                                                    },
                                                }
                                            },
                                        }
                                    },
                                }
                            }
                        },
                    }
                }
            },
        }
    }
}

impl RowReader for ExecutionBlocks {
    fn read(&self, batch: &RowBatch, row: usize) -> (outcome: Result<
        Option<ExecutionBlockRow>,
        DataProblem,
    >) {
        let number: u64 = batch.required_u64("block_number", row)?;
        if !self.range.contains(BlockNumber(number)) {
            return Ok(None);
        }
        let milliseconds: i64 = batch.required_i64("block_date_time", row)?;
        if milliseconds < 0 {
            return Err(DataProblem::Text("negative block timestamp"));
        }
        let hash: BlockHash = batch.required_hash("block_hash", row)?;
        let gas_used: u64 = batch.required_u64("gas_used", row)?;
        let raw_extra: &Vec<u8> = batch.required_bytes("extra_data", row)?;
        let extra_data: Vec<u8> = decode_variable_bytes(raw_extra, "extra_data", row)?;
        let base_fee_per_gas: u64 = batch.required_u64("base_fee_per_gas", row)?;
        Ok(
            Some(
                ExecutionBlockRow {
                    number,
                    hash,
                    timestamp: milliseconds as u64 / 1000,
                    gas_used,
                    extra_data,
                    base_fee_per_gas,
                },
            ),
        )
    }
}

impl UniqueRules for ExecutionBlocks {
    open spec fn clashes(&self, held: ExecutionBlockView, fresh: ExecutionBlockView) -> bool {
        held.number == fresh.number
    }

    open spec fn label(&self) -> &'static str {
        "execution block"
    }
}

impl UniqueReader for ExecutionBlocks {
    fn clash(&self, held: &ExecutionBlockRow, fresh: &ExecutionBlockRow) -> (found: bool) {
        held.number == fresh.number
    }

    fn name(&self) -> (label: &'static str) {
        "execution block"
    }
}

/// Reads beacon blocks with their execution payloads.
#[derive(Debug)]
pub struct BeaconBlocks {
    pub range: BlockRange,
}

impl RowRules for BeaconBlocks {
    type Row = BeaconBlockRow;

    open spec fn row_at(&self, batch: RowBatch, row: usize) -> Result<
        Option<BeaconBlockRow>,
        DataProblem,
    > {
        match batch.optional_u64_at("execution_payload_block_number", row) {
            Err(problem) => Err(problem),
            Ok(found) => {
                if found is None {
                    Ok(None)
                } else {
                    let number = found->0;
                    if !self.range.has(number as int) {
                        Ok(None)
                    } else {
                        match batch.u64_at("slot", row) {
                            Err(problem) => Err(problem),
                            Ok(slot) => {
                                match batch.hash_at("execution_payload_block_hash", row) {
                                    Err(problem) => Err(problem),
                                    Ok(hash) => {
                                        match batch.hash_at("execution_payload_parent_hash", row) {
                                            Err(problem) => Err(problem),
                                            Ok(parent_hash) => {
                                                match batch.u64_at("slot_start_date_time", row) {
                                                    Err(problem) => Err(problem),
                                                    Ok(timestamp) => {
                                                        match batch.u64_at("block_total_bytes", row) {
                                                            Err(problem) => Err(problem),
                                                            Ok(consensus_size_bytes) => {
                                                                match batch.bytes_at("block_version", row) {
                                                                    Err(problem) => Err(problem),
                                                                    Ok(version) => {
                                                                        match fork_of(version) {
                                                                            None => Err(DataProblem::UnsupportedVersion { column: "block_version", row }),
                                                                            Some(fork) => {
                                                                                match batch.quantity_le_at("execution_payload_base_fee_per_gas", row) {
                                                                                    Err(problem) => Err(problem),
                                                                                    Ok(base_fee_per_gas) => {
                                                                                        match batch.u64_at("execution_payload_blob_gas_used", row) {
                                                                                            Err(problem) => Err(problem),
                                                                                            Ok(blob_gas_used) => {
                                                                                                match batch.u64_at("execution_payload_excess_blob_gas", row) {
                                                                                                    Err(problem) => Err(problem),
                                                                                                    Ok(excess_blob_gas) => {
                                                                                                        match batch.u64_at("execution_payload_gas_limit", row) {
                                                                                                            Err(problem) => Err(problem),
                                                                                                            Ok(gas_limit) => {
                                                                                                                match batch.u64_at("execution_payload_gas_used", row) {
                                                                                                                    Err(problem) => Err(problem),
                                                                                                                    Ok(gas_used) => {
                                                                                                                        match batch.u32_at("execution_payload_transactions_count", row) {
                                                                                                                            Err(problem) => Err(problem),
                                                                                                                            Ok(transaction_count) => {
                                                                                                                                match batch.u64_at("execution_payload_transactions_total_bytes", row) {
                                                                                                                                    Err(problem) => Err(problem),
                                                                                                                                    Ok(transactions_total_bytes) => {
                                                                                                                                        Ok(
                                                                                                                                            Some(
                                                                                                                                                BeaconBlockRow {
                                                                                                                                                    slot,
                                                                                                                                                    number,
                                                                                                                                                    hash,
                                                                                                                                                    parent_hash,
                                                                                                                                                    timestamp,
                                                                                                                                                    consensus_size_bytes,
                                                                                                                                                    fork,
                                                                                                                                                    base_fee_per_gas,
                                                                                                                                                    blob_gas_used,
                                                                                                                                                    excess_blob_gas,
                                                                                                                                                    gas_limit,
                                                                                                                                                    gas_used,
                                                                                                                                                    transaction_count,
                                                                                                                                                    transactions_total_bytes,
                                                                                                                                                },
                                                                                                                                            ),
                                                                                                                                        )
                                                                                                                                    },
                                                                                                                                }
                                                                                                                            },
                                                                                                                        }
                                                                                                                    },
                                                                                                                }
                                                                                                            },
                                                                                                        }
                                                                                                    },
                                                                                                }
                                                                                            },
                                                                                        }
                                                                                    },
                                                                                }
                                                                            },
                                                                        }
                                                                    },
                                                                }
                                                            },
                                                        }
                                                    },
                                                }
                                            },
                                        }
                                    },
                                }
                            },
                        }
                    }
                }
            },
        }
    }
}

impl RowReader for BeaconBlocks {
    fn read(&self, batch: &RowBatch, row: usize) -> (outcome: Result<
        Option<BeaconBlockRow>,
        DataProblem,
    >) {
        let number: u64 = match batch.optional_u64("execution_payload_block_number", row)? {
            Some(number) => number,
            None => {
                return Ok(None);
            },
        };
        if !self.range.contains(BlockNumber(number)) {
            return Ok(None);
        }
        let slot: u64 = batch.required_u64("slot", row)?;
        let hash: BlockHash = batch.required_hash("execution_payload_block_hash", row)?;
        let parent_hash: BlockHash = batch.required_hash("execution_payload_parent_hash", row)?;
        let timestamp: u64 = batch.required_u64("slot_start_date_time", row)?;
        let consensus_size_bytes: u64 = batch.required_u64("block_total_bytes", row)?;
        let version: &Vec<u8> = batch.required_bytes("block_version", row)?;
        let fork: ExecutionBlockFork = match known_fork(version.as_slice()) {
            Some(fork) => fork,
            None => {
                return Err(DataProblem::UnsupportedVersion { column: "block_version", row });
            },
        };
        let base_fee_per_gas: Quantity = batch.required_quantity_le("execution_payload_base_fee_per_gas", row)?;
        let blob_gas_used: u64 = batch.required_u64("execution_payload_blob_gas_used", row)?;
        let excess_blob_gas: u64 = batch.required_u64("execution_payload_excess_blob_gas", row)?;
        let gas_limit: u64 = batch.required_u64("execution_payload_gas_limit", row)?;
        let gas_used: u64 = batch.required_u64("execution_payload_gas_used", row)?;
        let transaction_count: u32 = batch.required_u32("execution_payload_transactions_count", row)?;
        let transactions_total_bytes: u64 = batch.required_u64("execution_payload_transactions_total_bytes", row)?;
        Ok(
            Some(
                BeaconBlockRow {
                    slot,
                    number,
                    hash,
                    parent_hash,
                    timestamp,
                    consensus_size_bytes,
                    fork,
                    base_fee_per_gas,
                    blob_gas_used,
                    excess_blob_gas,
                    gas_limit,
                    gas_used,
                    transaction_count,
                    transactions_total_bytes,
                },
            ),
        )
    }
}

impl UniqueRules for BeaconBlocks {
    open spec fn clashes(&self, held: BeaconBlockRow, fresh: BeaconBlockRow) -> bool {
        held.number == fresh.number
    }

    open spec fn label(&self) -> &'static str {
        "beacon execution block"
    }
}

impl UniqueReader for BeaconBlocks {
    fn clash(&self, held: &BeaconBlockRow, fresh: &BeaconBlockRow) -> (found: bool) {
        held.number == fresh.number
    }

    fn name(&self) -> (label: &'static str) {
        "beacon execution block"
    }
}

/// Reads the withdrawals of chosen slots.
#[derive(Debug)]
pub struct Withdrawals {
    pub slots: HashSet<u64>,
}

impl RowRules for Withdrawals {
    type Row = (u64, WithdrawalRow);

    open spec fn row_at(&self, batch: RowBatch, row: usize) -> Result<
        Option<(u64, WithdrawalRow)>,
        DataProblem,
    > {
        match batch.u64_at("slot", row) {
            Err(problem) => Err(problem),
            Ok(slot) => {
                if !self.slots@.contains(slot) {
                    Ok(None)
                } else {
                    match batch.u64_at("withdrawal_index", row) {
                        Err(problem) => Err(problem),
                        Ok(index) => {
                            match batch.u64_at("withdrawal_validator_index", row) {
                                Err(problem) => Err(problem),
                                Ok(validator_index) => {
                                    match batch.address_at("withdrawal_address", row) {
                                        Err(problem) => Err(problem),
                                        Ok(address) => {
                                            match batch.quantity_u64_at("withdrawal_amount", row) {
                                                Err(problem) => Err(problem),
                                                Ok(amount_gwei) => {
                                                    Ok(Some((slot, WithdrawalRow { index, validator_index, address, amount_gwei })))
                                                },
                                            }
                                        },
                                    }
                                },
                            }
                        },
                    }
                }
            },
        }
    }
}

impl RowReader for Withdrawals {
    fn read(&self, batch: &RowBatch, row: usize) -> (outcome: Result<
        Option<(u64, WithdrawalRow)>,
        DataProblem,
    >) {
        let slot: u64 = batch.required_u64("slot", row)?;
        if !self.slots.contains(&slot) {
            return Ok(None);
        }
        let index: u64 = batch.required_u64("withdrawal_index", row)?;
        let validator_index: u64 = batch.required_u64("withdrawal_validator_index", row)?;
        let address: Address = batch.required_address("withdrawal_address", row)?;
        let amount_gwei: u64 = batch.required_quantity_u64_le("withdrawal_amount", row)?;
        Ok(Some((slot, WithdrawalRow { index, validator_index, address, amount_gwei })))
    }
}

/// Reads what execution tables tell of blob transactions.
#[derive(Debug)]
pub struct ExecutionTransactions {
    pub range: BlockRange,
}

impl RowRules for ExecutionTransactions {
    type Row = ExecutionTransactionRow;

    open spec fn row_at(&self, batch: RowBatch, row: usize) -> Result<
        Option<ExecutionTransactionRow>,
        DataProblem,
    > {
        match batch.u64_at("block_number", row) {
            Err(problem) => Err(problem),
            Ok(number) => {
                if !self.range.has(number as int) {
                    Ok(None)
                } else {
                    match batch.u64_at("transaction_type", row) {
                        Err(problem) => Err(problem),
                        Ok(kind) => {
                            if kind != 3 {
                                Ok(None)
                            } else {
                                match batch.transaction_hash_at("transaction_hash", row) {
                                    Err(problem) => Err(problem),
                                    Ok(hash) => {
                                        match batch.u32_at("transaction_index", row) {
                                            Err(problem) => Err(problem),
                                            Ok(index) => {
                                                match batch.u64_at("gas_used", row) {
                                                    Err(problem) => Err(problem),
                                                    Ok(gas_used) => {
                                                        match batch.quantity_at("gas_price", row) {
                                                            Err(problem) => Err(problem),
                                                            Ok(gas_price) => {
                                                                match batch.bool_at("success", row) {
                                                                    Err(problem) => Err(problem),
                                                                    Ok(success) => {
                                                                        Ok(
                                                                            Some(
                                                                                ExecutionTransactionRow {
                                                                                    block_number: number,
                                                                                    index,
                                                                                    hash,
                                                                                    gas_used,
                                                                                    gas_price,
                                                                                    success,
                                                                                },
                                                                            ),
                                                                        )
                                                                    },
                                                                }
                                                            },
                                                        }
                                                    },
                                                }
                                            },
                                        }
                                    },
                                }
                            }
                        },
                    }
                }
            },
        }
    }
}

impl RowReader for ExecutionTransactions {
    fn read(&self, batch: &RowBatch, row: usize) -> (outcome: Result<
        Option<ExecutionTransactionRow>,
        DataProblem,
    >) {
        let number: u64 = batch.required_u64("block_number", row)?;
        if !self.range.contains(BlockNumber(number)) {
            return Ok(None);
        }
        let kind: u64 = batch.required_u64("transaction_type", row)?;
        if kind != 3 {
            return Ok(None);
        }
        let hash: TransactionHash = batch.required_transaction_hash("transaction_hash", row)?;
        let index: u32 = batch.required_u32("transaction_index", row)?;
        let gas_used: u64 = batch.required_u64("gas_used", row)?;
        let gas_price: Quantity = batch.required_quantity_compatible("gas_price", row)?;
        let success: bool = batch.required_bool("success", row)?;
        Ok(
            Some(
                ExecutionTransactionRow {
                    block_number: number,
                    index,
                    hash,
                    gas_used,
                    gas_price,
                    success,
                },
            ),
        )
    }
}

impl UniqueRules for ExecutionTransactions {
    open spec fn clashes(&self, held: ExecutionTransactionRow, fresh: ExecutionTransactionRow) -> bool {
        held.hash == fresh.hash
    }

    open spec fn label(&self) -> &'static str {
        "execution transaction"
    }
}

impl UniqueReader for ExecutionTransactions {
    fn clash(&self, held: &ExecutionTransactionRow, fresh: &ExecutionTransactionRow) -> (found: bool) {
        held.hash == fresh.hash
    }

    fn name(&self) -> (label: &'static str) {
        "execution transaction"
    }
}

/// More of a transaction that carries blobs.
pub open spec fn blob_at(batch: RowBatch, row: usize, slot: u64, size_bytes: u32) -> Result<
    BlobTransactionView,
    DataProblem,
> {
    match batch.hash_list_at("blob_hashes", row) {
        Err(problem) => Err(problem),
        Ok(blob_hashes) => {
            if blob_hashes.len() == 0 {
                Err(DataProblem::NoBlobHashes { slot })
            } else {
                match batch.u32_at("position", row) {
                    Err(problem) => Err(problem),
                    Ok(index) => {
                        match batch.transaction_hash_at("hash", row) {
                            Err(problem) => Err(problem),
                            Ok(hash) => {
                                match batch.address_at("from", row) {
                                    Err(problem) => Err(problem),
                                    Ok(from) => {
                                        match batch.optional_address_at("to", row) {
                                            Err(problem) => Err(problem),
                                            Ok(to) => {
                                                match batch.u64_at("gas", row) {
                                                    Err(problem) => Err(problem),
                                                    Ok(gas_limit) => {
                                                        match batch.u64_at("blob_gas", row) {
                                                            Err(problem) => Err(problem),
                                                            Ok(blob_gas) => {
                                                                match batch.quantity_le_at("blob_gas_fee_cap", row) {
                                                                    Err(problem) => Err(problem),
                                                                    Ok(max_fee_per_blob_gas) => {
                                                                        Ok(
                                                                            BlobTransactionView {
                                                                                index,
                                                                                hash,
                                                                                from,
                                                                                to,
                                                                                gas_limit,
                                                                                size_bytes,
                                                                                blob_gas,
                                                                                max_fee_per_blob_gas,
                                                                                blob_hashes,
                                                                            },
                                                                        )
                                                                    },
                                                                }
                                                            },
                                                        }
                                                    },
                                                }
                                            },
                                        }
                                    },
                                }
                            },
                        }
                    },
                }
            }
        },
    }
}

fn read_blob(batch: &RowBatch, row: usize, slot: u64, size_bytes: u32) -> (outcome: Result<
    BeaconTransactionRow,
    DataProblem,
>)
    requires
        batch.wf(),
        row < batch.rows,
    ensures
        match outcome {
            Ok(blob) => blob_at(*batch, row, slot, size_bytes) == Ok::<
                BlobTransactionView,
                DataProblem,
            >(blob@),
            Err(problem) => blob_at(*batch, row, slot, size_bytes) == Err::<
                BlobTransactionView,
                DataProblem,
            >(problem),
        },
{
    let blob_hashes: Vec<BlockHash> = batch.required_hash_list("blob_hashes", row)?;
    if blob_hashes.len() == 0 {
        return Err(DataProblem::NoBlobHashes { slot });
    }
    let index: u32 = batch.required_u32("position", row)?;
    let hash: TransactionHash = batch.required_transaction_hash("hash", row)?;
    let from: Address = batch.required_address("from", row)?;
    let to: Option<Address> = batch.optional_address("to", row)?;
    let gas_limit: u64 = batch.required_u64("gas", row)?;
    let blob_gas: u64 = batch.required_u64("blob_gas", row)?;
    let max_fee_per_blob_gas: Quantity = batch.required_quantity_le("blob_gas_fee_cap", row)?;
    Ok(
        BeaconTransactionRow {
            index,
            hash,
            from,
            to,
            gas_limit,
            size_bytes,
            blob_gas,
            max_fee_per_blob_gas,
            blob_hashes,
        },
    )
}

/// Reads the transactions of chosen slots.
#[derive(Debug)]
pub struct BeaconTransactions {
    pub slots: HashSet<u64>,
}

impl RowRules for BeaconTransactions {
    type Row = SlotTransaction;

    open spec fn row_at(&self, batch: RowBatch, row: usize) -> Result<
        Option<SlotTransactionView>,
        DataProblem,
    > {
        match batch.u64_at("slot", row) {
            Err(problem) => Err(problem),
            Ok(slot) => if !self.slots@.contains(slot) {
                Ok(None)
            } else {
                match (batch.u8_at("type", row), batch.u32_at("size", row)) {
                    (Err(problem), _) => Err(problem),
                    (_, Err(problem)) => Err(problem),
                    (Ok(transaction_type), Ok(size_bytes)) => {
                        let size = TransactionSizeRow { transaction_type, size_bytes };
                        if transaction_type != 3 {
                            Ok(Some(SlotTransactionView { slot, size, blob: None }))
                        } else {
                            match blob_at(batch, row, slot, size_bytes) {
                                Ok(blob) => Ok(
                                    Some(SlotTransactionView { slot, size, blob: Some(blob) }),
                                ),
                                Err(problem) => Err(problem),
                            }
                        }
                    },
                }
            },
        }
    }
}

impl RowReader for BeaconTransactions {
    fn read(&self, batch: &RowBatch, row: usize) -> (outcome: Result<
        Option<SlotTransaction>,
        DataProblem,
    >) {
        let slot: u64 = batch.required_u64("slot", row)?;
        if !self.slots.contains(&slot) {
            return Ok(None);
        }
        let transaction_type: u8 = batch.required_u8("type", row)?;
        let size_bytes: u32 = batch.required_u32("size", row)?;
        let size: TransactionSizeRow = TransactionSizeRow { transaction_type, size_bytes };
        if transaction_type != 3 {
            return Ok(Some(SlotTransaction { slot, size, blob: None }));
        }
        let blob: BeaconTransactionRow = read_blob(batch, row, slot, size_bytes)?;
        Ok(Some(SlotTransaction { slot, size, blob: Some(blob) }))
    }
}

/// A list that is empty, or names the value.
pub open spec fn allows<T>(list: Seq<T>, value: T) -> bool {
    list.len() == 0 || list.contains(value)
}

/// The first list, unless it is empty.
pub open spec fn chosen_list(first: Seq<Address>, second: Seq<Address>) -> Seq<Address> {
    if first.len() == 0 {
        second
    } else {
        first
    }
}

/// A recipient that a filter accepts: none is named by no list.
pub open spec fn allows_recipient(list: Seq<Address>, to: Option<Address>) -> bool {
    list.len() == 0 || (to matches Some(address) && list.contains(address))
}

fn holds_address(list: &Vec<Address>, address: Address) -> (found: bool)
    ensures
        found == list@.contains(address),
{
    let mut index: usize = 0;
    while index < list.len()
        invariant
            index <= list@.len(),
            forall|i: int| 0 <= i < index ==> #[trigger] list@[i] != address,
        decreases list@.len() - index,
    {
        if list[index] == address {
            assert(list@[index as int] == address);
            return true;
        }
        index += 1;
    }
    false
}

fn holds_hash(list: &Vec<TransactionHash>, hash: TransactionHash) -> (found: bool)
    ensures
        found == list@.contains(hash),
{
    let mut index: usize = 0;
    while index < list.len()
        invariant
            index <= list@.len(),
            forall|i: int| 0 <= i < index ==> #[trigger] list@[i] != hash,
        decreases list@.len() - index,
    {
        if list[index] == hash {
            assert(list@[index as int] == hash);
            return true;
        }
        index += 1;
    }
    false
}

fn holds_byte(list: &Vec<u8>, value: u8) -> (found: bool)
    ensures
        found == list@.contains(value),
{
    let mut index: usize = 0;
    while index < list.len()
        invariant
            index <= list@.len(),
            forall|i: int| 0 <= i < index ==> #[trigger] list@[i] != value,
        decreases list@.len() - index,
    {
        if list[index] == value {
            assert(list@[index as int] == value);
            return true;
        }
        index += 1;
    }
    false
}

fn holds_topic(list: &Vec<[u8; 32]>, topic: &[u8; 32]) -> (found: bool)
    ensures
        found == list@.contains(*topic),
{
    let mut index: usize = 0;
    while index < list.len()
        invariant
            index <= list@.len(),
            forall|i: int| 0 <= i < index ==> #[trigger] list@[i] != *topic,
        decreases list@.len() - index,
    {
        if same_array(&list[index], topic) {
            assert(list@[index as int] == *topic);
            return true;
        }
        index += 1;
    }
    false
}

/// The senders that a filter asks for.
pub open spec fn wanted_senders(filters: FilterSet) -> Seq<Address> {
    chosen_list(filters.senders@, filters.scope.senders@)
}

/// The recipients that a filter asks for.
pub open spec fn wanted_recipients(filters: FilterSet) -> Seq<Address> {
    chosen_list(filters.recipients@, filters.scope.recipients@)
}

fn sender_ok(filters: &FilterSet, from: Address) -> (accepted: bool)
    ensures
        accepted == allows(wanted_senders(*filters), from),
{
    let list: &Vec<Address> = if filters.senders.len() == 0 {
        &filters.scope.senders
    } else {
        &filters.senders
    };
    list.len() == 0 || holds_address(list, from)
}

fn recipient_ok(filters: &FilterSet, to: Option<Address>) -> (accepted: bool)
    ensures
        accepted == allows_recipient(wanted_recipients(*filters), to),
{
    let list: &Vec<Address> = if filters.recipients.len() == 0 {
        &filters.scope.recipients
    } else {
        &filters.recipients
    };
    if list.len() == 0 {
        return true;
    }
    match to {
        Some(address) => holds_address(list, address),
        None => false,
    }
}

/// Reads the transactions that a filter selects.
#[derive(Debug)]
pub struct GenericTransactions<'a> {
    pub range: BlockRange,
    pub filters: &'a FilterSet,
}

impl<'a> RowRules for GenericTransactions<'a> {
    type Row = (u64, TransactionEnvelope);

    open spec fn row_at(&self, batch: RowBatch, row: usize) -> Result<
        Option<(u64, TransactionView)>,
        DataProblem,
    > {
        match batch.u64_at("block_number", row) {
            Err(problem) => Err(problem),
            Ok(number) => {
                if !self.range.has(number as int) {
                    Ok(None)
                } else {
                    match batch.u8_at("transaction_type", row) {
                        Err(problem) => Err(problem),
                        Ok(transaction_type) => {
                            if !allows(self.filters.scope.transaction_types@, transaction_type) {
                                Ok(None)
                            } else {
                                match batch.transaction_hash_at("transaction_hash", row) {
                                    Err(problem) => Err(problem),
                                    Ok(hash) => {
                                        if !allows(self.filters.scope.transaction_hashes@, hash) {
                                            Ok(None)
                                        } else {
                                            match batch.address_at("from_address", row) {
                                                Err(problem) => Err(problem),
                                                Ok(from) => {
                                                    match batch.optional_address_at("to_address", row) {
                                                        Err(problem) => Err(problem),
                                                        Ok(to) => {
                                                            if !allows(wanted_senders(*self.filters), from) {
                                                                Ok(None)
                                                            } else {
                                                                if !allows_recipient(wanted_recipients(*self.filters), to) {
                                                                    Ok(None)
                                                                } else {
                                                                    match batch.u32_at("transaction_index", row) {
                                                                        Err(problem) => Err(problem),
                                                                        Ok(index) => {
                                                                            match batch.u64_at("nonce", row) {
                                                                                Err(problem) => Err(problem),
                                                                                Ok(nonce) => {
                                                                                    match batch.u64_at("gas_limit", row) {
                                                                                        Err(problem) => Err(problem),
                                                                                        Ok(gas_limit) => {
                                                                                            match batch.quantity_at("value", row) {
                                                                                                Err(problem) => Err(problem),
                                                                                                Ok(value) => {
                                                                                                    match batch.optional_variable_at("input", row) {
                                                                                                        Err(problem) => Err(problem),
                                                                                                        Ok(input) => {
                                                                                                            Ok(
                                                                                                                Some(
                                                                                                                    (
                                                                                                                        number,
                                                                                                                        TransactionView {
                                                                                                                            hash,
                                                                                                                            transaction_type,
                                                                                                                            index,
                                                                                                                            encoded: None,
                                                                                                                            from: Some(from),
                                                                                                                            to,
                                                                                                                            nonce: Some(nonce),
                                                                                                                            gas_limit: Some(gas_limit),
                                                                                                                            value: Some(value),
                                                                                                                            input,
                                                                                                                            max_fee_per_gas: None,
                                                                                                                            max_priority_fee_per_gas: None,
                                                                                                                            max_fee_per_blob_gas: None,
                                                                                                                            blob_versioned_hashes: Seq::empty(),
                                                                                                                            size_bytes: None,
                                                                                                                        },
                                                                                                                    ),
                                                                                                                ),
                                                                                                            )
                                                                                                        },
                                                                                                    }
                                                                                                },
                                                                                            }
                                                                                        },
                                                                                    }
                                                                                },
                                                                            }
                                                                        },
                                                                    }
                                                                }
                                                            }
                                                        },
                                                    }
                                                },
                                            }
                                        }
                                    },
                                }
                            }
                        },
                    }
                }
            },
        }
    }
}

impl<'a> RowReader for GenericTransactions<'a> {
    fn read(&self, batch: &RowBatch, row: usize) -> (outcome: Result<
        Option<(u64, TransactionEnvelope)>,
        DataProblem,
    >) {
        let number: u64 = batch.required_u64("block_number", row)?;
        if !self.range.contains(BlockNumber(number)) {
            return Ok(None);
        }
        let transaction_type: u8 = batch.required_u8("transaction_type", row)?;
        if self.filters.scope.transaction_types.len() > 0 && !holds_byte(
            &self.filters.scope.transaction_types,
            transaction_type,
        ) {
            return Ok(None);
        }
        let hash: TransactionHash = batch.required_transaction_hash("transaction_hash", row)?;
        if self.filters.scope.transaction_hashes.len() > 0 && !holds_hash(
            &self.filters.scope.transaction_hashes,
            hash,
        ) {
            return Ok(None);
        }
        let from: Address = batch.required_address("from_address", row)?;
        let to: Option<Address> = batch.optional_address("to_address", row)?;
        if !sender_ok(self.filters, from) {
            return Ok(None);
        }
        if !recipient_ok(self.filters, to) {
            return Ok(None);
        }
        let index: u32 = batch.required_u32("transaction_index", row)?;
        let nonce: u64 = batch.required_u64("nonce", row)?;
        let gas_limit: u64 = batch.required_u64("gas_limit", row)?;
        let value: Quantity = batch.required_quantity_compatible("value", row)?;
        let input: Option<Vec<u8>> = batch.optional_variable_bytes("input", row)?;
        let transaction: TransactionEnvelope = TransactionEnvelope {
            hash,
            transaction_type,
            index,
            encoded: None,
            from: Some(from),
            to,
            nonce: Some(nonce),
            gas_limit: Some(gas_limit),
            value: Some(value),
            input,
            max_fee_per_gas: None,
            max_priority_fee_per_gas: None,
            max_fee_per_blob_gas: None,
            blob_versioned_hashes: Vec::new(),
            size_bytes: None,
        };
        assert(transaction@.blob_versioned_hashes =~= Seq::<BlockHash>::empty());
        Ok(Some((number, transaction)))
    }
}

/// The topics of a log: the first, and others up to the first that is absent.
pub open spec fn topics_at(batch: RowBatch, row: usize) -> Result<Seq<[u8; 32]>, DataProblem> {
    match batch.topic_at("topic0", row) {
        Err(problem) => Err(problem),
        Ok(first) => match batch.optional_topic_at("topic1", row) {
            Err(problem) => Err(problem),
            Ok(None) => Ok(seq![first]),
            Ok(Some(second)) => match batch.optional_topic_at("topic2", row) {
                Err(problem) => Err(problem),
                Ok(None) => Ok(seq![first, second]),
                Ok(Some(third)) => match batch.optional_topic_at("topic3", row) {
                    Err(problem) => Err(problem),
                    Ok(None) => Ok(seq![first, second, third]),
                    Ok(Some(fourth)) => Ok(seq![first, second, third, fourth]),
                },
            },
        },
    }
}

fn read_topics(batch: &RowBatch, row: usize) -> (outcome: Result<Vec<[u8; 32]>, DataProblem>)
    requires
        batch.wf(),
        row < batch.rows,
    ensures
        match outcome {
            Ok(topics) => topics_at(*batch, row) == Ok::<Seq<[u8; 32]>, DataProblem>(topics@),
            Err(problem) => topics_at(*batch, row) == Err::<Seq<[u8; 32]>, DataProblem>(problem),
        },
{
    let mut topics: Vec<[u8; 32]> = Vec::new();
    let first: [u8; 32] = batch.required_topic("topic0", row)?;
    topics.push(first);
    if let Some(second) = batch.optional_topic("topic1", row)? {
        topics.push(second);
        if let Some(third) = batch.optional_topic("topic2", row)? {
            topics.push(third);
            if let Some(fourth) = batch.optional_topic("topic3", row)? {
                topics.push(fourth);
                assert(topics@ =~= seq![first, second, third, fourth]);
            } else {
                assert(topics@ =~= seq![first, second, third]);
            }
        } else {
            assert(topics@ =~= seq![first, second]);
        }
    } else {
        assert(topics@ =~= seq![first]);
    }
    Ok(topics)
}

/// A topic filter accepts the topics of a log.
pub open spec fn topic_matches(filter: TopicFilter, topics: Seq<[u8; 32]>) -> bool {
    filter.position < topics.len() && filter.alternatives@.contains(
        topics[filter.position as int],
    )
}

/// Every topic filter accepts the topics of a log.
pub open spec fn topics_match(filters: Seq<TopicFilter>, topics: Seq<[u8; 32]>) -> bool {
    forall|i: int| 0 <= i < filters.len() ==> topic_matches(#[trigger] filters[i], topics)
}

fn topics_ok(filters: &Vec<TopicFilter>, topics: &Vec<[u8; 32]>) -> (accepted: bool)
    ensures
        accepted == topics_match(filters@, topics@),
{
    let mut index: usize = 0;
    while index < filters.len()
        invariant
            index <= filters@.len(),
            forall|i: int| 0 <= i < index ==> topic_matches(#[trigger] filters@[i], topics@),
        decreases filters@.len() - index,
    {
        let position: usize = filters[index].position as usize;
        if position >= topics.len() || !holds_topic(
            &filters[index].alternatives,
            &topics[position],
        ) {
            assert(!topic_matches(filters@[index as int], topics@));
            return false;
        }
        index += 1;
    }
    true
}

/// Whether the hash of a log's transaction has to be read.
pub open spec fn needs_transaction_hash(log_fields: LogFieldSet, filters: FilterSet) -> bool {
    log_fields.has(LogField::TransactionHash) || filters.scope.transaction_hashes@.len() > 0
}

/// The hash of a log's transaction, where it has to be read.
pub open spec fn log_transaction_hash(
    batch: RowBatch,
    row: usize,
    log_fields: LogFieldSet,
    filters: FilterSet,
) -> Result<Option<TransactionHash>, DataProblem> {
    if needs_transaction_hash(log_fields, filters) {
        match batch.transaction_hash_at("transaction_hash", row) {
            Ok(hash) => Ok(Some(hash)),
            Err(problem) => Err(problem),
        }
    } else {
        Ok(None)
    }
}

fn read_transaction_hash(
    batch: &RowBatch,
    row: usize,
    log_fields: LogFieldSet,
    filters: &FilterSet,
) -> (outcome: Result<Option<TransactionHash>, DataProblem>)
    requires
        batch.wf(),
        row < batch.rows,
    ensures
        outcome == log_transaction_hash(*batch, row, log_fields, *filters),
{
    if log_fields.contains(LogField::TransactionHash) || filters.scope.transaction_hashes.len() > 0 {
        Ok(Some(batch.required_transaction_hash("transaction_hash", row)?))
    } else {
        Ok(None)
    }
}

/// A log of a transaction that a filter accepts.
pub open spec fn allows_transaction(
    list: Seq<TransactionHash>,
    hash: Option<TransactionHash>,
) -> bool {
    list.len() == 0 || (hash matches Some(hash) && list.contains(hash))
}

fn transaction_ok(list: &Vec<TransactionHash>, hash: Option<TransactionHash>) -> (accepted: bool)
    ensures
        accepted == allows_transaction(list@, hash),
{
    if list.len() == 0 {
        return true;
    }
    match hash {
        Some(hash) => holds_hash(list, hash),
        None => false,
    }
}

/// The data of a log; none where there is none.
pub open spec fn data_of(data: Option<Seq<u8>>) -> Seq<u8> {
    match data {
        Some(data) => data,
        None => Seq::empty(),
    }
}

/// Reads the logs that a filter selects.
#[derive(Debug)]
pub struct GenericLogs<'a> {
    pub range: BlockRange,
    pub filters: &'a FilterSet,
    pub log_fields: LogFieldSet,
}

impl<'a> RowRules for GenericLogs<'a> {
    type Row = (u64, Log);

    open spec fn row_at(&self, batch: RowBatch, row: usize) -> Result<
        Option<(u64, LogView)>,
        DataProblem,
    > {
        match batch.u64_at("block_number", row) {
            Err(problem) => Err(problem),
            Ok(number) => {
                if !self.range.has(number as int) {
                    Ok(None)
                } else {
                    match batch.address_at("address", row) {
                        Err(problem) => Err(problem),
                        Ok(address) => {
                            if !allows(self.filters.scope.addresses@, address) {
                                Ok(None)
                            } else {
                                match log_transaction_hash(batch, row, self.log_fields, *self.filters) {
                                    Err(problem) => Err(problem),
                                    Ok(transaction_hash) => {
                                        if !allows_transaction(self.filters.scope.transaction_hashes@, transaction_hash) {
                                            Ok(None)
                                        } else {
                                            match topics_at(batch, row) {
                                                Err(problem) => Err(problem),
                                                Ok(topics) => {
                                                    if !topics_match(self.filters.scope.topics@, topics) {
                                                        Ok(None)
                                                    } else {
                                                        match batch.optional_variable_at("data", row) {
                                                            Err(problem) => Err(problem),
                                                            Ok(data) => {
                                                                match batch.u32_at("transaction_index", row) {
                                                                    Err(problem) => Err(problem),
                                                                    Ok(transaction_index) => {
                                                                        match batch.u32_at("log_index", row) {
                                                                            Err(problem) => Err(problem),
                                                                            Ok(log_index) => {
                                                                                Ok(
                                                                                    Some(
                                                                                        (
                                                                                            number,
                                                                                            LogView {
                                                                                                address,
                                                                                                topics,
                                                                                                data: data_of(data),
                                                                                                transaction_hash,
                                                                                                transaction_index,
                                                                                                log_index,
                                                                                            },
                                                                                        ),
                                                                                    ),
                                                                                )
                                                                            },
                                                                        }
                                                                    },
                                                                }
                                                            },
                                                        }
                                                    }
                                                },
                                            }
                                        }
                                    },
                                }
                            }
                        },
                    }
                }
            },
        }
    }
}

impl<'a> RowReader for GenericLogs<'a> {
    fn read(&self, batch: &RowBatch, row: usize) -> (outcome: Result<
        Option<(u64, Log)>,
        DataProblem,
    >) {
        let number: u64 = batch.required_u64("block_number", row)?;
        if !self.range.contains(BlockNumber(number)) {
            return Ok(None);
        }
        let address: Address = batch.required_address("address", row)?;
        if self.filters.scope.addresses.len() > 0 && !holds_address(
            &self.filters.scope.addresses,
            address,
        ) {
            return Ok(None);
        }
        let transaction_hash: Option<TransactionHash> = read_transaction_hash(
            batch,
            row,
            self.log_fields,
            self.filters,
        )?;
        if !transaction_ok(&self.filters.scope.transaction_hashes, transaction_hash) {
            return Ok(None);
        }
        let topics: Vec<[u8; 32]> = read_topics(batch, row)?;
        if !topics_ok(&self.filters.scope.topics, &topics) {
            return Ok(None);
        }
        let data: Option<Vec<u8>> = batch.optional_variable_bytes("data", row)?;
        let transaction_index: u32 = batch.required_u32("transaction_index", row)?;
        let log_index: u32 = batch.required_u32("log_index", row)?;
        let data: Vec<u8> = match data {
            Some(data) => data,
            None => Vec::new(),
        };
        let log: Log = Log {
            address,
            topics,
            data,
            transaction_hash,
            transaction_index,
            log_index,
        };
        assert(data_of(None) =~= Seq::<u8>::empty());
        Ok(Some((number, log)))
    }
}

} // verus!
