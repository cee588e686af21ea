//! Joining the rows of the public tables into frames of blob transactions.

use crate::bytes::{be32, push_u32};
use crate::frame::{
    BlockFrame, Completeness, HeaderEnvelope, Material, MissingReason, Provenance,
    ReceiptEnvelope, TransactionEnvelope,
};
use crate::frame_view::{
    clone_provenance, lemma_empty_scope, views, FrameView, HeaderView, MaterialView, ReceiptView,
    ScopeView, TransactionView,
};
use crate::order::Keyed;
use crate::primitives::{BlockNumber, BlockRange, BlockRef, ChainId, Finality, TransactionHash};
use crate::request::FilterScope;
use crate::stable::{
    copy_group, group_of, reversed, stable_order, stable_sort, take_group, without_group,
};
use crate::xatu::catalog::XatuTable;
use crate::xatu::columns::{quantity_to_u64, u64_of};
use crate::xatu::error::{DataProblem, XatuError};
use crate::xatu::rows::{BeaconTransactionRow, ExecutionTransactionRow, SlotTransaction};
use crate::xatu::sizes::{
    block_length, capped, execution_block_rlp_len, size_problem, BeaconBlockRow,
    ExecutionBlockRow, TransactionSizeRow, WithdrawalRow,
};
use vstd::prelude::*;

verus! {

impl Keyed for BeaconTransactionRow {
    open spec fn key(&self) -> Seq<u8> {
        be32(self.index)
    }

    fn key_bytes(&self) -> (bytes: Vec<u8>) {
        let mut bytes: Vec<u8> = Vec::new();
        push_u32(&mut bytes, self.index);
        assert(bytes@ =~= be32(self.index));
        bytes
    }
}

/// The sizes of transactions by slot.
pub open spec fn sizes_of(entries: Seq<SlotTransaction>) -> Seq<(u64, TransactionSizeRow)> {
    entries.map_values(|entry: SlotTransaction| (entry.slot, entry.size))
}

/// The transactions that carry blobs by slot.
pub open spec fn blobs_of(entries: Seq<SlotTransaction>) -> Seq<(u64, BeaconTransactionRow)>
    decreases entries.len(),
{
    if entries.len() == 0 {
        Seq::empty()
    } else {
        let before = blobs_of(entries.drop_last());
        match entries.last().blob {
            Some(blob) => before.push((entries.last().slot, blob)),
            None => before,
        }
    }
}

pub fn split_entries(entries: Vec<SlotTransaction>) -> (parts: (
    Vec<(u64, TransactionSizeRow)>,
    Vec<(u64, BeaconTransactionRow)>,
))
    ensures
        parts.0@ == sizes_of(entries@),
        parts.1@ == blobs_of(entries@),
{
    let ghost all = entries@;
    let mut rest: Vec<SlotTransaction> = reversed(entries);
    let mut sizes: Vec<(u64, TransactionSizeRow)> = Vec::new();
    let mut blobs: Vec<(u64, BeaconTransactionRow)> = Vec::new();
    proof {
        assert(all.take(0) =~= Seq::<SlotTransaction>::empty());
        assert(sizes_of(all.take(0)) =~= Seq::<(u64, TransactionSizeRow)>::empty());
    }
    while rest.len() > 0
        invariant
            rest@.len() <= all.len(),
            forall|i: int| 0 <= i < rest@.len() ==> #[trigger] rest@[i] == all[all.len() - 1 - i],
            sizes@ == sizes_of(all.take(all.len() - rest@.len())),
            blobs@ == blobs_of(all.take(all.len() - rest@.len())),
        decreases rest@.len(),
    {
        let ghost done = all.len() - rest@.len();
        if let Some(entry) = rest.pop() {
            proof {
                let longer = all.take(done + 1);
                assert(longer.drop_last() =~= all.take(done));
                assert(longer.last() == entry);
                assert(sizes_of(longer) =~= sizes_of(all.take(done)).push(
                    (entry.slot, entry.size),
                ));
            }
            sizes.push((entry.slot, entry.size));
            if let Some(blob) = entry.blob {
                blobs.push((entry.slot, blob));
            }
        }
    }
    assert(all.take(all.len() as int) =~= all);
    (sizes, blobs)
}

/// The first execution block of a number, from `from` on.
pub open spec fn execution_at(blocks: Seq<ExecutionBlockRow>, number: u64, from: int) -> Option<int>
    decreases blocks.len() - from,
{
    if from < 0 || from >= blocks.len() {
        None
    } else if blocks[from].number == number {
        Some(from)
    } else {
        execution_at(blocks, number, from + 1)
    }
}

/// The first beacon block of a number, from `from` on.
pub open spec fn beacon_at(blocks: Seq<BeaconBlockRow>, number: u64, from: int) -> Option<int>
    decreases blocks.len() - from,
{
    if from < 0 || from >= blocks.len() {
        None
    } else if blocks[from].number == number {
        Some(from)
    } else {
        beacon_at(blocks, number, from + 1)
    }
}

/// The first execution transaction of a hash, from `from` on.
pub open spec fn receipt_at(
    rows: Seq<ExecutionTransactionRow>,
    hash: TransactionHash,
    from: int,
) -> Option<int>
    decreases rows.len() - from,
{
    if from < 0 || from >= rows.len() {
        None
    } else if rows[from].hash == hash {
        Some(from)
    } else {
        receipt_at(rows, hash, from + 1)
    }
}

fn find_execution(blocks: &Vec<ExecutionBlockRow>, number: u64) -> (at: Option<usize>)
    ensures
        match at {
            Some(at) => execution_at(blocks@, number, 0) == Some(at as int) && at < blocks@.len()
                && blocks@[at as int].number == number,
            None => execution_at(blocks@, number, 0) is None,
        },
{
    let mut index: usize = 0;
    while index < blocks.len()
        invariant
            index <= blocks@.len(),
            execution_at(blocks@, number, 0) == execution_at(blocks@, number, index as int),
        decreases blocks@.len() - index,
    {
        if blocks[index].number == number {
            return Some(index);
        }
        index += 1;
    }
    None
}

fn find_beacon(blocks: &Vec<BeaconBlockRow>, number: u64) -> (at: Option<usize>)
    ensures
        match at {
            Some(at) => beacon_at(blocks@, number, 0) == Some(at as int) && at < blocks@.len()
                && blocks@[at as int].number == number,
            None => beacon_at(blocks@, number, 0) is None,
        },
{
    let mut index: usize = 0;
    while index < blocks.len()
        invariant
            index <= blocks@.len(),
            beacon_at(blocks@, number, 0) == beacon_at(blocks@, number, index as int),
        decreases blocks@.len() - index,
    {
        if blocks[index].number == number {
            return Some(index);
        }
        index += 1;
    }
    None
}

fn find_receipt(rows: &Vec<ExecutionTransactionRow>, hash: TransactionHash) -> (at: Option<usize>)
    ensures
        match at {
            Some(at) => receipt_at(rows@, hash, 0) == Some(at as int) && at < rows@.len()
                && rows@[at as int].hash == hash,
            None => receipt_at(rows@, hash, 0) is None,
        },
{
    let mut index: usize = 0;
    while index < rows.len()
        invariant
            index <= rows@.len(),
            receipt_at(rows@, hash, 0) == receipt_at(rows@, hash, index as int),
        decreases rows@.len() - index,
    {
        if rows[index].hash == hash {
            return Some(index);
        }
        index += 1;
    }
    None
}

/// The execution tables and the beacon tables tell of the same block.
pub open spec fn blocks_agree(execution: ExecutionBlockRow, beacon: BeaconBlockRow) -> bool {
    &&& execution.number == beacon.number
    &&& execution.hash == beacon.hash
    &&& execution.timestamp == beacon.timestamp
    &&& execution.gas_used == beacon.gas_used
    &&& u64_of(beacon.base_fee_per_gas) == Some(execution.base_fee_per_gas)
}

/// Checks that two tables tell of the same block.
pub fn validate_block_join(execution: &ExecutionBlockRow, beacon: &BeaconBlockRow) -> (outcome:
    Result<(), DataProblem>)
    ensures
        outcome == if blocks_agree(*execution, *beacon) {
            Ok::<(), DataProblem>(())
        } else {
            Err(DataProblem::BlockDisagreement(execution.number))
        },
{
    let fee_agrees = match quantity_to_u64(beacon.base_fee_per_gas) {
        Some(fee) => fee == execution.base_fee_per_gas,
        None => false,
    };
    if execution.number != beacon.number || execution.hash != beacon.hash || execution.timestamp
        != beacon.timestamp || execution.gas_used != beacon.gas_used || !fee_agrees {
        return Err(DataProblem::BlockDisagreement(execution.number));
    }
    Ok(())
}

/// The blob gas of a transaction with a number of blobs.
pub open spec fn blob_gas_of(blobs: nat) -> u64 {
    capped((blobs * 131072) as int)
}

fn expected_blob_gas(blobs: usize) -> (gas: u64)
    ensures
        gas == blob_gas_of(blobs as nat),
{
    if blobs as u64 <= 0xffff_ffff_ffff_ffff / 131072 {
        blobs as u64 * 131072
    } else {
        0xffff_ffff_ffff_ffff
    }
}

/// Why a blob transaction does not join what execution tables tell of it.
pub open spec fn blob_problem(
    blob: BeaconTransactionRow,
    receipts: Seq<ExecutionTransactionRow>,
    number: u64,
) -> Option<DataProblem> {
    match receipt_at(receipts, blob.hash, 0) {
        None => Some(DataProblem::MissingExecutionTransaction { hash: blob.hash, number }),
        Some(at) => if receipts[at].block_number != number || receipts[at].index != blob.index {
            Some(DataProblem::TransactionDisagreement(blob.hash))
        } else if blob.blob_gas != blob_gas_of(blob.blob_hashes@.len()) {
            Some(DataProblem::BlobGasDisagreement(blob.hash))
        } else {
            None
        },
    }
}

/// The first transaction that does not join, from `from` on.
pub open spec fn first_blob_problem(
    blobs: Seq<BeaconTransactionRow>,
    receipts: Seq<ExecutionTransactionRow>,
    number: u64,
    from: int,
) -> Option<DataProblem>
    decreases blobs.len() - from,
{
    if from < 0 || from >= blobs.len() {
        None
    } else {
        match blob_problem(blobs[from], receipts, number) {
            Some(problem) => Some(problem),
            None => first_blob_problem(blobs, receipts, number, from + 1),
        }
    }
}

/// A blob transaction as a frame holds it.
pub open spec fn blob_transaction(blob: BeaconTransactionRow) -> TransactionView {
    TransactionView {
        hash: blob.hash,
        transaction_type: 3,
        index: blob.index,
        encoded: None,
        from: Some(blob.from),
        to: blob.to,
        nonce: None,
        gas_limit: Some(blob.gas_limit),
        value: None,
        input: None,
        max_fee_per_gas: None,
        max_priority_fee_per_gas: None,
        max_fee_per_blob_gas: Some(blob.max_fee_per_blob_gas),
        blob_versioned_hashes: blob.blob_hashes@,
        size_bytes: Some(blob.size_bytes),
    }
}

/// The receipt of a blob transaction as a frame holds it.
pub open spec fn blob_receipt(
    blob: BeaconTransactionRow,
    receipts: Seq<ExecutionTransactionRow>,
) -> ReceiptView {
    let receipt = receipts[receipt_at(receipts, blob.hash, 0)->0];
    ReceiptView {
        transaction_hash: receipt.hash,
        transaction_type: 3,
        transaction_index: receipt.index,
        encoded: None,
        success: Some(receipt.success),
        gas_used: Some(receipt.gas_used),
        effective_gas_price: Some(receipt.gas_price),
        blob_gas_used: Some(blob_gas_of(blob.blob_hashes@.len())),
        blob_gas_price: None,
        logs: Seq::empty(),
    }
}

/// The tables that frames are joined from.
#[derive(Debug)]
pub struct BlobsTables {
    pub range: BlockRange,
    pub execution_blocks: Vec<ExecutionBlockRow>,
    pub beacon_blocks: Vec<BeaconBlockRow>,
    pub sizes: Vec<(u64, TransactionSizeRow)>,
    pub withdrawals: Vec<(u64, WithdrawalRow)>,
    pub execution_transactions: Vec<ExecutionTransactionRow>,
    pub provenance: Vec<Provenance>,
}

/// The scope of blob transactions.
pub open spec fn blobs_scope(range: BlockRange) -> ScopeView {
    ScopeView {
        block_range: Some(range),
        transaction_types: seq![3u8],
        ..ScopeView::everything()
    }
}

/// The scope of one block.
pub open spec fn block_scope(number: u64) -> ScopeView {
    ScopeView {
        block_range: Some(
            BlockRange { start: BlockNumber(number), end: BlockNumber(number) },
        ),
        ..ScopeView::everything()
    }
}

impl BlobsTables {
    /// The blob transactions of a block among those that are left.
    pub open spec fn blobs_at(
        self,
        number: u64,
        left: Seq<(u64, BeaconTransactionRow)>,
    ) -> Seq<BeaconTransactionRow> {
        stable_order(group_of(left, self.beacon(number).slot))
    }

    pub open spec fn execution(self, number: u64) -> ExecutionBlockRow {
        self.execution_blocks@[execution_at(self.execution_blocks@, number, 0)->0]
    }

    pub open spec fn beacon(self, number: u64) -> BeaconBlockRow {
        self.beacon_blocks@[beacon_at(self.beacon_blocks@, number, 0)->0]
    }

    /// Why a block cannot be joined.
    pub open spec fn block_problem(
        self,
        number: u64,
        left: Seq<(u64, BeaconTransactionRow)>,
    ) -> Option<DataProblem> {
        if execution_at(self.execution_blocks@, number, 0) is None {
            Some(DataProblem::MissingExecutionBlock(number))
        } else if beacon_at(self.beacon_blocks@, number, 0) is None {
            Some(DataProblem::MissingBeaconBlock(number))
        } else if !blocks_agree(self.execution(number), self.beacon(number)) {
            Some(DataProblem::BlockDisagreement(self.execution(number).number))
        } else {
            match size_problem(
                self.execution(number),
                self.beacon(number),
                group_of(self.sizes@, self.beacon(number).slot),
            ) {
                Some(problem) => Some(problem),
                None => first_blob_problem(
                    self.blobs_at(number, left),
                    self.execution_transactions@,
                    number,
                    0,
                ),
            }
        }
    }

    /// The frame of a block that joins.
    pub open spec fn frame_at(
        self,
        number: u64,
        left: Seq<(u64, BeaconTransactionRow)>,
    ) -> FrameView {
        let execution = self.execution(number);
        let beacon = self.beacon(number);
        let blobs = self.blobs_at(number, left);
        FrameView {
            chain_id: ChainId(1),
            block: BlockRef {
                number: BlockNumber(number),
                hash: beacon.hash,
                parent_hash: beacon.parent_hash,
                timestamp: beacon.timestamp,
            },
            finality: Finality::Finalized,
            header: MaterialView::Filtered {
                value: HeaderView {
                    rlp: None,
                    transactions_root: None,
                    receipts_root: None,
                    withdrawals_root: None,
                    gas_limit: Some(beacon.gas_limit),
                    gas_used: Some(beacon.gas_used),
                    base_fee_per_gas: Some(beacon.base_fee_per_gas),
                    blob_gas_used: Some(beacon.blob_gas_used),
                    excess_blob_gas: Some(beacon.excess_blob_gas),
                    size_bytes: Some(
                        block_length(
                            execution,
                            beacon,
                            group_of(self.sizes@, beacon.slot),
                            group_of(self.withdrawals@, beacon.slot),
                        ),
                    ),
                    transaction_count: Some(beacon.transaction_count),
                    consensus_size_bytes: Some(beacon.consensus_size_bytes),
                },
                scope: block_scope(number),
                completeness: Completeness::DatasetDeclared,
            },
            transactions: MaterialView::Filtered {
                value: blobs.map_values(|blob: BeaconTransactionRow| blob_transaction(blob)),
                scope: blobs_scope(self.range),
                completeness: Completeness::DatasetDeclared,
            },
            receipts: MaterialView::Filtered {
                value: blobs.map_values(
                    |blob: BeaconTransactionRow| blob_receipt(blob, self.execution_transactions@),
                ),
                scope: ScopeView {
                    transaction_hashes: blobs.map_values(|blob: BeaconTransactionRow| blob.hash),
                    ..blobs_scope(self.range)
                },
                completeness: Completeness::DatasetDeclared,
            },
            logs: MaterialView::Missing(MissingReason::NotRequested),
            withdrawals: MaterialView::Missing(MissingReason::NotRequested),
            blob_sidecars: MaterialView::Missing(MissingReason::NotRequested),
            traces: MaterialView::Missing(MissingReason::Unsupported),
            state_diffs: MaterialView::Missing(MissingReason::Unsupported),
            provenance: views(self.provenance@),
        }
    }

    /// The frames from a number on after those made, the blob transactions
    /// that are left over, and why the frames stop.
    pub open spec fn frames_from(
        self,
        number: int,
        left: Seq<(u64, BeaconTransactionRow)>,
        made: Seq<FrameView>,
    ) -> (Seq<FrameView>, Seq<(u64, BeaconTransactionRow)>, Option<DataProblem>)
        decreases self.range.end.0 + 1 - number,
    {
        if number > self.range.end.0 {
            (made, left, None)
        } else {
            match self.block_problem(number as u64, left) {
                Some(problem) => (made, left, Some(problem)),
                None => self.frames_from(
                    number + 1,
                    without_group(left, self.beacon(number as u64).slot),
                    made.push(self.frame_at(number as u64, left)),
                ),
            }
        }
    }

    /// Why the tables do not cover the range.
    pub open spec fn coverage_problem(self) -> Option<XatuError> {
        coverage_problem(self.range, self.execution_blocks@.len(), self.beacon_blocks@.len())
    }

    /// What the tables and the blob transactions join to.
    pub open spec fn is_joined(
        self,
        blobs: Seq<(u64, BeaconTransactionRow)>,
        outcome: Result<Vec<BlockFrame>, XatuError>,
    ) -> bool {
        match self.coverage_problem() {
            Some(problem) => outcome == Err::<Vec<BlockFrame>, XatuError>(problem),
            None => {
                let (made, left, problem) = self.frames_from(
                    self.range.start.0 as int,
                    blobs,
                    Seq::empty(),
                );
                match problem {
                    Some(problem) => outcome == Err::<Vec<BlockFrame>, XatuError>(
                        XatuError::Data(problem),
                    ),
                    None => if left.len() > 0 {
                        outcome == Err::<Vec<BlockFrame>, XatuError>(
                            XatuError::Data(
                                DataProblem::Text("blob transactions remained after block join"),
                            ),
                        )
                    } else {
                        outcome matches Ok(frames) && views(frames@) == made
                    },
                }
            },
        }
    }
}

/// Why tables of so many blocks do not cover a range.
pub open spec fn coverage_problem(range: BlockRange, execution: nat, beacon: nat) -> Option<
    XatuError,
> {
    if range.spec_len() > usize::MAX {
        Some(XatuError::Data(DataProblem::Text("range is too large")))
    } else if execution != range.spec_len() {
        Some(
            XatuError::IncompleteRange {
                table: XatuTable::CanonicalExecutionBlock,
                range,
                expected: range.spec_len() as usize,
                actual: execution as usize,
            },
        )
    } else if beacon != range.spec_len() {
        Some(
            XatuError::IncompleteRange {
                table: XatuTable::CanonicalBeaconBlock,
                range,
                expected: range.spec_len() as usize,
                actual: beacon as usize,
            },
        )
    } else {
        None
    }
}

/// Checks that tables have one row for every block of a range.
pub fn check_coverage(range: BlockRange, execution: usize, beacon: usize) -> (outcome: Result<
    (),
    XatuError,
>)
    requires
        range.wf(),
    ensures
        outcome == (match coverage_problem(range, execution as nat, beacon as nat) {
            Some(problem) => Err::<(), XatuError>(problem),
            None => Ok(()),
        }),
{
    let length: u64 = range.len();
    if length > usize::MAX as u64 {
        return Err(XatuError::Data(DataProblem::Text("range is too large")));
    }
    let expected: usize = length as usize;
    if execution != expected {
        return Err(
            XatuError::IncompleteRange {
                table: XatuTable::CanonicalExecutionBlock,
                range,
                expected,
                actual: execution,
            },
        );
    }
    if beacon != expected {
        return Err(
            XatuError::IncompleteRange {
                table: XatuTable::CanonicalBeaconBlock,
                range,
                expected,
                actual: beacon,
            },
        );
    }
    Ok(())
}

pub fn block_filter_scope(number: BlockNumber) -> (scope: FilterScope)
    ensures
        scope@ == block_scope(number.0),
{
    let mut scope: FilterScope = FilterScope::default();
    proof {
        lemma_empty_scope(scope);
    }
    scope.block_range = Some(BlockRange::single(number));
    scope
}

fn blobs_filter_scope(range: BlockRange) -> (scope: FilterScope)
    ensures
        scope@ == blobs_scope(range),
{
    let mut scope: FilterScope = FilterScope::default();
    proof {
        lemma_empty_scope(scope);
    }
    scope.block_range = Some(range);
    scope.transaction_types.push(3);
    assert(scope@.transaction_types =~= seq![3u8]);
    scope
}

/// The transactions of a block with their receipts and hashes.
struct JoinedBlobs {
    transactions: Vec<TransactionEnvelope>,
    receipts: Vec<ReceiptEnvelope>,
    hashes: Vec<TransactionHash>,
}

fn join_blobs(
    blobs: Vec<BeaconTransactionRow>,
    receipts: &Vec<ExecutionTransactionRow>,
    number: u64,
) -> (outcome: Result<JoinedBlobs, DataProblem>)
    ensures
        match (outcome, first_blob_problem(blobs@, receipts@, number, 0)) {
            (Ok(joined), None) => {
                &&& views(joined.transactions@) == blobs@.map_values(
                    |blob: BeaconTransactionRow| blob_transaction(blob),
                )
                &&& views(joined.receipts@) == blobs@.map_values(
                    |blob: BeaconTransactionRow| blob_receipt(blob, receipts@),
                )
                &&& joined.hashes@ == blobs@.map_values(|blob: BeaconTransactionRow| blob.hash)
            },
            (Err(problem), Some(expected)) => problem == expected,
            _ => false,
        },
{
    let ghost all = blobs@;
    let mut rest: Vec<BeaconTransactionRow> = reversed(blobs);
    let mut transactions: Vec<TransactionEnvelope> = Vec::new();
    let mut joined: Vec<ReceiptEnvelope> = Vec::new();
    let mut hashes: Vec<TransactionHash> = Vec::new();
    while rest.len() > 0
        invariant
            rest@.len() <= all.len(),
            all == blobs@,
            forall|i: int| 0 <= i < rest@.len() ==> #[trigger] rest@[i] == all[all.len() - 1 - i],
            first_blob_problem(all, receipts@, number, 0) == first_blob_problem(
                all,
                receipts@,
                number,
                all.len() - rest@.len(),
            ),
            transactions@.len() == all.len() - rest@.len(),
            joined@.len() == all.len() - rest@.len(),
            hashes@.len() == all.len() - rest@.len(),
            forall|i: int|
                0 <= i < transactions@.len() ==> (#[trigger] transactions@[i])@ == blob_transaction(
                    all[i],
                ),
            forall|i: int|
                0 <= i < joined@.len() ==> (#[trigger] joined@[i])@ == blob_receipt(
                    all[i],
                    receipts@,
                ),
            forall|i: int| 0 <= i < hashes@.len() ==> #[trigger] hashes@[i] == all[i].hash,
        decreases rest@.len(),
    {
        let ghost done = all.len() - rest@.len();
        if let Some(blob) = rest.pop() {
            assert(blob == all[done]);
            let at: usize = match find_receipt(receipts, blob.hash) {
                Some(at) => at,
                None => {
                    return Err(
                        DataProblem::MissingExecutionTransaction { hash: blob.hash, number },
                    );
                },
            };
            let receipt: ExecutionTransactionRow = receipts[at];
            if receipt.block_number != number || receipt.index != blob.index {
                return Err(DataProblem::TransactionDisagreement(blob.hash));
            }
            let gas: u64 = expected_blob_gas(blob.blob_hashes.len());
            if blob.blob_gas != gas {
                return Err(DataProblem::BlobGasDisagreement(blob.hash));
            }
            let made: ReceiptEnvelope = ReceiptEnvelope {
                transaction_hash: receipt.hash,
                transaction_type: 3,
                transaction_index: receipt.index,
                encoded: None,
                success: Some(receipt.success),
                gas_used: Some(receipt.gas_used),
                effective_gas_price: Some(receipt.gas_price),
                blob_gas_used: Some(gas),
                blob_gas_price: None,
                logs: Vec::new(),
            };
            proof {
                assert(made@.logs =~= blob_receipt(blob, receipts@).logs);
            }
            joined.push(made);
            hashes.push(blob.hash);
            transactions.push(
                TransactionEnvelope {
                    hash: blob.hash,
                    transaction_type: 3,
                    index: blob.index,
                    encoded: None,
                    from: Some(blob.from),
                    to: blob.to,
                    nonce: None,
                    gas_limit: Some(blob.gas_limit),
                    value: None,
                    input: None,
                    max_fee_per_gas: None,
                    max_priority_fee_per_gas: None,
                    max_fee_per_blob_gas: Some(blob.max_fee_per_blob_gas),
                    blob_versioned_hashes: blob.blob_hashes,
                    size_bytes: Some(blob.size_bytes),
                },
            );
        }
    }
    proof {
        assert(views(transactions@) =~= all.map_values(
            |blob: BeaconTransactionRow| blob_transaction(blob),
        ));
        assert(views(joined@) =~= all.map_values(
            |blob: BeaconTransactionRow| blob_receipt(blob, receipts@),
        ));
        assert(hashes@ =~= all.map_values(|blob: BeaconTransactionRow| blob.hash));
    }
    Ok(JoinedBlobs { transactions, receipts: joined, hashes })
}

impl BlobsTables {
    /// Joins one block, and takes its blob transactions away.
    fn join_block(&self, number: u64, left: &mut Vec<(u64, BeaconTransactionRow)>) -> (outcome:
        Result<BlockFrame, DataProblem>)
        ensures
            match (outcome, self.block_problem(number, old(left)@)) {
                (Ok(frame), None) => {
                    &&& frame@ == self.frame_at(number, old(left)@)
                    &&& final(left)@ == without_group(old(left)@, self.beacon(number).slot)
                },
                (Err(problem), Some(expected)) => problem == expected,
                _ => false,
            },
    {
        let execution: &ExecutionBlockRow = match find_execution(&self.execution_blocks, number) {
            Some(at) => &self.execution_blocks[at],
            None => {
                return Err(DataProblem::MissingExecutionBlock(number));
            },
        };
        let beacon: BeaconBlockRow = match find_beacon(&self.beacon_blocks, number) {
            Some(at) => self.beacon_blocks[at],
            None => {
                return Err(DataProblem::MissingBeaconBlock(number));
            },
        };
        validate_block_join(execution, &beacon)?;
        let sizes: Vec<TransactionSizeRow> = copy_group(&self.sizes, beacon.slot);
        let withdrawals: Vec<WithdrawalRow> = copy_group(&self.withdrawals, beacon.slot);
        let size: u64 = execution_block_rlp_len(
            execution,
            &beacon,
            sizes.as_slice(),
            withdrawals.as_slice(),
        )?;
        let blobs: Vec<BeaconTransactionRow> = stable_sort(take_group(left, beacon.slot));
        let joined: JoinedBlobs = join_blobs(blobs, &self.execution_transactions, number)?;
        let mut receipt_scope: FilterScope = blobs_filter_scope(self.range);
        receipt_scope.transaction_hashes = joined.hashes;
        Ok(
            BlockFrame {
                chain_id: ChainId(1),
                block: BlockRef {
                    number: BlockNumber(number),
                    hash: beacon.hash,
                    parent_hash: beacon.parent_hash,
                    timestamp: beacon.timestamp,
                },
                finality: Finality::Finalized,
                header: Material::Filtered {
                    value: HeaderEnvelope {
                        rlp: None,
                        transactions_root: None,
                        receipts_root: None,
                        withdrawals_root: None,
                        gas_limit: Some(beacon.gas_limit),
                        gas_used: Some(beacon.gas_used),
                        base_fee_per_gas: Some(beacon.base_fee_per_gas),
                        blob_gas_used: Some(beacon.blob_gas_used),
                        excess_blob_gas: Some(beacon.excess_blob_gas),
                        size_bytes: Some(size),
                        transaction_count: Some(beacon.transaction_count),
                        consensus_size_bytes: Some(beacon.consensus_size_bytes),
                    },
                    scope: block_filter_scope(BlockNumber(number)),
                    completeness: Completeness::DatasetDeclared,
                },
                transactions: Material::Filtered {
                    value: joined.transactions,
                    scope: blobs_filter_scope(self.range),
                    completeness: Completeness::DatasetDeclared,
                },
                receipts: Material::Filtered {
                    value: joined.receipts,
                    scope: receipt_scope,
                    completeness: Completeness::DatasetDeclared,
                },
                logs: Material::Missing(MissingReason::NotRequested),
                withdrawals: Material::Missing(MissingReason::NotRequested),
                blob_sidecars: Material::Missing(MissingReason::NotRequested),
                traces: Material::Missing(MissingReason::Unsupported),
                state_diffs: Material::Missing(MissingReason::Unsupported),
                provenance: clone_provenance(&self.provenance),
            },
        )
    }
}

/// Joins the tables of a range into one frame for every block.
pub fn normalize_frames(tables: &BlobsTables, blobs: Vec<(u64, BeaconTransactionRow)>) -> (outcome:
    Result<Vec<BlockFrame>, XatuError>)
    requires
        tables.range.wf(),
    ensures
        tables.is_joined(blobs@, outcome),
{
    check_coverage(tables.range, tables.execution_blocks.len(), tables.beacon_blocks.len())?;
    let ghost given = blobs@;
    let mut left: Vec<(u64, BeaconTransactionRow)> = blobs;
    let mut frames: Vec<BlockFrame> = Vec::new();
    let mut number: u64 = tables.range.start.0;
    assert(views(frames@) =~= Seq::<FrameView>::empty());
    loop
        invariant_except_break
            tables.range.start.0 <= number <= tables.range.end.0,
            tables.frames_from(tables.range.start.0 as int, given, Seq::empty())
                == tables.frames_from(number as int, left@, views(frames@)),
        invariant
            tables.coverage_problem() is None,
            given == blobs@,
        ensures
            tables.frames_from(tables.range.start.0 as int, given, Seq::empty()) == (
                views(frames@),
                left@,
                None::<DataProblem>,
            ),
        decreases tables.range.end.0 - number,
    {
        match tables.join_block(number, &mut left) {
            Ok(frame) => {
                assert(views(frames@.push(frame)) =~= views(frames@).push(frame@));
                frames.push(frame);
            },
            Err(problem) => {
                return Err(XatuError::Data(problem));
            },
        }
        if number == tables.range.end.0 {
            proof {
                assert(tables.frames_from(number + 1, left@, views(frames@)) == (
                    views(frames@),
                    left@,
                    None::<DataProblem>,
                ));
            }
            break ;
        }
        number = number + 1;
    }
    if left.len() > 0 {
        return Err(
            XatuError::Data(DataProblem::Text("blob transactions remained after block join")),
        );
    }
    Ok(frames)
}

} // verus!
