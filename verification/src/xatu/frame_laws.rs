//! What the frames of blob transactions take from which row.

use crate::frame::{BlockFrame, Material};
use crate::frame_view::{views, FrameView};
use crate::primitives::TransactionHash;
use crate::stable::{group_of, law_sorting_orders, stable_order, without_group};
use crate::xatu::columns::u64_of;
use crate::xatu::error::XatuError;
use crate::xatu::normalize::{
    beacon_at, blob_problem, execution_at, first_blob_problem, receipt_at, BlobsTables,
};
use crate::xatu::rows::{BeaconTransactionRow, ExecutionTransactionRow};
use crate::xatu::sizes::{BeaconBlockRow, ExecutionBlockRow, TransactionSizeRow};
use vstd::prelude::*;

verus! {

/// The blob transactions that are left once `count` blocks have taken theirs.
spec fn left_after(
    tables: BlobsTables,
    blobs: Seq<(u64, BeaconTransactionRow)>,
    count: nat,
) -> Seq<(u64, BeaconTransactionRow)>
    decreases count,
{
    if count == 0 {
        blobs
    } else {
        without_group(
            left_after(tables, blobs, (count - 1) as nat),
            tables.beacon((tables.range.start.0 + count - 1) as u64).slot,
        )
    }
}

proof fn lemma_frames(
    tables: BlobsTables,
    blobs: Seq<(u64, BeaconTransactionRow)>,
    number: int,
    made: Seq<FrameView>,
)
    requires
        tables.range.start.0 <= number <= tables.range.end.0 + 1,
        made.len() == number - tables.range.start.0,
        forall|i: int|
            0 <= i < made.len() ==> (#[trigger] made[i]) == tables.frame_at(
                (tables.range.start.0 + i) as u64,
                left_after(tables, blobs, i as nat),
            ) && tables.block_problem(
                (tables.range.start.0 + i) as u64,
                left_after(tables, blobs, i as nat),
            ) is None,
        tables.frames_from(number, left_after(tables, blobs, made.len()), made).2 is None,
    ensures
        ({
            let (frames, rest, problem) = tables.frames_from(
                number,
                left_after(tables, blobs, made.len()),
                made,
            );
            &&& frames.len() == tables.range.end.0 + 1 - tables.range.start.0
            &&& rest == left_after(tables, blobs, frames.len())
            &&& forall|i: int|
                0 <= i < frames.len() ==> (#[trigger] frames[i]) == tables.frame_at(
                    (tables.range.start.0 + i) as u64,
                    left_after(tables, blobs, i as nat),
                ) && tables.block_problem(
                    (tables.range.start.0 + i) as u64,
                    left_after(tables, blobs, i as nat),
                ) is None
        }),
    decreases tables.range.end.0 + 1 - number,
{
    if number <= tables.range.end.0 {
        let left = left_after(tables, blobs, made.len());
        let longer = made.push(tables.frame_at(number as u64, left));
        assert(left_after(tables, blobs, longer.len()) == without_group(
            left,
            tables.beacon(number as u64).slot,
        ));
        assert forall|i: int| 0 <= i < longer.len() implies (#[trigger] longer[i])
            == tables.frame_at(
            (tables.range.start.0 + i) as u64,
            left_after(tables, blobs, i as nat),
        ) && tables.block_problem(
            (tables.range.start.0 + i) as u64,
            left_after(tables, blobs, i as nat),
        ) is None by {
            if i < made.len() {
                assert(longer[i] == made[i]);
            }
        }
        lemma_frames(tables, blobs, number + 1, longer);
    }
}

proof fn lemma_execution_at(blocks: Seq<ExecutionBlockRow>, number: u64, from: int)
    requires
        0 <= from,
        execution_at(blocks, number, from) is Some,
    ensures
        from <= execution_at(blocks, number, from)->0 < blocks.len(),
        blocks[execution_at(blocks, number, from)->0].number == number,
    decreases blocks.len() - from,
{
    if from < blocks.len() && blocks[from].number != number {
        lemma_execution_at(blocks, number, from + 1);
    }
}

proof fn lemma_beacon_at(blocks: Seq<BeaconBlockRow>, number: u64, from: int)
    requires
        0 <= from,
        beacon_at(blocks, number, from) is Some,
    ensures
        from <= beacon_at(blocks, number, from)->0 < blocks.len(),
        blocks[beacon_at(blocks, number, from)->0].number == number,
    decreases blocks.len() - from,
{
    if from < blocks.len() && blocks[from].number != number {
        lemma_beacon_at(blocks, number, from + 1);
    }
}

proof fn lemma_receipt_at(rows: Seq<ExecutionTransactionRow>, hash: TransactionHash, from: int)
    requires
        0 <= from,
        receipt_at(rows, hash, from) is Some,
    ensures
        from <= receipt_at(rows, hash, from)->0 < rows.len(),
        rows[receipt_at(rows, hash, from)->0].hash == hash,
    decreases rows.len() - from,
{
    if from < rows.len() && rows[from].hash != hash {
        lemma_receipt_at(rows, hash, from + 1);
    }
}

proof fn lemma_blobs_join(
    blobs: Seq<BeaconTransactionRow>,
    receipts: Seq<ExecutionTransactionRow>,
    number: u64,
    from: int,
    at: int,
)
    requires
        0 <= from <= at < blobs.len(),
        first_blob_problem(blobs, receipts, number, from) is None,
    ensures
        blob_problem(blobs[at], receipts, number) is None,
    decreases blobs.len() - from,
{
    if from < at {
        lemma_blobs_join(blobs, receipts, number, from + 1, at);
    }
}

pub proof fn lemma_group_member<T>(rows: Seq<(u64, T)>, group: u64, at: int) -> (r: int)
    requires
        0 <= at < group_of(rows, group).len(),
    ensures
        0 <= r < rows.len(),
        rows[r] == (group, group_of(rows, group)[at]),
    decreases rows.len(),
{
    let shorter = rows.drop_last();
    if at < group_of(shorter, group).len() {
        lemma_group_member(shorter, group, at)
    } else {
        rows.len() - 1
    }
}

pub proof fn lemma_in_group<T>(rows: Seq<(u64, T)>, group: u64, r: int) -> (at: int)
    requires
        0 <= r < rows.len(),
        rows[r].0 == group,
    ensures
        0 <= at < group_of(rows, group).len(),
        group_of(rows, group)[at] == rows[r].1,
    decreases rows.len(),
{
    let shorter = rows.drop_last();
    if r == rows.len() - 1 {
        group_of(shorter, group).len() as int
    } else {
        lemma_in_group(shorter, group, r)
    }
}

proof fn lemma_rest_member<T>(rows: Seq<(u64, T)>, group: u64, at: int) -> (r: int)
    requires
        0 <= at < without_group(rows, group).len(),
    ensures
        0 <= r < rows.len(),
        rows[r] == without_group(rows, group)[at],
    decreases rows.len(),
{
    let shorter = rows.drop_last();
    if at < without_group(shorter, group).len() {
        lemma_rest_member(shorter, group, at)
    } else {
        rows.len() - 1
    }
}

proof fn lemma_in_rest<T>(rows: Seq<(u64, T)>, group: u64, r: int) -> (at: int)
    requires
        0 <= r < rows.len(),
        rows[r].0 != group,
    ensures
        0 <= at < without_group(rows, group).len(),
        without_group(rows, group)[at] == rows[r],
    decreases rows.len(),
{
    let shorter = rows.drop_last();
    if r == rows.len() - 1 {
        without_group(shorter, group).len() as int
    } else {
        lemma_in_rest(shorter, group, r)
    }
}

proof fn lemma_left_member(
    tables: BlobsTables,
    blobs: Seq<(u64, BeaconTransactionRow)>,
    count: nat,
    at: int,
) -> (r: int)
    requires
        0 <= at < left_after(tables, blobs, count).len(),
    ensures
        0 <= r < blobs.len(),
        blobs[r] == left_after(tables, blobs, count)[at],
    decreases count,
{
    if count == 0 {
        at
    } else {
        let slot = tables.beacon((tables.range.start.0 + count - 1) as u64).slot;
        let earlier = lemma_rest_member(
            left_after(tables, blobs, (count - 1) as nat),
            slot,
            at,
        );
        lemma_left_member(tables, blobs, (count - 1) as nat, earlier)
    }
}

/// Where a blob transaction goes: it is taken by one of the first `count`
/// blocks, or it is left.
proof fn lemma_taken(
    tables: BlobsTables,
    blobs: Seq<(u64, BeaconTransactionRow)>,
    r: int,
    count: nat,
) -> (place: (int, int))
    requires
        0 <= r < blobs.len(),
    ensures
        0 <= place.0 <= count,
        0 <= place.1 < left_after(tables, blobs, place.0 as nat).len(),
        left_after(tables, blobs, place.0 as nat)[place.1] == blobs[r],
        place.0 < count ==> tables.beacon((tables.range.start.0 + place.0) as u64).slot
            == blobs[r].0,
    decreases count,
{
    if count == 0 {
        (0, r)
    } else {
        let (block, at) = lemma_taken(tables, blobs, r, (count - 1) as nat);
        if block < count - 1 {
            (block, at)
        } else {
            let slot = tables.beacon((tables.range.start.0 + count - 1) as u64).slot;
            if blobs[r].0 == slot {
                (block, at)
            } else {
                (
                    count as int,
                    lemma_in_rest(left_after(tables, blobs, (count - 1) as nat), slot, at),
                )
            }
        }
    }
}

pub proof fn lemma_sorted_member<T: crate::order::Keyed>(values: Seq<T>, at: int) -> (from: int)
    requires
        0 <= at < stable_order(values).len(),
    ensures
        0 <= from < values.len(),
        values[from] == stable_order(values)[at],
{
    law_sorting_orders(values);
    let value = stable_order(values)[at];
    stable_order(values).to_multiset_ensures();
    values.to_multiset_ensures();
    assert(stable_order(values).contains(value));
    assert(values.to_multiset().count(value) > 0);
    assert(values.contains(value));
    choose|from: int| 0 <= from < values.len() && values[from] == value
}

pub proof fn lemma_in_sorted<T: crate::order::Keyed>(values: Seq<T>, from: int) -> (at: int)
    requires
        0 <= from < values.len(),
    ensures
        0 <= at < stable_order(values).len(),
        values[from] == stable_order(values)[at],
{
    law_sorting_orders(values);
    let value = values[from];
    stable_order(values).to_multiset_ensures();
    values.to_multiset_ensures();
    assert(values.contains(value));
    assert(stable_order(values).to_multiset().count(value) > 0);
    assert(stable_order(values).contains(value));
    choose|at: int| 0 <= at < stable_order(values).len() && stable_order(values)[at] == value
}

proof fn lemma_frame_made(
    tables: BlobsTables,
    blobs: Seq<(u64, BeaconTransactionRow)>,
    frames: Vec<BlockFrame>,
    i: int,
)
    requires
        tables.range.wf(),
        tables.is_joined(blobs, Ok::<Vec<BlockFrame>, XatuError>(frames)),
        0 <= i < frames@.len(),
    ensures
        frames@.len() == tables.range.end.0 + 1 - tables.range.start.0,
        left_after(tables, blobs, frames@.len()).len() == 0,
        frames@[i]@ == tables.frame_at(
            (tables.range.start.0 + i) as u64,
            left_after(tables, blobs, i as nat),
        ),
        tables.block_problem(
            (tables.range.start.0 + i) as u64,
            left_after(tables, blobs, i as nat),
        ) is None,
{
    let none = Seq::<FrameView>::empty();
    assert(left_after(tables, blobs, none.len()) == blobs);
    lemma_frames(tables, blobs, tables.range.start.0 as int, none);
    let all = views(frames@);
    assert(all[i] == frames@[i]@);
}

/// The frame of a block tells what the block's row of the beacon table tells:
/// its identity, its gas limit and the gas used, its base fee, its blob gas
/// and the excess of it, how many transactions it has and its size with the
/// consensus layer. The block's row of the execution table agrees with it.
pub proof fn law_headers_tell_what_the_rows_tell(
    tables: BlobsTables,
    blobs: Seq<(u64, BeaconTransactionRow)>,
    frames: Vec<BlockFrame>,
    i: int,
) -> (rows: (int, int))
    requires
        tables.range.wf(),
        tables.is_joined(blobs, Ok::<Vec<BlockFrame>, XatuError>(frames)),
        0 <= i < frames@.len(),
    ensures
        0 <= rows.0 < tables.beacon_blocks@.len(),
        0 <= rows.1 < tables.execution_blocks@.len(),
        frames@[i].block.number.0 == tables.range.start.0 + i,
        ({
            let frame = frames@[i];
            let beacon = tables.beacon_blocks@[rows.0];
            let execution = tables.execution_blocks@[rows.1];
            &&& frame.chain_id.0 == 1
            &&& frame.finality is Finalized
            &&& frame.block.number.0 == beacon.number
            &&& frame.block.hash == beacon.hash
            &&& frame.block.parent_hash == beacon.parent_hash
            &&& frame.block.timestamp == beacon.timestamp
            &&& execution.number == beacon.number
            &&& execution.hash == beacon.hash
            &&& execution.timestamp == beacon.timestamp
            &&& execution.gas_used == beacon.gas_used
            &&& u64_of(beacon.base_fee_per_gas) == Some(execution.base_fee_per_gas)
            &&& frame.header matches Material::Filtered { value: header, scope, .. } && {
                &&& header.gas_limit == Some(beacon.gas_limit)
                &&& header.gas_used == Some(beacon.gas_used)
                &&& header.base_fee_per_gas == Some(beacon.base_fee_per_gas)
                &&& header.blob_gas_used == Some(beacon.blob_gas_used)
                &&& header.excess_blob_gas == Some(beacon.excess_blob_gas)
                &&& header.transaction_count == Some(beacon.transaction_count)
                &&& header.consensus_size_bytes == Some(beacon.consensus_size_bytes)
                &&& header.size_bytes is Some
                &&& header.rlp is None
                &&& header.transactions_root is None
                &&& header.receipts_root is None
                &&& header.withdrawals_root is None
                &&& scope.block_range matches Some(range) && range.start == frame.block.number
                    && range.end == frame.block.number
            }
            &&& frame.logs is Missing
            &&& frame.withdrawals is Missing
            &&& frame.blob_sidecars is Missing
            &&& frame.traces is Missing
            &&& frame.state_diffs is Missing
        }),
{
    lemma_frame_made(tables, blobs, frames, i);
    let number = (tables.range.start.0 + i) as u64;
    lemma_beacon_at(tables.beacon_blocks@, number, 0);
    lemma_execution_at(tables.execution_blocks@, number, 0);
    (
        beacon_at(tables.beacon_blocks@, number, 0)->0,
        execution_at(tables.execution_blocks@, number, 0)->0,
    )
}

/// Every transaction in the frame of a block is a blob transaction that was
/// given for the slot of the block, as it was given, and the receipt beside it
/// is what the execution table tells of the transaction of that hash, in that
/// block and at that index, with 131072 blob gas for every blob.
pub proof fn law_frames_hold_the_blob_transactions_of_their_slot(
    tables: BlobsTables,
    blobs: Seq<(u64, BeaconTransactionRow)>,
    frames: Vec<BlockFrame>,
    i: int,
    t: int,
) -> (rows: (int, int, int))
    requires
        tables.range.wf(),
        tables.is_joined(blobs, Ok::<Vec<BlockFrame>, XatuError>(frames)),
        0 <= i < frames@.len(),
        frames@[i].transactions is Filtered,
        0 <= t < frames@[i].transactions->Filtered_value@.len(),
    ensures
        frames@[i].receipts is Filtered,
        frames@[i].receipts->Filtered_value@.len() == frames@[i].transactions->Filtered_value@.len(),
        0 <= rows.0 < tables.beacon_blocks@.len(),
        tables.beacon_blocks@[rows.0].number == frames@[i].block.number.0,
        0 <= rows.1 < blobs.len(),
        blobs[rows.1].0 == tables.beacon_blocks@[rows.0].slot,
        ({
            let transaction = frames@[i].transactions->Filtered_value@[t];
            let blob = blobs[rows.1].1;
            &&& transaction.hash == blob.hash
            &&& transaction.transaction_type == 3
            &&& transaction.index == blob.index
            &&& transaction.from == Some(blob.from)
            &&& transaction.to == blob.to
            &&& transaction.gas_limit == Some(blob.gas_limit)
            &&& transaction.max_fee_per_blob_gas == Some(blob.max_fee_per_blob_gas)
            &&& transaction.blob_versioned_hashes@ == blob.blob_hashes@
            &&& transaction.size_bytes == Some(blob.size_bytes)
            &&& transaction.encoded is None
            &&& transaction.nonce is None
            &&& transaction.value is None
            &&& transaction.input is None
            &&& transaction.max_fee_per_gas is None
            &&& transaction.max_priority_fee_per_gas is None
        }),
        0 <= rows.2 < tables.execution_transactions@.len(),
        ({
            let transaction = frames@[i].transactions->Filtered_value@[t];
            let receipt = frames@[i].receipts->Filtered_value@[t];
            let told = tables.execution_transactions@[rows.2];
            &&& told.hash == transaction.hash
            &&& told.block_number == frames@[i].block.number.0
            &&& told.index == transaction.index
            &&& receipt.transaction_hash == transaction.hash
            &&& receipt.transaction_type == 3
            &&& receipt.transaction_index == transaction.index
            &&& receipt.success == Some(told.success)
            &&& receipt.gas_used == Some(told.gas_used)
            &&& receipt.effective_gas_price == Some(told.gas_price)
            &&& receipt.encoded is None
            &&& receipt.blob_gas_price is None
            &&& receipt.logs@.len() == 0
            &&& receipt.blob_gas_used == Some(blobs[rows.1].1.blob_gas)
            &&& transaction.blob_versioned_hashes@.len() * 131072 <= u64::MAX
                ==> receipt.blob_gas_used == Some(
                (transaction.blob_versioned_hashes@.len() * 131072) as u64,
            )
        }),
        frames@[i].receipts->Filtered_scope.transaction_hashes@[t]
            == frames@[i].transactions->Filtered_value@[t].hash,
{
    lemma_frame_made(tables, blobs, frames, i);
    let number = (tables.range.start.0 + i) as u64;
    let left = left_after(tables, blobs, i as nat);
    lemma_beacon_at(tables.beacon_blocks@, number, 0);
    let row = beacon_at(tables.beacon_blocks@, number, 0)->0;
    let slot = tables.beacon_blocks@[row].slot;
    let sorted = tables.blobs_at(number, left);
    let frame = tables.frame_at(number, left);
    let transactions = frames@[i].transactions->Filtered_value@;
    let receipts = frames@[i].receipts->Filtered_value@;
    assert(views(transactions) == frame.transactions->Filtered_value);
    assert(views(receipts) == frame.receipts->Filtered_value);
    assert(views(transactions).len() == sorted.len());
    assert(views(receipts).len() == sorted.len());
    assert(views(transactions)[t] == transactions[t]@);
    assert(views(receipts)[t] == receipts[t]@);
    assert(views(receipts[t].logs@).len() == receipts[t].logs@.len());
    let grouped = lemma_sorted_member(group_of(left, slot), t);
    let among = lemma_group_member(left, slot, grouped);
    let given = lemma_left_member(tables, blobs, i as nat, among);
    lemma_blobs_join(sorted, tables.execution_transactions@, number, 0, t);
    lemma_receipt_at(tables.execution_transactions@, sorted[t].hash, 0);
    (row, given, receipt_at(tables.execution_transactions@, sorted[t].hash, 0)->0)
}

/// Every blob transaction that was given is in the frame of a block whose slot
/// is its own.
pub proof fn law_given_blob_transactions_are_in_a_frame(
    tables: BlobsTables,
    blobs: Seq<(u64, BeaconTransactionRow)>,
    frames: Vec<BlockFrame>,
    r: int,
) -> (place: (int, int, int))
    requires
        tables.range.wf(),
        tables.is_joined(blobs, Ok::<Vec<BlockFrame>, XatuError>(frames)),
        0 <= r < blobs.len(),
    ensures
        0 <= place.0 < frames@.len(),
        0 <= place.2 < tables.beacon_blocks@.len(),
        tables.beacon_blocks@[place.2].number == frames@[place.0].block.number.0,
        tables.beacon_blocks@[place.2].slot == blobs[r].0,
        frames@[place.0].transactions is Filtered,
        0 <= place.1 < frames@[place.0].transactions->Filtered_value@.len(),
        frames@[place.0].transactions->Filtered_value@[place.1].hash == blobs[r].1.hash,
        frames@[place.0].transactions->Filtered_value@[place.1].index == blobs[r].1.index,
{
    let none = Seq::<FrameView>::empty();
    assert(left_after(tables, blobs, none.len()) == blobs);
    lemma_frames(tables, blobs, tables.range.start.0 as int, none);
    assert(views(frames@).len() == frames@.len());
    let (i, at) = lemma_taken(tables, blobs, r, frames@.len());
    lemma_frame_made(tables, blobs, frames, i);
    let number = (tables.range.start.0 + i) as u64;
    let left = left_after(tables, blobs, i as nat);
    lemma_beacon_at(tables.beacon_blocks@, number, 0);
    let row = beacon_at(tables.beacon_blocks@, number, 0)->0;
    let slot = tables.beacon_blocks@[row].slot;
    let grouped = lemma_in_group(left, slot, at);
    let t = lemma_in_sorted(group_of(left, slot), grouped);
    let transactions = frames@[i].transactions->Filtered_value@;
    let sorted = tables.blobs_at(number, left);
    assert(views(transactions) == tables.frame_at(number, left).transactions->Filtered_value);
    assert(views(transactions).len() == sorted.len());
    assert(views(transactions)[t] == transactions[t]@);
    (i, t, row)
}

/// A block is joined only if the beacon table tells how many transactions it
/// has, one size is given for each, and the sizes add up to what that table
/// tells of them all.
pub proof fn law_joined_blocks_know_every_size(
    tables: BlobsTables,
    blobs: Seq<(u64, BeaconTransactionRow)>,
    frames: Vec<BlockFrame>,
    i: int,
) -> (row: int)
    requires
        tables.range.wf(),
        tables.is_joined(blobs, Ok::<Vec<BlockFrame>, XatuError>(frames)),
        0 <= i < frames@.len(),
    ensures
        0 <= row < tables.beacon_blocks@.len(),
        tables.beacon_blocks@[row].number == frames@[i].block.number.0,
        ({
            let beacon = tables.beacon_blocks@[row];
            let sizes = group_of(tables.sizes@, beacon.slot);
            &&& sizes.len() == beacon.transaction_count
            &&& sizes.map_values(|size: TransactionSizeRow| size.size_bytes as int).fold_left(
                0int,
                |sum: int, size: int| sum + size,
            ) == beacon.transactions_total_bytes
        }),
{
    lemma_frame_made(tables, blobs, frames, i);
    let number = (tables.range.start.0 + i) as u64;
    lemma_beacon_at(tables.beacon_blocks@, number, 0);
    let row = beacon_at(tables.beacon_blocks@, number, 0)->0;
    lemma_total_size(group_of(tables.sizes@, tables.beacon_blocks@[row].slot));
    row
}

proof fn lemma_total_size(sizes: Seq<TransactionSizeRow>)
    ensures
        sizes.map_values(|size: TransactionSizeRow| size.size_bytes as int).fold_left(
            0int,
            |sum: int, size: int| sum + size,
        ) == crate::xatu::sizes::raw_bytes(sizes),
    decreases sizes.len(),
{
    let mapped = sizes.map_values(|size: TransactionSizeRow| size.size_bytes as int);
    if sizes.len() > 0 {
        lemma_total_size(sizes.drop_last());
        assert(mapped.drop_last() =~= sizes.drop_last().map_values(
            |size: TransactionSizeRow| size.size_bytes as int,
        ));
    }
}

} // verus!
