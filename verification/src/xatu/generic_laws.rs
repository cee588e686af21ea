//! What the frames of the public tables take from which row.

use crate::frame::{Completeness, Log, TransactionEnvelope};
use crate::frame_view::{views, MaterialView};
use crate::primitives::{ChainId, Finality};
use crate::stable::{group_of, law_sorting_orders, stable_order};
use crate::xatu::error::DataProblem;
use crate::xatu::frame_laws::{
    lemma_group_member, lemma_in_group, lemma_in_sorted, lemma_sorted_member,
};
use crate::xatu::generic::{
    generic_beacon_at, generic_execution_at, GenericProjectionKind, GenericTables,
};
use crate::xatu::rows::{GenericBeaconBlockRow, GenericExecutionBlockRow};
use vstd::prelude::*;

verus! {

proof fn lemma_execution(blocks: Seq<GenericExecutionBlockRow>, number: u64, from: int)
    requires
        0 <= from,
    ensures
        match generic_execution_at(blocks, number, from) {
            Some(at) => from <= at < blocks.len() && blocks[at].number == number,
            None => forall|i: int|
                from <= i < blocks.len() ==> (#[trigger] blocks[i]).number != number,
        },
    decreases blocks.len() - from,
{
    if from < blocks.len() && blocks[from].number != number {
        lemma_execution(blocks, number, from + 1);
    }
}

proof fn lemma_beacon(blocks: Seq<GenericBeaconBlockRow>, number: u64, from: int)
    requires
        0 <= from,
    ensures
        match generic_beacon_at(blocks, number, from) {
            Some(at) => from <= at < blocks.len() && blocks[at].number == number,
            None => forall|i: int|
                from <= i < blocks.len() ==> (#[trigger] blocks[i]).number != number,
        },
    decreases blocks.len() - from,
{
    if from < blocks.len() && blocks[from].number != number {
        lemma_beacon(blocks, number, from + 1);
    }
}

/// The frame of a block that joins is of an execution row and a beacon row of
/// its number, which agree on its hash and its time. It is final, on the main
/// chain, and has the hash, the parent and the time of the rows. A header is
/// in it if one is asked for, and tells how many transactions the block has.
pub proof fn law_joined_blocks_are_of_agreeing_rows(
    tables: GenericTables,
    number: u64,
    transactions: Seq<(u64, TransactionEnvelope)>,
    logs: Seq<(u64, Log)>,
) -> (rows: (int, int))
    requires
        tables.block_problem(number, transactions, logs) is None,
    ensures
        0 <= rows.0 < tables.execution_blocks@.len(),
        0 <= rows.1 < tables.beacon_blocks@.len(),
        ({
            let execution = tables.execution_blocks@[rows.0];
            let beacon = tables.beacon_blocks@[rows.1];
            let frame = tables.frame_at(number, transactions, logs);
            &&& execution.number == number
            &&& beacon.number == number
            &&& execution.hash == beacon.hash
            &&& execution.timestamp == beacon.timestamp
            &&& frame.chain_id == ChainId(1)
            &&& frame.finality == Finality::Finalized
            &&& frame.block.number.0 == number
            &&& frame.block.hash == execution.hash
            &&& frame.block.parent_hash == beacon.parent_hash
            &&& frame.block.timestamp == execution.timestamp
            &&& frame.header is Filtered <==> tables.include_header
            &&& frame.header matches MaterialView::Filtered { value, scope, completeness } ==> {
                &&& value.transaction_count == Some(beacon.transaction_count)
                &&& completeness == Completeness::DatasetDeclared
                &&& scope.block_range matches Some(range) && range.start.0 == number && range.end.0
                    == number
            }
            &&& !tables.include_header ==> frame.header is Missing
        }),
{
    lemma_execution(tables.execution_blocks@, number, 0);
    lemma_beacon(tables.beacon_blocks@, number, 0);
    (
        generic_execution_at(tables.execution_blocks@, number, 0)->0,
        generic_beacon_at(tables.beacon_blocks@, number, 0)->0,
    )
}

/// A block does not join if the rows of its number are missing on either side,
/// and the answer says which.
pub proof fn law_blocks_without_rows_do_not_join(
    tables: GenericTables,
    number: u64,
    transactions: Seq<(u64, TransactionEnvelope)>,
    logs: Seq<(u64, Log)>,
)
    ensures
        (forall|i: int|
            0 <= i < tables.execution_blocks@.len() ==> (
            #[trigger] tables.execution_blocks@[i]).number != number) <==> tables.block_problem(
            number,
            transactions,
            logs,
        ) == Some(DataProblem::MissingExecutionBlock(number)),
        (forall|i: int|
            0 <= i < tables.beacon_blocks@.len() ==> (#[trigger] tables.beacon_blocks@[i]).number
                != number) ==> tables.block_problem(number, transactions, logs) is Some,
{
    lemma_execution(tables.execution_blocks@, number, 0);
    lemma_beacon(tables.beacon_blocks@, number, 0);
}

/// A view of transactions has the block's transactions, and nothing else of
/// its body; a view of logs has its logs. What it has are those that the
/// tables give for the block, under the filter that chose them, narrowed to
/// the block.
pub proof fn law_joined_blocks_hold_their_view(
    tables: GenericTables,
    number: u64,
    transactions: Seq<(u64, TransactionEnvelope)>,
    logs: Seq<(u64, Log)>,
)
    ensures
        ({
            let frame = tables.frame_at(number, transactions, logs);
            let asked = tables.filters;
            &&& tables.kind == GenericProjectionKind::Transactions <==> frame.transactions
                is Filtered
            &&& tables.kind != GenericProjectionKind::Transactions <==> frame.transactions
                is Missing
            &&& tables.kind == GenericProjectionKind::Logs <==> frame.logs is Filtered
            &&& tables.kind != GenericProjectionKind::Logs <==> frame.logs is Missing
            &&& frame.receipts is Missing
            &&& frame.withdrawals is Missing
            &&& frame.blob_sidecars is Missing
            &&& frame.traces is Missing
            &&& frame.state_diffs is Missing
            &&& frame.transactions matches MaterialView::Filtered { value, scope, completeness }
                ==> {
                &&& value.len() == group_of(transactions, number).len()
                &&& completeness == Completeness::DatasetDeclared
                &&& scope.block_range matches Some(range) && range.start.0 == number && range.end.0
                    == number
                &&& scope.senders == asked.senders@ || asked.scope.senders@.len() > 0
                &&& scope.senders == asked.scope.senders@ || asked.scope.senders@.len() == 0
                &&& scope.recipients == asked.recipients@ || asked.scope.recipients@.len() > 0
                &&& scope.recipients == asked.scope.recipients@ || asked.scope.recipients@.len()
                    == 0
                &&& scope.transaction_types == asked.scope.transaction_types@
                &&& scope.transaction_hashes == asked.scope.transaction_hashes@
            }
            &&& frame.logs matches MaterialView::Filtered { value, scope, completeness } ==> {
                &&& value.len() == group_of(logs, number).len()
                &&& completeness == Completeness::DatasetDeclared
                &&& scope.block_range matches Some(range) && range.start.0 == number && range.end.0
                    == number
                &&& scope.addresses == asked.scope.addresses@
                &&& scope.transaction_hashes == asked.scope.transaction_hashes@
            }
        }),
{
    law_sorting_orders(group_of(transactions, number));
    law_sorting_orders(group_of(logs, number));
    assert(views(stable_order(group_of(transactions, number))).len() == group_of(
        transactions,
        number,
    ).len());
    assert(views(stable_order(group_of(logs, number))).len() == group_of(logs, number).len());
}

/// Every transaction of a frame was given for its block.
pub proof fn law_joined_transactions_were_given(
    tables: GenericTables,
    number: u64,
    transactions: Seq<(u64, TransactionEnvelope)>,
    logs: Seq<(u64, Log)>,
    at: int,
) -> (r: int)
    requires
        tables.frame_at(number, transactions, logs).transactions is Filtered,
        0 <= at < tables.frame_at(number, transactions, logs).transactions->Filtered_value.len(),
    ensures
        0 <= r < transactions.len(),
        transactions[r].0 == number,
        transactions[r].1@ == tables.frame_at(number, transactions, logs).transactions->Filtered_value[at],
{
    let group = group_of(transactions, number);
    law_sorting_orders(group);
    let from = lemma_sorted_member(group, at);
    lemma_group_member(transactions, number, from)
}

/// Every transaction that was given for a block is in the frame of a view of transactions.
pub proof fn law_given_transactions_are_joined(
    tables: GenericTables,
    number: u64,
    transactions: Seq<(u64, TransactionEnvelope)>,
    logs: Seq<(u64, Log)>,
    r: int,
) -> (at: int)
    requires
        tables.kind == GenericProjectionKind::Transactions,
        0 <= r < transactions.len(),
        transactions[r].0 == number,
    ensures
        tables.frame_at(number, transactions, logs).transactions is Filtered,
        0 <= at < tables.frame_at(number, transactions, logs).transactions->Filtered_value.len(),
        tables.frame_at(number, transactions, logs).transactions->Filtered_value[at]
            == transactions[r].1@,
{
    let group = group_of(transactions, number);
    law_sorting_orders(group);
    let from = lemma_in_group(transactions, number, r);
    lemma_in_sorted(group, from)
}

/// Every log of a frame was given for its block.
pub proof fn law_joined_logs_were_given(
    tables: GenericTables,
    number: u64,
    transactions: Seq<(u64, TransactionEnvelope)>,
    logs: Seq<(u64, Log)>,
    at: int,
) -> (r: int)
    requires
        tables.frame_at(number, transactions, logs).logs is Filtered,
        0 <= at < tables.frame_at(number, transactions, logs).logs->Filtered_value.len(),
    ensures
        0 <= r < logs.len(),
        logs[r].0 == number,
        logs[r].1@ == tables.frame_at(number, transactions, logs).logs->Filtered_value[at],
{
    let group = group_of(logs, number);
    law_sorting_orders(group);
    let from = lemma_sorted_member(group, at);
    lemma_group_member(logs, number, from)
}

/// Every log that was given for a block is in the frame of a view of logs.
pub proof fn law_given_logs_are_joined(
    tables: GenericTables,
    number: u64,
    transactions: Seq<(u64, TransactionEnvelope)>,
    logs: Seq<(u64, Log)>,
    r: int,
) -> (at: int)
    requires
        tables.kind == GenericProjectionKind::Logs,
        0 <= r < logs.len(),
        logs[r].0 == number,
    ensures
        tables.frame_at(number, transactions, logs).logs is Filtered,
        0 <= at < tables.frame_at(number, transactions, logs).logs->Filtered_value.len(),
        tables.frame_at(number, transactions, logs).logs->Filtered_value[at]
            == logs[r].1@,
{
    let group = group_of(logs, number);
    law_sorting_orders(group);
    let from = lemma_in_group(logs, number, r);
    lemma_in_sorted(group, from)
}

} // verus!
