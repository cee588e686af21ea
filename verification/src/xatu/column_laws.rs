//! What holds of the columns that a table must have.

use crate::xatu::catalog::{PartitionKind, XatuTable};
use crate::xatu::projection::BlobsStage;
use vstd::prelude::*;

verus! {

/// No name is in the list twice.
pub open spec fn names_differ(columns: Seq<&'static str>) -> bool {
    forall|i: int, j: int|
        #![trigger columns[i], columns[j]]
        0 <= i < j < columns.len() ==> columns[i]@ != columns[j]@
}

/// A number of a name, made of its length and its first and last character.
spec fn code(name: Seq<char>) -> int {
    name.len() + 100 * (name[0] as int) + 100_000 * (name.last() as int)
}

/// Names with different numbers differ.
proof fn lemma_codes_differ(columns: Seq<&'static str>, codes: Seq<int>)
    requires
        columns.len() == codes.len(),
        forall|i: int| 0 <= i < columns.len() ==> code((#[trigger] columns[i])@) == codes[i],
        forall|i: int, j: int|
            #![trigger codes[i], codes[j]]
            0 <= i < j < codes.len() ==> codes[i] != codes[j],
    ensures
        names_differ(columns),
{
    assert forall|i: int, j: int|
        #![trigger columns[i], columns[j]]
        0 <= i < j < columns.len() implies columns[i]@ != columns[j]@ by {
        assert(code(columns[i]@) == codes[i]);
        assert(code(columns[j]@) == codes[j]);
    }
}

proof fn lemma_canonical_execution_block_names()
    ensures
        names_differ(XatuTable::CanonicalExecutionBlock.spec_required_columns()),
{
    reveal_strlit("block_date_time");
    reveal_strlit("block_number");
    reveal_strlit("block_hash");
    reveal_strlit("gas_used");
    reveal_strlit("extra_data");
    reveal_strlit("base_fee_per_gas");
    reveal_strlit("meta_network_name");
    let columns = XatuTable::CanonicalExecutionBlock.spec_required_columns();
    let codes: Seq<int> = seq![
        10109815,
        11409812,
        10409810,
        10010308,
        9710110,
        11509816,
        10110917,
    ];
    assert(code(columns[0]@) == codes[0]);
    assert(code(columns[1]@) == codes[1]);
    assert(code(columns[2]@) == codes[2]);
    assert(code(columns[3]@) == codes[3]);
    assert(code(columns[4]@) == codes[4]);
    assert(code(columns[5]@) == codes[5]);
    assert(code(columns[6]@) == codes[6]);
    lemma_codes_differ(columns, codes);
}

proof fn lemma_canonical_execution_transaction_names()
    ensures
        names_differ(XatuTable::CanonicalExecutionTransaction.spec_required_columns()),
{
    reveal_strlit("block_number");
    reveal_strlit("transaction_index");
    reveal_strlit("transaction_hash");
    reveal_strlit("from_address");
    reveal_strlit("to_address");
    reveal_strlit("value");
    reveal_strlit("gas_used");
    reveal_strlit("gas_price");
    reveal_strlit("transaction_type");
    reveal_strlit("success");
    reveal_strlit("meta_network_name");
    let columns = XatuTable::CanonicalExecutionTransaction.spec_required_columns();
    let codes: Seq<int> = seq![
        11409812,
        12011617,
        10411616,
        11510212,
        11511610,
        10111805,
        10010308,
        10110309,
        10111616,
        11511507,
        10110917,
    ];
    assert(code(columns[0]@) == codes[0]);
    assert(code(columns[1]@) == codes[1]);
    assert(code(columns[2]@) == codes[2]);
    assert(code(columns[3]@) == codes[3]);
    assert(code(columns[4]@) == codes[4]);
    assert(code(columns[5]@) == codes[5]);
    assert(code(columns[6]@) == codes[6]);
    assert(code(columns[7]@) == codes[7]);
    assert(code(columns[8]@) == codes[8]);
    assert(code(columns[9]@) == codes[9]);
    assert(code(columns[10]@) == codes[10]);
    lemma_codes_differ(columns, codes);
}

proof fn lemma_canonical_execution_logs_names()
    ensures
        names_differ(XatuTable::CanonicalExecutionLogs.spec_required_columns()),
{
    reveal_strlit("block_number");
    reveal_strlit("transaction_index");
    reveal_strlit("transaction_hash");
    reveal_strlit("log_index");
    reveal_strlit("address");
    reveal_strlit("topic0");
    reveal_strlit("topic1");
    reveal_strlit("topic2");
    reveal_strlit("topic3");
    reveal_strlit("data");
    reveal_strlit("meta_network_name");
    let columns = XatuTable::CanonicalExecutionLogs.spec_required_columns();
    let codes: Seq<int> = seq![
        11409812,
        12011617,
        10411616,
        12010809,
        11509707,
        4811606,
        4911606,
        5011606,
        5111606,
        9710004,
        10110917,
    ];
    assert(code(columns[0]@) == codes[0]);
    assert(code(columns[1]@) == codes[1]);
    assert(code(columns[2]@) == codes[2]);
    assert(code(columns[3]@) == codes[3]);
    assert(code(columns[4]@) == codes[4]);
    assert(code(columns[5]@) == codes[5]);
    assert(code(columns[6]@) == codes[6]);
    assert(code(columns[7]@) == codes[7]);
    assert(code(columns[8]@) == codes[8]);
    assert(code(columns[9]@) == codes[9]);
    assert(code(columns[10]@) == codes[10]);
    lemma_codes_differ(columns, codes);
}

proof fn lemma_canonical_beacon_block_names()
    ensures
        names_differ(XatuTable::CanonicalBeaconBlock.spec_required_columns()),
{
    reveal_strlit("slot");
    reveal_strlit("slot_start_date_time");
    reveal_strlit("block_root");
    reveal_strlit("block_version");
    reveal_strlit("block_total_bytes");
    reveal_strlit("execution_payload_block_hash");
    reveal_strlit("execution_payload_block_number");
    reveal_strlit("execution_payload_base_fee_per_gas");
    reveal_strlit("execution_payload_blob_gas_used");
    reveal_strlit("execution_payload_excess_blob_gas");
    reveal_strlit("execution_payload_gas_limit");
    reveal_strlit("execution_payload_gas_used");
    reveal_strlit("execution_payload_parent_hash");
    reveal_strlit("execution_payload_transactions_count");
    reveal_strlit("execution_payload_transactions_total_bytes");
    reveal_strlit("meta_network_name");
    let columns = XatuTable::CanonicalBeaconBlock.spec_required_columns();
    let codes: Seq<int> = seq![
        11611504,
        10111520,
        11609810,
        11009813,
        11509817,
        10410128,
        11410130,
        11510134,
        10010131,
        11510133,
        11610127,
        10010126,
        10410129,
        11610136,
        11510142,
        10110917,
    ];
    assert(code(columns[0]@) == codes[0]);
    assert(code(columns[1]@) == codes[1]);
    assert(code(columns[2]@) == codes[2]);
    assert(code(columns[3]@) == codes[3]);
    assert(code(columns[4]@) == codes[4]);
    assert(code(columns[5]@) == codes[5]);
    assert(code(columns[6]@) == codes[6]);
    assert(code(columns[7]@) == codes[7]);
    assert(code(columns[8]@) == codes[8]);
    assert(code(columns[9]@) == codes[9]);
    assert(code(columns[10]@) == codes[10]);
    assert(code(columns[11]@) == codes[11]);
    assert(code(columns[12]@) == codes[12]);
    assert(code(columns[13]@) == codes[13]);
    assert(code(columns[14]@) == codes[14]);
    assert(code(columns[15]@) == codes[15]);
    lemma_codes_differ(columns, codes);
}

proof fn lemma_canonical_beacon_block_execution_transaction_names()
    ensures
        names_differ(XatuTable::CanonicalBeaconBlockExecutionTransaction.spec_required_columns()),
{
    reveal_strlit("slot");
    reveal_strlit("slot_start_date_time");
    reveal_strlit("block_root");
    reveal_strlit("position");
    reveal_strlit("hash");
    reveal_strlit("from");
    reveal_strlit("to");
    reveal_strlit("gas_price");
    reveal_strlit("gas");
    reveal_strlit("type");
    reveal_strlit("size");
    reveal_strlit("blob_gas");
    reveal_strlit("blob_gas_fee_cap");
    reveal_strlit("blob_hashes");
    reveal_strlit("meta_network_name");
    let columns = XatuTable::CanonicalBeaconBlockExecutionTransaction.spec_required_columns();
    let codes: Seq<int> = seq![
        11611504,
        10111520,
        11609810,
        11011208,
        10410404,
        10910204,
        11111602,
        10110309,
        11510303,
        10111604,
        10111504,
        11509808,
        11209816,
        11509811,
        10110917,
    ];
    assert(code(columns[0]@) == codes[0]);
    assert(code(columns[1]@) == codes[1]);
    assert(code(columns[2]@) == codes[2]);
    assert(code(columns[3]@) == codes[3]);
    assert(code(columns[4]@) == codes[4]);
    assert(code(columns[5]@) == codes[5]);
    assert(code(columns[6]@) == codes[6]);
    assert(code(columns[7]@) == codes[7]);
    assert(code(columns[8]@) == codes[8]);
    assert(code(columns[9]@) == codes[9]);
    assert(code(columns[10]@) == codes[10]);
    assert(code(columns[11]@) == codes[11]);
    assert(code(columns[12]@) == codes[12]);
    assert(code(columns[13]@) == codes[13]);
    assert(code(columns[14]@) == codes[14]);
    lemma_codes_differ(columns, codes);
}

proof fn lemma_canonical_beacon_block_withdrawal_names()
    ensures
        names_differ(XatuTable::CanonicalBeaconBlockWithdrawal.spec_required_columns()),
{
    reveal_strlit("slot");
    reveal_strlit("slot_start_date_time");
    reveal_strlit("block_root");
    reveal_strlit("block_version");
    reveal_strlit("withdrawal_index");
    reveal_strlit("withdrawal_validator_index");
    reveal_strlit("withdrawal_address");
    reveal_strlit("withdrawal_amount");
    reveal_strlit("meta_network_name");
    let columns = XatuTable::CanonicalBeaconBlockWithdrawal.spec_required_columns();
    let codes: Seq<int> = seq![
        11611504,
        10111520,
        11609810,
        11009813,
        12011916,
        12011926,
        11511918,
        11611917,
        10110917,
    ];
    assert(code(columns[0]@) == codes[0]);
    assert(code(columns[1]@) == codes[1]);
    assert(code(columns[2]@) == codes[2]);
    assert(code(columns[3]@) == codes[3]);
    assert(code(columns[4]@) == codes[4]);
    assert(code(columns[5]@) == codes[5]);
    assert(code(columns[6]@) == codes[6]);
    assert(code(columns[7]@) == codes[7]);
    assert(code(columns[8]@) == codes[8]);
    lemma_codes_differ(columns, codes);
}

/// The columns that a table must have are some, none is named twice, and the
/// network's name is the last of them. They hold the block number where the
/// table is divided by blocks, and the slot and its time where it is divided by
/// days.
pub proof fn law_required_columns_are_distinct(table: XatuTable)
    ensures
        table.spec_required_columns().len() > 0,
        names_differ(table.spec_required_columns()),
        table.spec_required_columns().last() == "meta_network_name",
        table.spec_partition_kind() == PartitionKind::BlockChunk1000
            ==> table.spec_required_columns().contains("block_number"),
        table.spec_partition_kind() == PartitionKind::Daily
            ==> table.spec_required_columns().contains("slot")
            && table.spec_required_columns().contains("slot_start_date_time"),
{
    let columns = table.spec_required_columns();
    match table {
        XatuTable::CanonicalExecutionBlock => {
            lemma_canonical_execution_block_names();
            assert(columns[1] == "block_number");
        },
        XatuTable::CanonicalExecutionTransaction => {
            lemma_canonical_execution_transaction_names();
            assert(columns[0] == "block_number");
        },
        XatuTable::CanonicalExecutionLogs => {
            lemma_canonical_execution_logs_names();
            assert(columns[0] == "block_number");
        },
        XatuTable::CanonicalBeaconBlock => {
            lemma_canonical_beacon_block_names();
            assert(columns[0] == "slot");
            assert(columns[1] == "slot_start_date_time");
        },
        XatuTable::CanonicalBeaconBlockExecutionTransaction => {
            lemma_canonical_beacon_block_execution_transaction_names();
            assert(columns[0] == "slot");
            assert(columns[1] == "slot_start_date_time");
        },
        XatuTable::CanonicalBeaconBlockWithdrawal => {
            lemma_canonical_beacon_block_withdrawal_names();
            assert(columns[0] == "slot");
            assert(columns[1] == "slot_start_date_time");
        },
    }
}

/// Every column that a stage of the blob projection reads is among those that
/// its table must have.
pub proof fn law_read_columns_are_required(stage: BlobsStage, at: int)
    requires
        stage.spec_table() is Some,
        0 <= at < stage.spec_columns().len(),
    ensures
        (stage.spec_table()->0).spec_required_columns().contains(stage.spec_columns()[at]),
{
    let read = stage.spec_columns();
    let columns = (stage.spec_table()->0).spec_required_columns();
    match stage {
        BlobsStage::ExecutionBlocks => {
            assert(read[0] == columns[0]);
            assert(read[1] == columns[1]);
            assert(read[2] == columns[2]);
            assert(read[3] == columns[3]);
            assert(read[4] == columns[4]);
            assert(read[5] == columns[5]);
        },
        BlobsStage::BeaconBlocks => {
            assert(read[0] == columns[0]);
            assert(read[1] == columns[1]);
            assert(read[2] == columns[3]);
            assert(read[3] == columns[4]);
            assert(read[4] == columns[5]);
            assert(read[5] == columns[6]);
            assert(read[6] == columns[7]);
            assert(read[7] == columns[8]);
            assert(read[8] == columns[9]);
            assert(read[9] == columns[10]);
            assert(read[10] == columns[11]);
            assert(read[11] == columns[12]);
            assert(read[12] == columns[13]);
            assert(read[13] == columns[14]);
        },
        BlobsStage::BeaconTransactions => {
            assert(read[0] == columns[0]);
            assert(read[1] == columns[3]);
            assert(read[2] == columns[4]);
            assert(read[3] == columns[5]);
            assert(read[4] == columns[6]);
            assert(read[5] == columns[8]);
            assert(read[6] == columns[9]);
            assert(read[7] == columns[10]);
            assert(read[8] == columns[11]);
            assert(read[9] == columns[12]);
            assert(read[10] == columns[13]);
        },
        BlobsStage::Withdrawals => {
            assert(read[0] == columns[0]);
            assert(read[1] == columns[4]);
            assert(read[2] == columns[5]);
            assert(read[3] == columns[6]);
            assert(read[4] == columns[7]);
        },
        BlobsStage::ExecutionTransactions => {
            assert(read[0] == columns[0]);
            assert(read[1] == columns[1]);
            assert(read[2] == columns[2]);
            assert(read[3] == columns[6]);
            assert(read[4] == columns[7]);
            assert(read[5] == columns[8]);
            assert(read[6] == columns[9]);
        },
        BlobsStage::Joined => {},
    }
}

} // verus!
