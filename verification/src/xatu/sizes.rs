//! Encoded sizes of execution blocks.

use crate::primitives::{Address, BlockHash, Quantity};
use crate::xatu::error::DataProblem;
use vstd::prelude::*;

verus! {

/// A block of the execution tables.
#[derive(Debug)]
pub struct ExecutionBlockRow {
    pub number: u64,
    pub hash: BlockHash,
    pub timestamp: u64,
    pub gas_used: u64,
    pub extra_data: Vec<u8>,
    pub base_fee_per_gas: u64,
}

/// Rules by which an execution block is encoded.
#[derive(Clone, Copy, Debug, PartialEq, Eq, Structural)]
pub enum ExecutionBlockFork {
    Cancun,
    Prague,
}

/// A block of the beacon tables, with its execution payload.
#[derive(Clone, Copy, Debug)]
pub struct BeaconBlockRow {
    pub slot: u64,
    pub number: u64,
    pub hash: BlockHash,
    pub parent_hash: BlockHash,
    pub timestamp: u64,
    pub consensus_size_bytes: u64,
    pub fork: ExecutionBlockFork,
    pub base_fee_per_gas: Quantity,
    pub blob_gas_used: u64,
    pub excess_blob_gas: u64,
    pub gas_limit: u64,
    pub gas_used: u64,
    pub transaction_count: u32,
    pub transactions_total_bytes: u64,
}

/// The type and the encoded size of a transaction.
#[derive(Clone, Copy, Debug, PartialEq, Eq, Structural)]
pub struct TransactionSizeRow {
    pub transaction_type: u8,
    pub size_bytes: u32,
}

/// A withdrawal of a block.
#[derive(Clone, Copy, Debug)]
pub struct WithdrawalRow {
    pub index: u64,
    pub validator_index: u64,
    pub address: Address,
    pub amount_gwei: u64,
}

/// A number as far as it can be counted.
pub open spec fn capped(value: int) -> u64 {
    if value > u64::MAX {
        u64::MAX
    } else {
        value as u64
    }
}

/// How many bytes a number takes without leading zeros.
pub open spec fn byte_length(value: nat) -> nat
    decreases value,
{
    if value == 0 {
        0
    } else {
        1 + byte_length(value / 256)
    }
}

/// Bytes of the prefix of a payload.
pub open spec fn header_length(payload: u64) -> nat {
    if payload <= 55 {
        1
    } else {
        1 + byte_length(payload as nat)
    }
}

/// A payload and its prefix.
pub open spec fn prefixed_length(payload: u64) -> u64 {
    capped(payload + header_length(payload))
}

/// The encoded size of a number.
pub open spec fn integer_length(value: u64) -> u64 {
    if value < 0x80 {
        1
    } else {
        (1 + byte_length(value as nat)) as u64
    }
}

/// The encoded size of a byte string.
pub open spec fn string_length(bytes: Seq<u8>) -> u64 {
    if bytes.len() == 1 && bytes[0] < 0x80 {
        1
    } else {
        prefixed_length(bytes.len() as u64)
    }
}

/// How many zero bytes a quantity starts with, from `from` on.
pub open spec fn first_nonzero(bytes: Seq<u8>, from: int) -> Option<int>
    decreases bytes.len() - from,
{
    if from < 0 || from >= bytes.len() {
        None
    } else if bytes[from] != 0 {
        Some(from)
    } else {
        first_nonzero(bytes, from + 1)
    }
}

/// The encoded size of a quantity.
pub open spec fn quantity_length(quantity: Quantity) -> u64 {
    match first_nonzero(quantity.0@, 0) {
        Some(at) => string_length(quantity.0@.skip(at)),
        None => 1,
    }
}

proof fn lemma_byte_length(value: nat)
    requires
        value <= u64::MAX,
    ensures
        byte_length(value) <= 8,
{
    reveal_with_fuel(byte_length, 10);
}

fn count_bytes(value: u64) -> (count: u64)
    ensures
        count == byte_length(value as nat),
        count <= 8,
{
    proof {
        lemma_byte_length(value as nat);
    }
    let mut rest: u64 = value;
    let mut count: u64 = 0;
    while rest > 0
        invariant
            count + byte_length(rest as nat) == byte_length(value as nat),
            byte_length(value as nat) <= 8,
        decreases rest,
    {
        rest = rest / 256;
        count = count + 1;
    }
    count
}

pub fn rlp_header_len(payload: u64) -> (length: u64)
    ensures
        length == header_length(payload),
{
    if payload <= 55 {
        1
    } else {
        1 + count_bytes(payload)
    }
}

pub fn rlp_bytes_len(payload: u64) -> (length: u64)
    ensures
        length == prefixed_length(payload),
{
    payload.saturating_add(rlp_header_len(payload))
}

pub fn rlp_list_len(payload: u64) -> (length: u64)
    ensures
        length == prefixed_length(payload),
{
    payload.saturating_add(rlp_header_len(payload))
}

pub fn rlp_integer_len(value: u64) -> (length: u64)
    ensures
        length == integer_length(value),
        length <= 9,
{
    if value < 0x80 {
        1
    } else {
        1 + count_bytes(value)
    }
}

pub fn rlp_byte_slice_len(bytes: &[u8]) -> (length: u64)
    ensures
        length == string_length(bytes@),
{
    if bytes.len() == 1 && bytes[0] < 0x80 {
        1
    } else {
        rlp_bytes_len(bytes.len() as u64)
    }
}

pub fn rlp_quantity_len(quantity: Quantity) -> (length: u64)
    ensures
        length == quantity_length(quantity),
{
    let mut index: usize = 0;
    while index < 32
        invariant
            index <= 32,
            quantity.0@.len() == 32,
            first_nonzero(quantity.0@, 0) == first_nonzero(quantity.0@, index as int),
        decreases 32 - index,
    {
        if quantity.0[index] != 0 {
            assert(quantity.0@[index as int] != 0);
            assert(quantity.0@.skip(index as int).len() == 32 - index);
            return if index == 31 && quantity.0[31] < 0x80 {
                1
            } else {
                rlp_bytes_len((32 - index) as u64)
            };
        }
        assert(quantity.0@[index as int] == 0);
        index += 1;
    }
    1
}

/// All sizes together.
pub open spec fn raw_bytes(transactions: Seq<TransactionSizeRow>) -> int
    decreases transactions.len(),
{
    if transactions.len() == 0 {
        0
    } else {
        raw_bytes(transactions.drop_last()) + transactions.last().size_bytes
    }
}

/// A transaction inside a block's list: a legacy one is a list already, any
/// other a byte string.
pub open spec fn body_length(transaction: TransactionSizeRow) -> u64 {
    if transaction.transaction_type == 0 {
        transaction.size_bytes as u64
    } else {
        prefixed_length(transaction.size_bytes as u64)
    }
}

pub open spec fn transactions_length(transactions: Seq<TransactionSizeRow>) -> u64
    decreases transactions.len(),
{
    if transactions.len() == 0 {
        0
    } else {
        capped(transactions_length(transactions.drop_last()) + body_length(transactions.last()))
    }
}

pub open spec fn withdrawal_length(withdrawal: WithdrawalRow) -> u64 {
    prefixed_length(
        capped(
            integer_length(withdrawal.index) + integer_length(withdrawal.validator_index)
                + string_length(withdrawal.address.0@) + integer_length(withdrawal.amount_gwei),
        ),
    )
}

pub open spec fn withdrawals_length(withdrawals: Seq<WithdrawalRow>) -> u64
    decreases withdrawals.len(),
{
    if withdrawals.len() == 0 {
        0
    } else {
        capped(withdrawals_length(withdrawals.drop_last()) + withdrawal_length(withdrawals.last()))
    }
}

/// The fields of an execution header: seven hashes, roots, addresses and the
/// bloom filter, the mix hash, the nonce, the withdrawals root and the parent
/// beacon root have fixed sizes. A later fork adds the requests hash.
pub open spec fn header_payload(execution: ExecutionBlockRow, beacon: BeaconBlockRow) -> u64 {
    capped(
        33 + 33 + 21 + 33 + 33 + 33 + 259 + 1 + integer_length(execution.number) + integer_length(
            beacon.gas_limit,
        ) + integer_length(beacon.gas_used) + integer_length(beacon.timestamp) + string_length(
            execution.extra_data@,
        ) + 33 + 9 + quantity_length(beacon.base_fee_per_gas) + 33 + integer_length(
            beacon.blob_gas_used,
        ) + integer_length(beacon.excess_blob_gas) + 33 + if beacon.fork
            == ExecutionBlockFork::Prague {
            33int
        } else {
            0
        },
    )
}

/// The encoded size of a block: header, transactions, no ommers, withdrawals.
pub open spec fn block_length(
    execution: ExecutionBlockRow,
    beacon: BeaconBlockRow,
    transactions: Seq<TransactionSizeRow>,
    withdrawals: Seq<WithdrawalRow>,
) -> u64 {
    prefixed_length(
        capped(
            prefixed_length(header_payload(execution, beacon)) + prefixed_length(
                transactions_length(transactions),
            ) + 1 + prefixed_length(withdrawals_length(withdrawals)),
        ),
    )
}

/// Why the size of a block cannot be told.
pub open spec fn size_problem(
    execution: ExecutionBlockRow,
    beacon: BeaconBlockRow,
    transactions: Seq<TransactionSizeRow>,
) -> Option<DataProblem> {
    if transactions.len() != beacon.transaction_count {
        Some(
            DataProblem::SizeCoverage {
                number: execution.number,
                rows: transactions.len() as usize,
                expected: beacon.transaction_count,
            },
        )
    } else if raw_bytes(transactions) != beacon.transactions_total_bytes {
        Some(
            DataProblem::ByteDisagreement {
                number: execution.number,
                rows: raw_bytes(transactions) as u64,
                beacon: beacon.transactions_total_bytes,
            },
        )
    } else {
        None
    }
}

proof fn lemma_raw_bytes(transactions: Seq<TransactionSizeRow>)
    ensures
        0 <= raw_bytes(transactions) <= transactions.len() * 0xffff_ffff,
    decreases transactions.len(),
{
    if transactions.len() > 0 {
        lemma_raw_bytes(transactions.drop_last());
        assert(transactions.len() * 0xffff_ffff == (transactions.len() - 1) * 0xffff_ffff
            + 0xffff_ffff);
    }
}

fn count_raw_bytes(transactions: &[TransactionSizeRow]) -> (total: u64)
    requires
        transactions@.len() <= u32::MAX,
    ensures
        total == raw_bytes(transactions@),
{
    let mut total: u64 = 0;
    let mut index: usize = 0;
    while index < transactions.len()
        invariant
            index <= transactions@.len(),
            transactions@.len() <= u32::MAX,
            total == raw_bytes(transactions@.take(index as int)),
        decreases transactions@.len() - index,
    {
        proof {
            let longer = transactions@.take(index + 1);
            assert(longer.drop_last() =~= transactions@.take(index as int));
            assert(longer.last() == transactions@[index as int]);
            lemma_raw_bytes(longer);
            assert((index + 1) * 0xffff_ffff <= 0xffff_ffff * 0xffff_ffff) by (nonlinear_arith)
                requires
                    index + 1 <= 0xffff_ffff,
            ;
        }
        total = total + transactions[index].size_bytes as u64;
        index += 1;
    }
    assert(transactions@.take(index as int) =~= transactions@);
    total
}

fn transaction_list_payload(transactions: &[TransactionSizeRow]) -> (total: u64)
    ensures
        total == transactions_length(transactions@),
{
    let mut total: u64 = 0;
    let mut index: usize = 0;
    while index < transactions.len()
        invariant
            index <= transactions@.len(),
            total == transactions_length(transactions@.take(index as int)),
        decreases transactions@.len() - index,
    {
        proof {
            let longer = transactions@.take(index + 1);
            assert(longer.drop_last() =~= transactions@.take(index as int));
            assert(longer.last() == transactions@[index as int]);
        }
        let transaction: TransactionSizeRow = transactions[index];
        let size: u64 = if transaction.transaction_type == 0 {
            transaction.size_bytes as u64
        } else {
            rlp_bytes_len(transaction.size_bytes as u64)
        };
        total = total.saturating_add(size);
        index += 1;
    }
    assert(transactions@.take(index as int) =~= transactions@);
    total
}

fn withdrawal_list_payload(withdrawals: &[WithdrawalRow]) -> (total: u64)
    ensures
        total == withdrawals_length(withdrawals@),
{
    let mut total: u64 = 0;
    let mut index: usize = 0;
    while index < withdrawals.len()
        invariant
            index <= withdrawals@.len(),
            total == withdrawals_length(withdrawals@.take(index as int)),
        decreases withdrawals@.len() - index,
    {
        proof {
            let longer = withdrawals@.take(index + 1);
            assert(longer.drop_last() =~= withdrawals@.take(index as int));
            assert(longer.last() == withdrawals@[index as int]);
        }
        let withdrawal: WithdrawalRow = withdrawals[index];
        let payload: u64 = rlp_integer_len(withdrawal.index).saturating_add(
            rlp_integer_len(withdrawal.validator_index),
        ).saturating_add(rlp_byte_slice_len(&withdrawal.address.0)).saturating_add(
            rlp_integer_len(withdrawal.amount_gwei),
        );
        total = total.saturating_add(rlp_list_len(payload));
        index += 1;
    }
    assert(withdrawals@.take(index as int) =~= withdrawals@);
    total
}

fn fixed_fields() -> (payload: u64)
    ensures
        payload == 33 + 33 + 21 + 33 + 33 + 33 + 259,
        prefixed_length(32) == 33,
        prefixed_length(8) == 9,
        integer_length(0) == 1,
{
    proof {
        reveal_with_fuel(byte_length, 4);
    }
    rlp_bytes_len(32).saturating_add(rlp_bytes_len(32)).saturating_add(
        rlp_bytes_len(20),
    ).saturating_add(rlp_bytes_len(32)).saturating_add(rlp_bytes_len(32)).saturating_add(
        rlp_bytes_len(32),
    ).saturating_add(rlp_bytes_len(256))
}

/// The exact encoded size of an execution block.
pub fn execution_block_rlp_len(
    execution: &ExecutionBlockRow,
    beacon: &BeaconBlockRow,
    transactions: &[TransactionSizeRow],
    withdrawals: &[WithdrawalRow],
) -> (outcome: Result<u64, DataProblem>)
    ensures
        outcome == (match size_problem(*execution, *beacon, transactions@) {
            Some(problem) => Err::<u64, DataProblem>(problem),
            None => Ok(block_length(*execution, *beacon, transactions@, withdrawals@)),
        }),
{
    if transactions.len() as u64 != beacon.transaction_count as u64 {
        return Err(
            DataProblem::SizeCoverage {
                number: execution.number,
                rows: transactions.len(),
                expected: beacon.transaction_count,
            },
        );
    }
    let total: u64 = count_raw_bytes(transactions);
    if total != beacon.transactions_total_bytes {
        return Err(
            DataProblem::ByteDisagreement {
                number: execution.number,
                rows: total,
                beacon: beacon.transactions_total_bytes,
            },
        );
    }
    let mut payload: u64 = fixed_fields().saturating_add(rlp_integer_len(0)).saturating_add(
        rlp_integer_len(execution.number),
    ).saturating_add(rlp_integer_len(beacon.gas_limit)).saturating_add(
        rlp_integer_len(beacon.gas_used),
    ).saturating_add(rlp_integer_len(beacon.timestamp)).saturating_add(
        rlp_byte_slice_len(execution.extra_data.as_slice()),
    ).saturating_add(rlp_bytes_len(32)).saturating_add(rlp_bytes_len(8)).saturating_add(
        rlp_quantity_len(beacon.base_fee_per_gas),
    ).saturating_add(rlp_bytes_len(32)).saturating_add(
        rlp_integer_len(beacon.blob_gas_used),
    ).saturating_add(rlp_integer_len(beacon.excess_blob_gas)).saturating_add(rlp_bytes_len(32));
    if beacon.fork == ExecutionBlockFork::Prague {
        payload = payload.saturating_add(rlp_bytes_len(32));
    }
    assert(payload == header_payload(*execution, *beacon));
    let header: u64 = rlp_list_len(payload);
    let transaction_list: u64 = rlp_list_len(transaction_list_payload(transactions));
    let withdrawal_list: u64 = rlp_list_len(withdrawal_list_payload(withdrawals));
    Ok(
        rlp_list_len(
            header.saturating_add(transaction_list).saturating_add(1).saturating_add(
                withdrawal_list,
            ),
        ),
    )
}

} // verus!
