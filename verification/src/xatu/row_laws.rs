//! What a gathered row takes from which column.

use crate::bytes::{array20, array32, be64, lemma_array32};
use crate::frame_view::{LogView, TransactionView};
use crate::primitives::Quantity;
use crate::request::LogField;
use crate::text::{hex_bytes, hex_value, is_hex};
use crate::xatu::columns::{
    big_endian, fixed_of, is_prefixed, variable_of, Cell, Column, ListValue, RowBatch,
};
use crate::xatu::error::DataProblem;
use crate::xatu::rows::{
    any_clash, gathered, gathered_unique, topics_at, BeaconBlocks, BeaconTransactions,
    ExecutionBlockView, ExecutionBlocks, ExecutionTransactionRow, ExecutionTransactions,
    GenericBeaconBlockRow, GenericBeaconBlocks, GenericExecutionBlockRow, GenericExecutionBlocks,
    GenericLogs, GenericTransactions, RowRules, SlotTransactionView, UniqueRules, Withdrawals,
};
use crate::xatu::sizes::{BeaconBlockRow, ExecutionBlockFork, WithdrawalRow};
use vstd::prelude::*;

verus! {

/// The column that is read under a name: the first that has it.
pub open spec fn is_column(batch: RowBatch, name: Seq<char>, at: int) -> bool {
    &&& 0 <= at < batch.columns@.len()
    &&& batch.columns@[at].name@ == name
    &&& forall|earlier: int| 0 <= earlier < at ==> (#[trigger] batch.columns@[earlier]).name@ != name
}

/// The column has this unsigned number in the row.
pub open spec fn says_number(batch: RowBatch, name: Seq<char>, row: usize, value: int) -> bool {
    exists|at: int| #[trigger]
        is_column(batch, name, at) && (batch.columns@[at].values matches Column::Unsigned(values) && (
        values@[row as int] matches Some(number) && number == value))
}

/// The column has this time in the row, in milliseconds.
pub open spec fn says_time(batch: RowBatch, name: Seq<char>, row: usize, value: int) -> bool {
    exists|at: int| #[trigger]
        is_column(batch, name, at) && (
        batch.columns@[at].values matches Column::TimestampMillisecond(values) && (
        values@[row as int] matches Some(number) && number == value))
}

/// The column has this truth value in the row.
pub open spec fn says_flag(batch: RowBatch, name: Seq<char>, row: usize, value: bool) -> bool {
    exists|at: int| #[trigger]
        is_column(batch, name, at) && (batch.columns@[at].values matches Column::Boolean(values)
            && values@[row as int] == Some(value))
}

/// The column has these bytes in the row.
pub open spec fn says_bytes(batch: RowBatch, name: Seq<char>, row: usize, value: Seq<u8>) -> bool {
    exists|at: int| #[trigger]
        is_column(batch, name, at) && (batch.columns@[at].values matches Column::Binary(values) && (
        values@[row as int] matches Some(bytes) && bytes@ == value))
}

/// The column has nothing in the row.
pub open spec fn says_nothing(batch: RowBatch, name: Seq<char>, row: usize) -> bool {
    exists|at: int| #[trigger]
        is_column(batch, name, at) && match batch.columns@[at].values {
            Column::Unsigned(values) => values@[row as int] is None,
            Column::TimestampMillisecond(values) => values@[row as int] is None,
            Column::Boolean(values) => values@[row as int] is None,
            Column::Binary(values) => values@[row as int] is None,
            Column::List(values) => values@[row as int] is None,
            Column::Other(values) => !values@[row as int],
        }
}

/// What a hexadecimal digit of either case stands for.
pub open spec fn nibble(digit: u8) -> int {
    if 0x30 <= digit <= 0x39 {
        digit - 0x30
    } else if 0x41 <= digit <= 0x46 {
        digit - 0x41 + 10
    } else if 0x61 <= digit <= 0x66 {
        digit - 0x61 + 10
    } else {
        -1
    }
}

/// The two digits stand for the byte.
pub open spec fn are_digits_of(high: u8, low: u8, byte: u8) -> bool {
    nibble(high) >= 0 && nibble(low) >= 0 && 16 * nibble(high) + nibble(low) == byte
}

/// The text is `0x` and then two hexadecimal digits for every byte.
pub open spec fn is_hex_of(text: Seq<u8>, bytes: Seq<u8>) -> bool {
    &&& text.len() == 2 * bytes.len() + 2
    &&& text[0] == 0x30
    &&& text[1] == 0x78
    &&& forall|k: int|
        0 <= k < bytes.len() ==> are_digits_of(
            text[2 * k + 2],
            text[2 * k + 3],
            #[trigger] bytes[k],
        )
}

/// The column has a value of fixed size in the row, as bytes or in digits.
pub open spec fn says_fixed(batch: RowBatch, name: Seq<char>, row: usize, value: Seq<u8>) -> bool {
    exists|raw: Seq<u8>| #[trigger]
        says_bytes(batch, name, row, raw) && (raw == value || is_hex_of(raw, value))
}

/// The column has a value of any size in the row: in digits if it starts with
/// `0x`, and as bytes otherwise.
pub open spec fn says_data(batch: RowBatch, name: Seq<char>, row: usize, value: Seq<u8>) -> bool {
    exists|raw: Seq<u8>| #[trigger]
        says_bytes(batch, name, row, raw) && if raw.len() >= 2 && raw[0] == 0x30 && raw[1]
            == 0x78 {
            is_hex_of(raw, value)
        } else {
            raw == value
        }
}

/// The column has this number of up to 32 bytes in the row, in little-endian
/// order.
pub open spec fn says_reversed(batch: RowBatch, name: Seq<char>, row: usize, value: Quantity) -> bool {
    exists|raw: Seq<u8>| #[trigger]
        says_bytes(batch, name, row, raw) && 1 <= raw.len() <= 32 && forall|k: int|
            0 <= k < 32 ==> #[trigger] value.0@[k] == if 31 - k < raw.len() {
                raw[31 - k]
            } else {
                0
            }
}

/// The column has this number in the row, as a number or in little-endian
/// order.
pub open spec fn says_quantity(batch: RowBatch, name: Seq<char>, row: usize, value: Quantity) -> bool {
    says_reversed(batch, name, row, value) || exists|number: u64| #[trigger]
        says_number(batch, name, row, number as int) && value.0@ == Seq::new(24, |k: int| 0u8)
            + seq![
            (number >> 56) as u8,
            (number >> 48) as u8,
            (number >> 40) as u8,
            (number >> 32) as u8,
            (number >> 24) as u8,
            (number >> 16) as u8,
            (number >> 8) as u8,
            number as u8,
        ]
}

proof fn lemma_column(batch: RowBatch, name: Seq<char>, from: int)
    requires
        0 <= from,
        forall|earlier: int|
            0 <= earlier < from && earlier < batch.columns@.len() ==> (
            #[trigger] batch.columns@[earlier]).name@ != name,
        batch.column_from(name, from) is Some,
    ensures
        is_column(batch, name, batch.column_from(name, from)->0),
    decreases batch.columns@.len() - from,
{
    if from < batch.columns@.len() && batch.columns@[from].name@ != name {
        lemma_column(batch, name, from + 1);
    }
}

proof fn lemma_number(batch: RowBatch, name: &'static str, row: usize)
    ensures
        batch.u64_at(name, row) matches Ok(value) ==> says_number(batch, name@, row, value as int),
        batch.u32_at(name, row) matches Ok(value) ==> says_number(batch, name@, row, value as int),
        batch.u8_at(name, row) matches Ok(value) ==> says_number(batch, name@, row, value as int),
        batch.optional_u64_at(name, row) matches Ok(Some(value)) ==> says_number(
            batch,
            name@,
            row,
            value as int,
        ),
        batch.optional_u64_at(name, row) == Ok::<Option<u64>, DataProblem>(None) ==> says_nothing(
            batch,
            name@,
            row,
        ),
{
    if batch.column_from(name@, 0) is Some {
        lemma_column(batch, name@, 0);
    }
}

proof fn lemma_time(batch: RowBatch, name: &'static str, row: usize)
    ensures
        batch.i64_at(name, row) matches Ok(value) ==> says_time(batch, name@, row, value as int),
{
    if batch.column_from(name@, 0) is Some {
        lemma_column(batch, name@, 0);
    }
}

proof fn lemma_flag(batch: RowBatch, name: &'static str, row: usize)
    ensures
        batch.bool_at(name, row) matches Ok(value) ==> says_flag(batch, name@, row, value),
{
    if batch.column_from(name@, 0) is Some {
        lemma_column(batch, name@, 0);
    }
}

proof fn lemma_bytes(batch: RowBatch, name: &'static str, row: usize)
    ensures
        batch.bytes_at(name, row) matches Ok(value) ==> says_bytes(batch, name@, row, value),
        batch.cell(name, row) matches Ok(Cell::Null) ==> says_nothing(batch, name@, row),
{
    if batch.column_from(name@, 0) is Some {
        lemma_column(batch, name@, 0);
    }
}

proof fn lemma_array32_of(bytes: Seq<u8>)
    requires
        bytes.len() == 32,
    ensures
        array32(bytes)@ == bytes,
{
    let array: [u8; 32] = [
        bytes[0], bytes[1], bytes[2], bytes[3], bytes[4], bytes[5], bytes[6], bytes[7],
        bytes[8], bytes[9], bytes[10], bytes[11], bytes[12], bytes[13], bytes[14], bytes[15],
        bytes[16], bytes[17], bytes[18], bytes[19], bytes[20], bytes[21], bytes[22], bytes[23],
        bytes[24], bytes[25], bytes[26], bytes[27], bytes[28], bytes[29], bytes[30], bytes[31],
    ];
    assert(array@ =~= bytes);
    lemma_array32(array);
}

proof fn lemma_array20_of(bytes: Seq<u8>)
    requires
        bytes.len() == 20,
    ensures
        array20(bytes)@ == bytes,
{
    let array: [u8; 20] = [
        bytes[0], bytes[1], bytes[2], bytes[3], bytes[4], bytes[5], bytes[6], bytes[7],
        bytes[8], bytes[9], bytes[10], bytes[11], bytes[12], bytes[13], bytes[14], bytes[15],
        bytes[16], bytes[17], bytes[18], bytes[19],
    ];
    assert(array@ =~= bytes);
    assert(exists|other: [u8; 20]| other@ == bytes);
}

proof fn lemma_digits(text: Seq<u8>)
    requires
        is_prefixed(text),
        is_hex(text.skip(2)),
    ensures
        is_hex_of(text, hex_bytes(text.skip(2))),
{
    let digits = text.skip(2);
    let bytes = hex_bytes(digits);
    assert forall|k: int| 0 <= k < bytes.len() implies are_digits_of(
        text[2 * k + 2],
        text[2 * k + 3],
        #[trigger] bytes[k],
    ) by {
        assert(digits[2 * k] == text[2 * k + 2]);
        assert(digits[2 * k + 1] == text[2 * k + 3]);
        assert(hex_value(digits[2 * k]) is Some);
        assert(hex_value(digits[2 * k + 1]) is Some);
    }
}

proof fn lemma_fixed(bytes: Seq<u8>, size: nat, name: &'static str, element: Option<usize>, row: usize)
    ensures
        fixed_of(bytes, size, name, element, row) matches Ok(value) ==> value.len() == size && (
        bytes == value || is_hex_of(bytes, value)),
{
    if is_prefixed(bytes) && is_hex(bytes.skip(2)) {
        lemma_digits(bytes);
    }
}

proof fn lemma_hash(batch: RowBatch, name: &'static str, row: usize)
    ensures
        batch.hash_at(name, row) matches Ok(value) ==> says_fixed(batch, name@, row, value.0@),
        batch.transaction_hash_at(name, row) matches Ok(value) ==> says_fixed(
            batch,
            name@,
            row,
            value.0@,
        ),
        batch.topic_at(name, row) matches Ok(value) ==> says_fixed(batch, name@, row, value@),
        batch.optional_topic_at(name, row) matches Ok(Some(value)) ==> says_fixed(
            batch,
            name@,
            row,
            value@,
        ),
        batch.optional_topic_at(name, row) == Ok::<Option<[u8; 32]>, DataProblem>(None)
            ==> says_nothing(batch, name@, row),
{
    lemma_bytes(batch, name, row);
    if let Ok(raw) = batch.bytes_at(name, row) {
        lemma_fixed(raw, 32, name, None, row);
        if let Ok(value) = fixed_of(raw, 32, name, None, row) {
            lemma_array32_of(value);
            assert(says_bytes(batch, name@, row, raw));
        }
    }
}

proof fn lemma_address(batch: RowBatch, name: &'static str, row: usize)
    ensures
        batch.address_at(name, row) matches Ok(value) ==> says_fixed(batch, name@, row, value.0@),
        batch.optional_address_at(name, row) matches Ok(Some(value)) ==> says_fixed(
            batch,
            name@,
            row,
            value.0@,
        ),
        batch.optional_address_at(name, row) matches Ok(None) ==> says_nothing(batch, name@, row),
{
    lemma_bytes(batch, name, row);
    if let Ok(raw) = batch.bytes_at(name, row) {
        lemma_fixed(raw, 20, name, None, row);
        if let Ok(value) = fixed_of(raw, 20, name, None, row) {
            lemma_array20_of(value);
            assert(says_bytes(batch, name@, row, raw));
        }
    }
}

proof fn lemma_variable(batch: RowBatch, name: &'static str, row: usize)
    ensures
        batch.bytes_at(name, row) matches Ok(raw) ==> (variable_of(raw, name, row) matches Ok(value)
            ==> says_data(batch, name@, row, value)),
        batch.optional_variable_at(name, row) matches Ok(Some(value)) ==> says_data(
            batch,
            name@,
            row,
            value,
        ),
        batch.optional_variable_at(name, row) matches Ok(None) ==> says_nothing(batch, name@, row),
{
    lemma_bytes(batch, name, row);
    if let Ok(raw) = batch.bytes_at(name, row) {
        assert(says_bytes(batch, name@, row, raw));
        if is_prefixed(raw) && is_hex(raw.skip(2)) {
            lemma_digits(raw);
        }
    }
}

proof fn lemma_quantity(batch: RowBatch, name: &'static str, row: usize)
    ensures
        batch.quantity_le_at(name, row) matches Ok(value) ==> says_reversed(
            batch,
            name@,
            row,
            value,
        ),
        batch.quantity_at(name, row) matches Ok(value) ==> says_quantity(batch, name@, row, value),
        batch.quantity_u64_at(name, row) matches Ok(value) ==> exists|quantity: Quantity| #[trigger]
            says_reversed(batch, name@, row, quantity) && quantity.0@ == Seq::new(24, |k: int| 0u8)
                + be64(value),
{
    lemma_bytes(batch, name, row);
    lemma_number(batch, name, row);
    if let Ok(raw) = batch.bytes_at(name, row) {
        if 1 <= raw.len() <= 32 {
            lemma_array32_of(big_endian(raw));
            let quantity = Quantity(array32(big_endian(raw)));
            assert(says_bytes(batch, name@, row, raw));
            assert(says_reversed(batch, name@, row, quantity));
            if let Ok(value) = batch.quantity_u64_at(name, row) {
                crate::bytes::lemma_be64_of_bytes(quantity.0@.subrange(24, 32));
                assert(quantity.0@ =~= Seq::new(24, |k: int| 0u8) + be64(value));
            }
        }
    }
    if let Ok(Cell::Unsigned(number)) = batch.cell(name, row) {
        lemma_array32_of(Seq::new(24, |k: int| 0u8) + be64(number));
        assert(batch.u64_at(name, row) == Ok::<u64, DataProblem>(number));
        assert(says_number(batch, name@, row, number as int));
    }
}

/// The topics of a log are the longest run of values among its four topic
/// columns: the one at `k` is what column `topic` with the digit `k` has, and
/// if there are fewer than four the next column has nothing.
pub proof fn law_topics_are_the_run_of_topic_columns(batch: RowBatch, row: usize, topics: Seq<[u8; 32]>)
    requires
        topics_at(batch, row) == Ok::<Seq<[u8; 32]>, DataProblem>(topics),
    ensures
        1 <= topics.len() <= 4,
        says_fixed(batch, "topic0"@, row, topics[0]@),
        topics.len() > 1 ==> says_fixed(batch, "topic1"@, row, topics[1]@),
        topics.len() > 2 ==> says_fixed(batch, "topic2"@, row, topics[2]@),
        topics.len() > 3 ==> says_fixed(batch, "topic3"@, row, topics[3]@),
        topics.len() == 1 ==> says_nothing(batch, "topic1"@, row),
        topics.len() == 2 ==> says_nothing(batch, "topic2"@, row),
        topics.len() == 3 ==> says_nothing(batch, "topic3"@, row),
{
    lemma_hash(batch, "topic0", row);
    lemma_hash(batch, "topic1", row);
    lemma_hash(batch, "topic2", row);
    lemma_hash(batch, "topic3", row);
}

/// A log that is gathered is of the range, of an address, of a transaction and
/// with topics that the filter accepts, and it is what its row tells.
pub proof fn law_gathered_logs_are_selected_rows<'a>(
    reader: GenericLogs<'a>,
    batch: RowBatch,
    row: usize,
    number: u64,
    log: LogView,
)
    requires
        reader.row_at(batch, row) == Ok::<Option<(u64, LogView)>, DataProblem>(Some((number, log))),
    ensures
        reader.range.start.0 <= number <= reader.range.end.0,
        says_number(batch, "block_number"@, row, number as int),
        says_fixed(batch, "address"@, row, log.address.0@),
        reader.filters.scope.addresses@.len() > 0 ==> reader.filters.scope.addresses@.contains(
            log.address,
        ),
        log.transaction_hash matches Some(hash) ==> says_fixed(
            batch,
            "transaction_hash"@,
            row,
            hash.0@,
        ),
        log.transaction_hash is Some <==> (reader.log_fields.has(LogField::TransactionHash)
            || reader.filters.scope.transaction_hashes@.len() > 0),
        reader.filters.scope.transaction_hashes@.len() > 0
            ==> reader.filters.scope.transaction_hashes@.contains(log.transaction_hash->0),
        1 <= log.topics.len() <= 4,
        says_fixed(batch, "topic0"@, row, log.topics[0]@),
        log.topics.len() > 1 ==> says_fixed(batch, "topic1"@, row, log.topics[1]@),
        log.topics.len() > 2 ==> says_fixed(batch, "topic2"@, row, log.topics[2]@),
        log.topics.len() > 3 ==> says_fixed(batch, "topic3"@, row, log.topics[3]@),
        log.topics.len() == 1 ==> says_nothing(batch, "topic1"@, row),
        log.topics.len() == 2 ==> says_nothing(batch, "topic2"@, row),
        log.topics.len() == 3 ==> says_nothing(batch, "topic3"@, row),
        forall|f: int|
            0 <= f < reader.filters.scope.topics@.len() ==> {
                let filter = #[trigger] reader.filters.scope.topics@[f];
                filter.position < log.topics.len() && filter.alternatives@.contains(
                    log.topics[filter.position as int],
                )
            },
        says_data(batch, "data"@, row, log.data) || (says_nothing(batch, "data"@, row)
            && log.data.len() == 0),
        says_number(batch, "transaction_index"@, row, log.transaction_index as int),
        says_number(batch, "log_index"@, row, log.log_index as int),
{
    lemma_number(batch, "block_number", row);
    lemma_address(batch, "address", row);
    lemma_hash(batch, "transaction_hash", row);
    law_topics_are_the_run_of_topic_columns(batch, row, log.topics);
    lemma_variable(batch, "data", row);
    lemma_number(batch, "transaction_index", row);
    lemma_number(batch, "log_index", row);
    assert forall|f: int| 0 <= f < reader.filters.scope.topics@.len() implies {
        let filter = #[trigger] reader.filters.scope.topics@[f];
        filter.position < log.topics.len() && filter.alternatives@.contains(
            log.topics[filter.position as int],
        )
    } by {
        assert(crate::xatu::rows::topic_matches(reader.filters.scope.topics@[f], log.topics));
    }
}

/// A log row is passed over only if the filter turns it away: it is of a block
/// outside the range, or of an address, a transaction or with topics that the
/// filter does not name.
pub proof fn law_other_logs_are_turned_away<'a>(reader: GenericLogs<'a>, batch: RowBatch, row: usize)
    requires
        reader.row_at(batch, row) == Ok::<Option<(u64, LogView)>, DataProblem>(None),
    ensures
        ({
            ||| exists|number: u64| #[trigger]
                says_number(batch, "block_number"@, row, number as int) && !(reader.range.start.0
                    <= number <= reader.range.end.0)
            ||| reader.filters.scope.addresses@.len() > 0 && exists|address: crate::primitives::Address|
                says_fixed(batch, "address"@, row, #[trigger] address.0@)
                    && !reader.filters.scope.addresses@.contains(address)
            ||| reader.filters.scope.transaction_hashes@.len() > 0 && exists|
                hash: crate::primitives::TransactionHash,
            |
                says_fixed(batch, "transaction_hash"@, row, #[trigger] hash.0@)
                    && !reader.filters.scope.transaction_hashes@.contains(hash)
            ||| topics_at(batch, row) matches Ok(topics) && exists|f: int|
                0 <= f < reader.filters.scope.topics@.len() && {
                    let filter = #[trigger] reader.filters.scope.topics@[f];
                    filter.position >= topics.len() || !filter.alternatives@.contains(
                        topics[filter.position as int],
                    )
                }
        }),
{
    lemma_number(batch, "block_number", row);
    lemma_address(batch, "address", row);
    lemma_hash(batch, "transaction_hash", row);
    let number = batch.u64_at("block_number", row)->Ok_0;
    if !(reader.range.start.0 <= number <= reader.range.end.0) {
        assert(says_number(batch, "block_number"@, row, number as int));
    } else {
        let address = batch.address_at("address", row)->Ok_0;
        if reader.filters.scope.addresses@.len() > 0 && !reader.filters.scope.addresses@.contains(
            address,
        ) {
            assert(says_fixed(batch, "address"@, row, address.0@));
        } else {
            let hash = batch.transaction_hash_at("transaction_hash", row)->Ok_0;
            if reader.filters.scope.transaction_hashes@.len() > 0
                && !reader.filters.scope.transaction_hashes@.contains(hash) {
                assert(says_fixed(batch, "transaction_hash"@, row, hash.0@));
            } else {
                let topics = topics_at(batch, row)->Ok_0;
                let f = choose|f: int|
                    0 <= f < reader.filters.scope.topics@.len()
                        && !crate::xatu::rows::topic_matches(
                        #[trigger] reader.filters.scope.topics@[f],
                        topics,
                    );
                let filter = reader.filters.scope.topics@[f];
                assert(filter.position >= topics.len() || !filter.alternatives@.contains(
                    topics[filter.position as int],
                ));
            }
        }
    }
}

/// A transaction that is gathered is of the range and of a type, a hash, a
/// sender and a recipient that the filter accepts, and it is what its row
/// tells. Senders and recipients of the filter itself count before those of
/// its scope.
pub proof fn law_gathered_transactions_are_selected_rows<'a>(
    reader: GenericTransactions<'a>,
    batch: RowBatch,
    row: usize,
    number: u64,
    transaction: TransactionView,
)
    requires
        reader.row_at(batch, row) == Ok::<Option<(u64, TransactionView)>, DataProblem>(
            Some((number, transaction)),
        ),
    ensures
        reader.range.start.0 <= number <= reader.range.end.0,
        says_number(batch, "block_number"@, row, number as int),
        says_number(batch, "transaction_type"@, row, transaction.transaction_type as int),
        says_fixed(batch, "transaction_hash"@, row, transaction.hash.0@),
        transaction.from matches Some(from) && says_fixed(batch, "from_address"@, row, from.0@),
        match transaction.to {
            Some(to) => says_fixed(batch, "to_address"@, row, to.0@),
            None => says_nothing(batch, "to_address"@, row),
        },
        says_number(batch, "transaction_index"@, row, transaction.index as int),
        transaction.nonce matches Some(nonce) && says_number(batch, "nonce"@, row, nonce as int),
        transaction.gas_limit matches Some(limit) && says_number(
            batch,
            "gas_limit"@,
            row,
            limit as int,
        ),
        transaction.value matches Some(value) && says_quantity(batch, "value"@, row, value),
        match transaction.input {
            Some(input) => says_data(batch, "input"@, row, input),
            None => says_nothing(batch, "input"@, row),
        },
        transaction.encoded is None,
        transaction.max_fee_per_gas is None,
        transaction.max_priority_fee_per_gas is None,
        transaction.max_fee_per_blob_gas is None,
        transaction.blob_versioned_hashes.len() == 0,
        transaction.size_bytes is None,
        reader.filters.scope.transaction_types@.len() > 0
            ==> reader.filters.scope.transaction_types@.contains(transaction.transaction_type),
        reader.filters.scope.transaction_hashes@.len() > 0
            ==> reader.filters.scope.transaction_hashes@.contains(transaction.hash),
        reader.filters.senders@.len() > 0 ==> reader.filters.senders@.contains(
            transaction.from->0,
        ),
        reader.filters.senders@.len() == 0 && reader.filters.scope.senders@.len() > 0
            ==> reader.filters.scope.senders@.contains(transaction.from->0),
        reader.filters.recipients@.len() > 0 ==> transaction.to is Some
            && reader.filters.recipients@.contains(transaction.to->0),
        reader.filters.recipients@.len() == 0 && reader.filters.scope.recipients@.len() > 0
            ==> transaction.to is Some && reader.filters.scope.recipients@.contains(
            transaction.to->0,
        ),
{
    lemma_number(batch, "block_number", row);
    lemma_number(batch, "transaction_type", row);
    lemma_hash(batch, "transaction_hash", row);
    lemma_address(batch, "from_address", row);
    lemma_address(batch, "to_address", row);
    lemma_number(batch, "transaction_index", row);
    lemma_number(batch, "nonce", row);
    lemma_number(batch, "gas_limit", row);
    lemma_quantity(batch, "value", row);
    lemma_variable(batch, "input", row);
}

/// A transaction row is passed over only if the filter turns it away.
pub proof fn law_other_transactions_are_turned_away<'a>(
    reader: GenericTransactions<'a>,
    batch: RowBatch,
    row: usize,
)
    requires
        reader.row_at(batch, row) == Ok::<Option<(u64, TransactionView)>, DataProblem>(None),
    ensures
        ({
            let filters = reader.filters;
            ||| exists|number: u64| #[trigger]
                says_number(batch, "block_number"@, row, number as int) && !(reader.range.start.0
                    <= number <= reader.range.end.0)
            ||| filters.scope.transaction_types@.len() > 0 && exists|kind: u8| #[trigger]
                says_number(batch, "transaction_type"@, row, kind as int)
                    && !filters.scope.transaction_types@.contains(kind)
            ||| filters.scope.transaction_hashes@.len() > 0 && exists|
                hash: crate::primitives::TransactionHash,
            |
                says_fixed(batch, "transaction_hash"@, row, #[trigger] hash.0@)
                    && !filters.scope.transaction_hashes@.contains(hash)
            ||| exists|from: crate::primitives::Address|
                says_fixed(batch, "from_address"@, row, #[trigger] from.0@) && if filters.senders@.len()
                    > 0 {
                    !filters.senders@.contains(from)
                } else {
                    filters.scope.senders@.len() > 0 && !filters.scope.senders@.contains(from)
                }
            ||| says_nothing(batch, "to_address"@, row) && (filters.recipients@.len() > 0
                || filters.scope.recipients@.len() > 0)
            ||| exists|to: crate::primitives::Address|
                says_fixed(batch, "to_address"@, row, #[trigger] to.0@) && if filters.recipients@.len()
                    > 0 {
                    !filters.recipients@.contains(to)
                } else {
                    filters.scope.recipients@.len() > 0 && !filters.scope.recipients@.contains(to)
                }
        }),
{
    lemma_number(batch, "block_number", row);
    lemma_number(batch, "transaction_type", row);
    lemma_hash(batch, "transaction_hash", row);
    lemma_address(batch, "from_address", row);
    lemma_address(batch, "to_address", row);
    let number = batch.u64_at("block_number", row)->Ok_0;
    if reader.range.start.0 <= number <= reader.range.end.0 {
        let kind = batch.u8_at("transaction_type", row)->Ok_0;
        assert(says_number(batch, "transaction_type"@, row, kind as int));
        let types = reader.filters.scope.transaction_types@;
        if !(types.len() > 0 && !types.contains(kind)) {
            let hash = batch.transaction_hash_at("transaction_hash", row)->Ok_0;
            assert(says_fixed(batch, "transaction_hash"@, row, hash.0@));
            let hashes = reader.filters.scope.transaction_hashes@;
            if !(hashes.len() > 0 && !hashes.contains(hash)) {
                let from = batch.address_at("from_address", row)->Ok_0;
                assert(says_fixed(batch, "from_address"@, row, from.0@));
                if let Some(to) = batch.optional_address_at("to_address", row)->Ok_0 {
                    assert(says_fixed(batch, "to_address"@, row, to.0@));
                }
            }
        }
    } else {
        assert(says_number(batch, "block_number"@, row, number as int));
    }
}

/// The identity of an execution block is what its row tells, with the time in
/// whole seconds. Only blocks outside the range are passed over.
pub proof fn law_generic_execution_blocks_are_rows(
    reader: GenericExecutionBlocks,
    batch: RowBatch,
    row: usize,
    read: Option<GenericExecutionBlockRow>,
)
    requires
        reader.row_at(batch, row) == Ok::<Option<GenericExecutionBlockRow>, DataProblem>(read),
    ensures
        match read {
            Some(block) => {
                &&& reader.range.start.0 <= block.number <= reader.range.end.0
                &&& says_number(batch, "block_number"@, row, block.number as int)
                &&& says_fixed(batch, "block_hash"@, row, block.hash.0@)
                &&& exists|time: int| #[trigger]
                    says_time(batch, "block_date_time"@, row, time) && 1000 * block.timestamp
                        <= time < 1000 * block.timestamp + 1000
            },
            None => exists|number: u64| #[trigger]
                says_number(batch, "block_number"@, row, number as int) && !(reader.range.start.0
                    <= number <= reader.range.end.0),
        },
{
    lemma_number(batch, "block_number", row);
    lemma_hash(batch, "block_hash", row);
    lemma_time(batch, "block_date_time", row);
    if read is Some {
        let time = batch.i64_at("block_date_time", row)->Ok_0 as int;
        assert(says_time(batch, "block_date_time"@, row, time));
    } else {
        let number = batch.u64_at("block_number", row)->Ok_0;
        assert(says_number(batch, "block_number"@, row, number as int));
    }
}

/// An execution block is what its row tells, with the time in whole seconds.
/// Only blocks outside the range are passed over.
pub proof fn law_execution_blocks_are_rows(
    reader: ExecutionBlocks,
    batch: RowBatch,
    row: usize,
    read: Option<ExecutionBlockView>,
)
    requires
        reader.row_at(batch, row) == Ok::<Option<ExecutionBlockView>, DataProblem>(read),
    ensures
        match read {
            Some(block) => {
                &&& reader.range.start.0 <= block.number <= reader.range.end.0
                &&& says_number(batch, "block_number"@, row, block.number as int)
                &&& says_fixed(batch, "block_hash"@, row, block.hash.0@)
                &&& exists|time: int| #[trigger]
                    says_time(batch, "block_date_time"@, row, time) && 1000 * block.timestamp
                        <= time < 1000 * block.timestamp + 1000
                &&& says_number(batch, "gas_used"@, row, block.gas_used as int)
                &&& says_data(batch, "extra_data"@, row, block.extra_data)
                &&& says_number(batch, "base_fee_per_gas"@, row, block.base_fee_per_gas as int)
            },
            None => exists|number: u64| #[trigger]
                says_number(batch, "block_number"@, row, number as int) && !(reader.range.start.0
                    <= number <= reader.range.end.0),
        },
{
    lemma_number(batch, "block_number", row);
    lemma_hash(batch, "block_hash", row);
    lemma_time(batch, "block_date_time", row);
    lemma_number(batch, "gas_used", row);
    lemma_variable(batch, "extra_data", row);
    lemma_number(batch, "base_fee_per_gas", row);
    if read is Some {
        let time = batch.i64_at("block_date_time", row)->Ok_0 as int;
        assert(says_time(batch, "block_date_time"@, row, time));
    } else {
        let number = batch.u64_at("block_number", row)->Ok_0;
        assert(says_number(batch, "block_number"@, row, number as int));
    }
}

/// The identity of a beacon block's payload is what its row tells. Only rows
/// without a payload and blocks outside the range are passed over.
pub proof fn law_generic_beacon_blocks_are_rows(
    reader: GenericBeaconBlocks,
    batch: RowBatch,
    row: usize,
    read: Option<GenericBeaconBlockRow>,
)
    requires
        reader.row_at(batch, row) == Ok::<Option<GenericBeaconBlockRow>, DataProblem>(read),
    ensures
        match read {
            Some(block) => {
                &&& reader.range.start.0 <= block.number <= reader.range.end.0
                &&& says_number(
                    batch,
                    "execution_payload_block_number"@,
                    row,
                    block.number as int,
                )
                &&& says_fixed(batch, "execution_payload_block_hash"@, row, block.hash.0@)
                &&& says_fixed(batch, "execution_payload_parent_hash"@, row, block.parent_hash.0@)
                &&& says_number(batch, "slot_start_date_time"@, row, block.timestamp as int)
                &&& says_number(
                    batch,
                    "execution_payload_transactions_count"@,
                    row,
                    block.transaction_count as int,
                )
            },
            None => says_nothing(batch, "execution_payload_block_number"@, row) || exists|number: u64|
                #[trigger]
                says_number(batch, "execution_payload_block_number"@, row, number as int) && !(
                reader.range.start.0 <= number <= reader.range.end.0),
        },
{
    lemma_number(batch, "execution_payload_block_number", row);
    lemma_hash(batch, "execution_payload_block_hash", row);
    lemma_hash(batch, "execution_payload_parent_hash", row);
    lemma_number(batch, "slot_start_date_time", row);
    lemma_number(batch, "execution_payload_transactions_count", row);
    if let Some(number) = batch.optional_u64_at("execution_payload_block_number", row)->Ok_0 {
        assert(says_number(batch, "execution_payload_block_number"@, row, number as int));
    }
}

/// A beacon block with its payload is what its row tells. Only rows without a
/// payload and blocks outside the range are passed over, and only versions
/// whose size rules are known are read.
pub proof fn law_beacon_blocks_are_rows(
    reader: BeaconBlocks,
    batch: RowBatch,
    row: usize,
    read: Option<BeaconBlockRow>,
)
    requires
        reader.row_at(batch, row) == Ok::<Option<BeaconBlockRow>, DataProblem>(read),
    ensures
        match read {
            Some(block) => {
                &&& reader.range.start.0 <= block.number <= reader.range.end.0
                &&& says_number(
                    batch,
                    "execution_payload_block_number"@,
                    row,
                    block.number as int,
                )
                &&& says_number(batch, "slot"@, row, block.slot as int)
                &&& says_fixed(batch, "execution_payload_block_hash"@, row, block.hash.0@)
                &&& says_fixed(batch, "execution_payload_parent_hash"@, row, block.parent_hash.0@)
                &&& says_number(batch, "slot_start_date_time"@, row, block.timestamp as int)
                &&& says_number(
                    batch,
                    "block_total_bytes"@,
                    row,
                    block.consensus_size_bytes as int,
                )
                &&& says_reversed(
                    batch,
                    "execution_payload_base_fee_per_gas"@,
                    row,
                    block.base_fee_per_gas,
                )
                &&& says_number(
                    batch,
                    "execution_payload_blob_gas_used"@,
                    row,
                    block.blob_gas_used as int,
                )
                &&& says_number(
                    batch,
                    "execution_payload_excess_blob_gas"@,
                    row,
                    block.excess_blob_gas as int,
                )
                &&& says_number(
                    batch,
                    "execution_payload_gas_limit"@,
                    row,
                    block.gas_limit as int,
                )
                &&& says_number(batch, "execution_payload_gas_used"@, row, block.gas_used as int)
                &&& says_number(
                    batch,
                    "execution_payload_transactions_count"@,
                    row,
                    block.transaction_count as int,
                )
                &&& says_number(
                    batch,
                    "execution_payload_transactions_total_bytes"@,
                    row,
                    block.transactions_total_bytes as int,
                )
                &&& match block.fork {
                    ExecutionBlockFork::Cancun => says_bytes(
                        batch,
                        "block_version"@,
                        row,
                        seq![0x64u8, 0x65u8, 0x6eu8, 0x65u8, 0x62u8],
                    ),
                    ExecutionBlockFork::Prague => says_bytes(
                        batch,
                        "block_version"@,
                        row,
                        seq![0x65u8, 0x6cu8, 0x65u8, 0x63u8, 0x74u8, 0x72u8, 0x61u8],
                    ) || says_bytes(
                        batch,
                        "block_version"@,
                        row,
                        seq![0x66u8, 0x75u8, 0x6cu8, 0x75u8],
                    ),
                }
            },
            None => says_nothing(batch, "execution_payload_block_number"@, row) || exists|number: u64|
                #[trigger]
                says_number(batch, "execution_payload_block_number"@, row, number as int) && !(
                reader.range.start.0 <= number <= reader.range.end.0),
        },
{
    lemma_number(batch, "execution_payload_block_number", row);
    lemma_number(batch, "slot", row);
    lemma_hash(batch, "execution_payload_block_hash", row);
    lemma_hash(batch, "execution_payload_parent_hash", row);
    lemma_number(batch, "slot_start_date_time", row);
    lemma_number(batch, "block_total_bytes", row);
    lemma_quantity(batch, "execution_payload_base_fee_per_gas", row);
    lemma_number(batch, "execution_payload_blob_gas_used", row);
    lemma_number(batch, "execution_payload_excess_blob_gas", row);
    lemma_number(batch, "execution_payload_gas_limit", row);
    lemma_number(batch, "execution_payload_gas_used", row);
    lemma_number(batch, "execution_payload_transactions_count", row);
    lemma_number(batch, "execution_payload_transactions_total_bytes", row);
    lemma_bytes(batch, "block_version", row);
    if let Some(number) = batch.optional_u64_at("execution_payload_block_number", row)->Ok_0 {
        assert(says_number(batch, "execution_payload_block_number"@, row, number as int));
    }
}

/// A withdrawal is what its row tells. Only those of other slots are passed
/// over.
pub proof fn law_withdrawals_are_rows(
    reader: Withdrawals,
    batch: RowBatch,
    row: usize,
    read: Option<(u64, WithdrawalRow)>,
)
    requires
        reader.row_at(batch, row) == Ok::<Option<(u64, WithdrawalRow)>, DataProblem>(read),
    ensures
        match read {
            Some((slot, withdrawal)) => {
                &&& reader.slots@.contains(slot)
                &&& says_number(batch, "slot"@, row, slot as int)
                &&& says_number(batch, "withdrawal_index"@, row, withdrawal.index as int)
                &&& says_number(
                    batch,
                    "withdrawal_validator_index"@,
                    row,
                    withdrawal.validator_index as int,
                )
                &&& says_fixed(batch, "withdrawal_address"@, row, withdrawal.address.0@)
                &&& exists|quantity: Quantity| #[trigger]
                    says_reversed(batch, "withdrawal_amount"@, row, quantity) && quantity.0@
                        == Seq::new(24, |k: int| 0u8) + be64(withdrawal.amount_gwei)
            },
            None => exists|slot: u64| #[trigger]
                says_number(batch, "slot"@, row, slot as int) && !reader.slots@.contains(slot),
        },
{
    lemma_number(batch, "slot", row);
    lemma_number(batch, "withdrawal_index", row);
    lemma_number(batch, "withdrawal_validator_index", row);
    lemma_address(batch, "withdrawal_address", row);
    lemma_quantity(batch, "withdrawal_amount", row);
    let slot = batch.u64_at("slot", row)->Ok_0;
    assert(says_number(batch, "slot"@, row, slot as int));
}

/// What the execution table tells of a blob transaction is what its row tells.
/// Only blocks outside the range and other types are passed over.
pub proof fn law_execution_transactions_are_rows(
    reader: ExecutionTransactions,
    batch: RowBatch,
    row: usize,
    read: Option<ExecutionTransactionRow>,
)
    requires
        reader.row_at(batch, row) == Ok::<Option<ExecutionTransactionRow>, DataProblem>(read),
    ensures
        match read {
            Some(told) => {
                &&& reader.range.start.0 <= told.block_number <= reader.range.end.0
                &&& says_number(batch, "block_number"@, row, told.block_number as int)
                &&& says_number(batch, "transaction_type"@, row, 3)
                &&& says_fixed(batch, "transaction_hash"@, row, told.hash.0@)
                &&& says_number(batch, "transaction_index"@, row, told.index as int)
                &&& says_number(batch, "gas_used"@, row, told.gas_used as int)
                &&& says_quantity(batch, "gas_price"@, row, told.gas_price)
                &&& says_flag(batch, "success"@, row, told.success)
            },
            None => (exists|number: u64| #[trigger]
                says_number(batch, "block_number"@, row, number as int) && !(reader.range.start.0
                    <= number <= reader.range.end.0)) || exists|kind: u64| #[trigger]
                says_number(batch, "transaction_type"@, row, kind as int) && kind != 3,
        },
{
    lemma_number(batch, "block_number", row);
    lemma_number(batch, "transaction_type", row);
    lemma_hash(batch, "transaction_hash", row);
    lemma_number(batch, "transaction_index", row);
    lemma_number(batch, "gas_used", row);
    lemma_quantity(batch, "gas_price", row);
    lemma_flag(batch, "success", row);
    let number = batch.u64_at("block_number", row)->Ok_0;
    assert(says_number(batch, "block_number"@, row, number as int));
    if reader.range.start.0 <= number <= reader.range.end.0 {
        let kind = batch.u64_at("transaction_type", row)->Ok_0;
        assert(says_number(batch, "transaction_type"@, row, kind as int));
    }
}

proof fn lemma_hashes(elements: Seq<ListValue>, count: int, name: &'static str, row: usize, k: int)
    requires
        0 <= k < count <= elements.len(),
        RowBatch::hashes_of(elements, count, name, row) is Ok,
    ensures
        ({
            let hashes = RowBatch::hashes_of(elements, count, name, row)->Ok_0;
            &&& hashes.len() == count
            &&& elements[k] matches ListValue::Binary(raw) && (raw@ == hashes[k].0@ || is_hex_of(
                raw@,
                hashes[k].0@,
            ))
        }),
    decreases count,
{
    if let ListValue::Binary(raw) = elements[count - 1] {
        lemma_fixed(raw@, 32, name, Some((count - 1) as usize), row);
        if let Ok(value) = fixed_of(raw@, 32, name, Some((count - 1) as usize), row) {
            lemma_array32_of(value);
        }
    }
    if k < count - 1 {
        lemma_hashes(elements, count - 1, name, row, k);
    } else if count > 1 {
        lemma_hashes(elements, count - 1, name, row, 0);
    }
}

/// A transaction of a slot is what its row tells. A blob transaction has at
/// least one blob hash, and its hashes are the elements of its row's list, in
/// order. Only those of other slots are passed over.
pub proof fn law_slot_transactions_are_rows(
    reader: BeaconTransactions,
    batch: RowBatch,
    row: usize,
    read: Option<SlotTransactionView>,
)
    requires
        reader.row_at(batch, row) == Ok::<Option<SlotTransactionView>, DataProblem>(read),
    ensures
        match read {
            Some(entry) => {
                &&& reader.slots@.contains(entry.slot)
                &&& says_number(batch, "slot"@, row, entry.slot as int)
                &&& says_number(batch, "type"@, row, entry.size.transaction_type as int)
                &&& says_number(batch, "size"@, row, entry.size.size_bytes as int)
                &&& entry.blob is Some <==> entry.size.transaction_type == 3
                &&& entry.blob matches Some(blob) ==> {
                    &&& says_number(batch, "position"@, row, blob.index as int)
                    &&& says_fixed(batch, "hash"@, row, blob.hash.0@)
                    &&& says_fixed(batch, "from"@, row, blob.from.0@)
                    &&& match blob.to {
                        Some(to) => says_fixed(batch, "to"@, row, to.0@),
                        None => says_nothing(batch, "to"@, row),
                    }
                    &&& says_number(batch, "gas"@, row, blob.gas_limit as int)
                    &&& says_number(batch, "blob_gas"@, row, blob.blob_gas as int)
                    &&& blob.size_bytes == entry.size.size_bytes
                    &&& says_reversed(
                        batch,
                        "blob_gas_fee_cap"@,
                        row,
                        blob.max_fee_per_blob_gas,
                    )
                    &&& blob.blob_hashes.len() > 0
                    &&& exists|at: int| #[trigger]
                        is_column(batch, "blob_hashes"@, at) && (
                        batch.columns@[at].values matches Column::List(lists) && (
                        lists@[row as int] matches Some(list) && list@.len()
                            == blob.blob_hashes.len() && forall|k: int|
                            0 <= k < list@.len() ==> (#[trigger] list@[k] matches ListValue::Binary(
                                raw,
                            ) && (raw@ == blob.blob_hashes[k].0@ || is_hex_of(
                                raw@,
                                blob.blob_hashes[k].0@,
                            )))))
                }
            },
            None => exists|slot: u64| #[trigger]
                says_number(batch, "slot"@, row, slot as int) && !reader.slots@.contains(slot),
        },
{
    lemma_number(batch, "slot", row);
    lemma_number(batch, "type", row);
    lemma_number(batch, "size", row);
    lemma_number(batch, "position", row);
    lemma_hash(batch, "hash", row);
    lemma_address(batch, "from", row);
    lemma_address(batch, "to", row);
    lemma_number(batch, "gas", row);
    lemma_number(batch, "blob_gas", row);
    lemma_quantity(batch, "blob_gas_fee_cap", row);
    let slot = batch.u64_at("slot", row)->Ok_0;
    assert(says_number(batch, "slot"@, row, slot as int));
    if let Some(entry) = read {
        if let Some(blob) = entry.blob {
            lemma_column(batch, "blob_hashes"@, 0);
            let at = batch.column_from("blob_hashes"@, 0)->0;
            assert(is_column(batch, "blob_hashes"@, at));
            if let Column::List(lists) = batch.columns@[at].values {
                if let Some(list) = lists@[row as int] {
                    if list@.len() > 0 {
                        lemma_hashes(list@, list@.len() as int, "blob_hashes", row, 0);
                    }
                    assert forall|k: int| 0 <= k < list@.len() implies (
                    #[trigger] list@[k] matches ListValue::Binary(raw) && (raw@
                        == blob.blob_hashes[k].0@ || is_hex_of(raw@, blob.blob_hashes[k].0@))) by {
                        lemma_hashes(list@, list@.len() as int, "blob_hashes", row, k);
                    }
                }
            }
        }
    }
}

/// Gathering keeps what was held, and adds what the rows of the batch give, in
/// their order: each row that gives something, once, unless some row cannot be
/// read.
pub proof fn law_gathering_adds_the_rows_in_order<R: RowRules>(
    reader: R,
    batch: RowBatch,
    held: Seq<<R::Row as View>::V>,
) -> (sources: Seq<int>)
    ensures
        ({
            let (rows, problem) = gathered(reader, batch, 0, held);
            &&& rows.len() == held.len() + sources.len()
            &&& forall|i: int| 0 <= i < held.len() ==> #[trigger] rows[i] == held[i]
            &&& forall|k: int|
                0 <= k < sources.len() ==> 0 <= #[trigger] sources[k] < batch.rows
                    && reader.row_at(batch, sources[k] as usize) == Ok::<
                    Option<<R::Row as View>::V>,
                    DataProblem,
                >(Some(rows[held.len() + k]))
            &&& forall|j: int, k: int|
                #![trigger sources[j], sources[k]]
                0 <= j < k < sources.len() ==> sources[j] < sources[k]
            &&& problem is None ==> forall|row: int|
                0 <= row < batch.rows ==> (#[trigger] reader.row_at(batch, row as usize) is Ok
                    && (reader.row_at(batch, row as usize)->Ok_0 is Some ==> sources.contains(row)))
            &&& problem matches Some(problem) ==> exists|row: int|
                0 <= row < batch.rows && #[trigger] reader.row_at(batch, row as usize) == Err::<
                    Option<<R::Row as View>::V>,
                    DataProblem,
                >(problem)
        }),
{
    lemma_gathered(reader, batch, 0, held)
}

proof fn lemma_gathered<R: RowRules>(
    reader: R,
    batch: RowBatch,
    from: int,
    held: Seq<<R::Row as View>::V>,
) -> (sources: Seq<int>)
    requires
        0 <= from,
    ensures
        ({
            let (rows, problem) = gathered(reader, batch, from, held);
            &&& rows.len() == held.len() + sources.len()
            &&& forall|i: int| 0 <= i < held.len() ==> #[trigger] rows[i] == held[i]
            &&& forall|k: int|
                0 <= k < sources.len() ==> from <= #[trigger] sources[k] < batch.rows
                    && reader.row_at(batch, sources[k] as usize) == Ok::<
                    Option<<R::Row as View>::V>,
                    DataProblem,
                >(Some(rows[held.len() + k]))
            &&& forall|j: int, k: int|
                #![trigger sources[j], sources[k]]
                0 <= j < k < sources.len() ==> sources[j] < sources[k]
            &&& problem is None ==> forall|row: int|
                from <= row < batch.rows ==> (#[trigger] reader.row_at(batch, row as usize) is Ok
                    && (reader.row_at(batch, row as usize)->Ok_0 is Some ==> sources.contains(row)))
            &&& problem matches Some(problem) ==> exists|row: int|
                from <= row < batch.rows && #[trigger] reader.row_at(batch, row as usize) == Err::<
                    Option<<R::Row as View>::V>,
                    DataProblem,
                >(problem)
        }),
    decreases batch.rows - from,
{
    let (rows, problem) = gathered(reader, batch, from, held);
    if from >= batch.rows {
        Seq::empty()
    } else {
        match reader.row_at(batch, from as usize) {
            Ok(Some(row)) => {
                let longer = held.push(row);
                let later = lemma_gathered(reader, batch, from + 1, longer);
                let sources = seq![from] + later;
                assert forall|i: int| 0 <= i < held.len() implies #[trigger] rows[i]
                    == held[i] by {
                    assert(rows[i] == longer[i]);
                }
                assert(rows[held.len() as int] == longer[held.len() as int]);
                assert forall|k: int| 0 <= k < sources.len() implies from <= #[trigger] sources[k]
                    < batch.rows && reader.row_at(batch, sources[k] as usize) == Ok::<
                    Option<<R::Row as View>::V>,
                    DataProblem,
                >(Some(rows[held.len() + k])) by {
                    if k > 0 {
                        assert(sources[k] == later[k - 1]);
                    }
                }
                assert forall|j: int, k: int|
                    #![trigger sources[j], sources[k]]
                    0 <= j < k < sources.len() implies sources[j] < sources[k] by {
                    assert(sources[k] == later[k - 1]);
                    if j > 0 {
                        assert(sources[j] == later[j - 1]);
                    }
                }
                if problem is None {
                    assert forall|at: int| from <= at < batch.rows implies (
                    #[trigger] reader.row_at(batch, at as usize) is Ok && (reader.row_at(
                        batch,
                        at as usize,
                    )->Ok_0 is Some ==> sources.contains(at))) by {
                        if at == from {
                            assert(sources[0] == from);
                        } else if later.contains(at) {
                            let k = choose|k: int| 0 <= k < later.len() && later[k] == at;
                            assert(sources[k + 1] == at);
                        }
                    }
                }
                sources
            },
            Ok(None) => lemma_gathered(reader, batch, from + 1, held),
            Err(problem) => {
                assert(reader.row_at(batch, from as usize) == Err::<
                    Option<<R::Row as View>::V>,
                    DataProblem,
                >(problem));
                Seq::empty()
            },
        }
    }
}

/// Gathering without repetitions adds each row that gives something, in the
/// order of the rows, and no two rows that are held then clash unless two did
/// before.
pub proof fn law_gathering_unique_rows_adds_them_in_order<R: UniqueRules>(
    reader: R,
    batch: RowBatch,
    from: int,
    held: Seq<<R::Row as View>::V>,
) -> (sources: Seq<int>)
    requires
        0 <= from,
        gathered_unique(reader, batch, from, held).1 is None,
        forall|i: int, j: int|
            #![trigger held[i], held[j]]
            0 <= i < j < held.len() ==> !reader.clashes(held[i], held[j]),
    ensures
        ({
            let rows = gathered_unique(reader, batch, from, held).0;
            &&& rows.len() == held.len() + sources.len()
            &&& forall|i: int| 0 <= i < held.len() ==> #[trigger] rows[i] == held[i]
            &&& forall|k: int|
                0 <= k < sources.len() ==> from <= #[trigger] sources[k] < batch.rows
                    && reader.row_at(batch, sources[k] as usize) == Ok::<
                    Option<<R::Row as View>::V>,
                    DataProblem,
                >(Some(rows[held.len() + k]))
            &&& forall|row: int|
                from <= row < batch.rows ==> (#[trigger] reader.row_at(batch, row as usize) is Ok
                    && (reader.row_at(batch, row as usize)->Ok_0 is Some ==> sources.contains(row)))
            &&& forall|i: int, j: int|
                #![trigger rows[i], rows[j]]
                0 <= i < j < rows.len() ==> !reader.clashes(rows[i], rows[j])
        }),
    decreases batch.rows - from,
{
    let rows = gathered_unique(reader, batch, from, held).0;
    if from >= batch.rows {
        Seq::empty()
    } else {
        match reader.row_at(batch, from as usize) {
            Ok(Some(row)) => {
                let longer = held.push(row);
                assert(!any_clash(reader, held, row));
                assert forall|i: int, j: int|
                    #![trigger longer[i], longer[j]]
                    0 <= i < j < longer.len() implies !reader.clashes(longer[i], longer[j]) by {
                    assert(longer[i] == held[i]);
                    if j < held.len() {
                        assert(longer[j] == held[j]);
                    }
                }
                let later = law_gathering_unique_rows_adds_them_in_order(
                    reader,
                    batch,
                    from + 1,
                    longer,
                );
                let sources = seq![from] + later;
                assert forall|i: int| 0 <= i < held.len() implies #[trigger] rows[i]
                    == held[i] by {
                    assert(rows[i] == longer[i]);
                }
                assert(rows[held.len() as int] == longer[held.len() as int]);
                assert forall|k: int| 0 <= k < sources.len() implies from <= #[trigger] sources[k]
                    < batch.rows && reader.row_at(batch, sources[k] as usize) == Ok::<
                    Option<<R::Row as View>::V>,
                    DataProblem,
                >(Some(rows[held.len() + k])) by {
                    if k > 0 {
                        assert(sources[k] == later[k - 1]);
                    }
                }
                assert forall|at: int| from <= at < batch.rows implies (#[trigger] reader.row_at(
                    batch,
                    at as usize,
                ) is Ok && (reader.row_at(batch, at as usize)->Ok_0 is Some
                    ==> sources.contains(at))) by {
                    if at == from {
                        assert(sources[0] == from);
                    } else if later.contains(at) {
                        let k = choose|k: int| 0 <= k < later.len() && later[k] == at;
                        assert(sources[k + 1] == at);
                    }
                }
                sources
            },
            Ok(None) => law_gathering_unique_rows_adds_them_in_order(
                reader,
                batch,
                from + 1,
                held,
            ),
            Err(problem) => Seq::empty(),
        }
    }
}

} // verus!
