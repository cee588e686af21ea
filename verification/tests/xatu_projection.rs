//! Reading, sizing and joining projected rows.

use leani_history::frame::{Completeness, Material, MissingReason};
use leani_history::primitives::{
    Address, BlockHash, BlockNumber, BlockRange, Quantity, TransactionHash,
};
use leani_history::request::{FilterScope, FilterSet, LogFieldSet, TopicFilter};
use leani_history::xatu::catalog::{CatalogObject, XatuCatalog, XatuCatalogConfig, XatuTable};
use leani_history::xatu::columns::{
    decode_fixed_bytes, decode_variable_bytes, quantity_from_u64, quantity_to_u64, Column,
    ListValue, NamedColumn, RowBatch,
};
use leani_history::xatu::dates::XatuDate;
use leani_history::xatu::error::{DataProblem, XatuError};
use leani_history::xatu::generic::GenericProjectionKind;
use leani_history::xatu::generic_projection::GenericStage;
use leani_history::xatu::projection::{BlobsStage, ProjectedFrames, XatuBlobsProjector};
use leani_history::xatu::reading::{
    charge_bytes, generic_log_columns, projected_compressed_bytes, selected_root_indices,
    validate_frame_budget, ColumnChunk, ProjectionObjectMetrics,
};
use leani_history::xatu::rows::{
    gather, gather_unique, parse_execution_block_fork, GenericExecutionBlocks, GenericLogs,
    GenericTransactions,
};
use leani_history::xatu::sizes::{
    execution_block_rlp_len, rlp_byte_slice_len, rlp_bytes_len, rlp_integer_len, rlp_list_len,
    rlp_quantity_len, BeaconBlockRow, ExecutionBlockFork, ExecutionBlockRow, TransactionSizeRow,
    WithdrawalRow,
};

#[test]
fn little_endian_xatu_quantities_become_canonical_big_endian() {
    let value = 1_234_567_u64;
    let mut little = [0; 32];
    little[..8].copy_from_slice(&value.to_le_bytes());
    let batch = single(
        "value",
        Column::Binary(vec![Some(little.to_vec())]),
    );
    assert_eq!(
        quantity_to_u64(batch.required_quantity_le("value", 0).expect("quantity")),
        Some(value)
    );
    little.reverse();
    assert_eq!(quantity_to_u64(Quantity(little)), Some(value));
}

#[test]
fn quantity_u64_round_trip_is_exact() {
    assert_eq!(quantity_to_u64(quantity_from_u64(u64::MAX)), Some(u64::MAX));
    let mut wide = [0_u8; 32];
    wide[23] = 1;
    assert_eq!(quantity_to_u64(Quantity(wide)), None);
}

fn text(value: &str) -> Option<Vec<u8>> {
    Some(value.as_bytes().to_vec())
}

fn named(name: &str, values: Column) -> NamedColumn {
    NamedColumn {
        name: name.to_owned(),
        data_type: "Float64".to_owned(),
        element_type: "Int8".to_owned(),
        values,
    }
}

fn single(name: &str, values: Column) -> RowBatch {
    RowBatch::new(1, vec![named(name, values)]).expect("batch")
}

#[test]
fn generic_transaction_projection_reads_and_filters_material_fields() {
    let hash = format!("0x{}", "11".repeat(32));
    let from = format!("0x{}", "22".repeat(20));
    let to = format!("0x{}", "33".repeat(20));
    let batch = RowBatch::new(
        1,
        vec![
            named("block_number", Column::Unsigned(vec![Some(42)])),
            named("transaction_index", Column::Unsigned(vec![Some(3)])),
            named("transaction_hash", Column::Binary(vec![text(&hash)])),
            named("nonce", Column::Unsigned(vec![Some(7)])),
            named("from_address", Column::Binary(vec![text(&from)])),
            named("to_address", Column::Binary(vec![text(&to)])),
            named("value", Column::Unsigned(vec![Some(99)])),
            named("input", Column::Binary(vec![text("0x1234")])),
            named("gas_limit", Column::Unsigned(vec![Some(21_000)])),
            named("transaction_type", Column::Unsigned(vec![Some(2)])),
        ],
    )
    .expect("batch");
    let filters = FilterSet {
        scope: FilterScope {
            senders: vec![Address([0x22; 20])],
            recipients: vec![Address([0x33; 20])],
            ..FilterScope::default()
        },
        ..FilterSet::default()
    };
    let mut output = Vec::new();
    assert_eq!(
        gather(
            &GenericTransactions { range: BlockRange::single(BlockNumber(42)), filters: &filters },
            &batch,
            &mut output,
        )
        .expect("parse"),
        1
    );
    let (number, transaction) = &output[0];
    assert_eq!(*number, 42);
    assert_eq!(transaction.index, 3);
    assert_eq!(transaction.from, Some(Address([0x22; 20])));
    assert_eq!(transaction.to, Some(Address([0x33; 20])));
    assert_eq!(transaction.value, Some(quantity_from_u64(99)));
    assert_eq!(transaction.input.as_deref(), Some(&[0x12, 0x34][..]));

    let others = FilterSet {
        scope: FilterScope { senders: vec![Address([0x23; 20])], ..FilterScope::default() },
        ..FilterSet::default()
    };
    let mut none = Vec::new();
    assert_eq!(
        gather(
            &GenericTransactions { range: BlockRange::single(BlockNumber(42)), filters: &others },
            &batch,
            &mut none,
        )
        .expect("parse"),
        0
    );
}

#[test]
fn generic_log_projection_reads_all_topics_and_applies_predicates() {
    let hash = format!("0x{}", "44".repeat(32));
    let address = format!("0x{}", "55".repeat(20));
    let topic0 = format!("0x{}", "66".repeat(32));
    let topic1 = format!("0x{}", "77".repeat(32));
    let batch = RowBatch::new(
        1,
        vec![
            named("block_number", Column::Unsigned(vec![Some(42)])),
            named("transaction_index", Column::Unsigned(vec![Some(1)])),
            named("transaction_hash", Column::Binary(vec![text(&hash)])),
            named("log_index", Column::Unsigned(vec![Some(2)])),
            named("address", Column::Binary(vec![text(&address)])),
            named("topic0", Column::Binary(vec![text(&topic0)])),
            named("topic1", Column::Binary(vec![text(&topic1)])),
            named("topic2", Column::Binary(vec![None])),
            named("topic3", Column::Binary(vec![None])),
            named("data", Column::Binary(vec![text("0xdeadbeef")])),
        ],
    )
    .expect("batch");
    let filters = FilterSet {
        scope: FilterScope {
            addresses: vec![Address([0x55; 20])],
            topics: vec![TopicFilter { position: 1, alternatives: vec![[0x77; 32]] }],
            ..FilterScope::default()
        },
        ..FilterSet::default()
    };
    let mut output = Vec::new();
    assert_eq!(
        gather(
            &GenericLogs {
                range: BlockRange::single(BlockNumber(42)),
                filters: &filters,
                log_fields: LogFieldSet::all(),
            },
            &batch,
            &mut output,
        )
        .expect("parse"),
        1
    );
    let (number, log) = &output[0];
    assert_eq!(*number, 42);
    assert_eq!(log.topics, vec![[0x66; 32], [0x77; 32]]);
    assert_eq!(log.data, vec![0xde, 0xad, 0xbe, 0xef]);
}

#[test]
fn slim_log_projection_omits_transaction_hash_unless_the_filter_needs_it() {
    let filters = FilterSet::default();
    assert!(!generic_log_columns(LogFieldSet::none(), &filters).contains(&"transaction_hash"));
    assert!(generic_log_columns(LogFieldSet::all(), &filters).contains(&"transaction_hash"));

    let mut hash_filter = FilterSet::default();
    hash_filter.scope.transaction_hashes = vec![TransactionHash([0x11; 32])];
    assert!(generic_log_columns(LogFieldSet::none(), &hash_filter).contains(&"transaction_hash"));
}

#[test]
fn clickhouse_uint128_gas_price_is_decoded_without_narrowing() {
    let value = (u128::from(u64::MAX) << 32) | 0x0102_0304;
    let little_endian = value.to_le_bytes();
    let batch = single("gas_price", Column::Binary(vec![Some(little_endian.to_vec())]));
    let decoded = batch.required_quantity_compatible("gas_price", 0).expect("decode UInt128");
    let mut expected = [0_u8; 32];
    expected[16..].copy_from_slice(&value.to_be_bytes());
    assert_eq!(decoded, Quantity(expected));
}

#[test]
fn legacy_uint64_gas_price_remains_compatible() {
    let value = 12_345_678_901_u64;
    let batch = single("gas_price", Column::Unsigned(vec![Some(value)]));
    assert_eq!(
        batch.required_quantity_compatible("gas_price", 0).expect("decode UInt64"),
        quantity_from_u64(value)
    );
}

fn dencun_transaction_sizes() -> Vec<TransactionSizeRow> {
    [
        (2, 352),
        (2, 193),
        (0, 368),
        (2, 1_190),
        (0, 172),
        (2, 987),
        (0, 171),
        (2, 280),
        (2, 181),
        (0, 205),
        (0, 977),
        (2, 3_097),
        (0, 433),
        (0, 111),
        (2, 441),
        (0, 175),
        (2, 946),
        (2, 960),
        (2, 852),
        (0, 112),
        (0, 175),
        (2, 313),
        (2, 505),
        (2, 505),
        (0, 109),
        (2, 119),
        (2, 566),
        (2, 117),
        (2, 1_718),
        (2, 181),
        (2, 348),
        (2, 376),
        (2, 121),
        (2, 120),
        (2, 117),
        (2, 179),
        (2, 733),
        (2, 180),
        (2, 214),
        (2, 214),
        (2, 182),
        (2, 179),
        (2, 179),
        (2, 179),
        (2, 214),
        (2, 214),
        (2, 179),
        (2, 440),
        (2, 179),
        (2, 214),
        (2, 214),
        (2, 119),
        (2, 180),
        (2, 117),
        (2, 696),
        (2, 118),
        (2, 2_584),
        (2, 180),
        (2, 121),
        (2, 117),
        (2, 117),
        (2, 117),
        (2, 117),
        (2, 117),
        (2, 119),
        (2, 117),
        (2, 117),
        (2, 117),
        (2, 117),
        (2, 122),
        (3, 150),
        (2, 768),
        (2, 179),
        (2, 759),
        (2, 116),
        (2, 1_175),
        (2, 1_173),
        (2, 2_314),
        (2, 115),
    ]
    .into_iter()
    .map(|(transaction_type, size_bytes)| TransactionSizeRow { transaction_type, size_bytes })
    .collect()
}

#[test]
fn dencun_execution_block_size_matches_verified_raw_block() {
    let transaction_sizes = dencun_transaction_sizes();
    assert_eq!(
        transaction_sizes
            .iter()
            .map(|transaction| u64::from(transaction.size_bytes))
            .sum::<u64>(),
        33_644
    );
    let withdrawals = (0..16)
        .map(|offset| WithdrawalRow {
            index: 38_266_054 + offset,
            validator_index: 1_268_201 + offset,
            address: Address([0; 20]),
            amount_gwei: if offset == 15 { 60_026_761 } else { 16_025_579 },
        })
        .collect::<Vec<_>>();
    let execution = ExecutionBlockRow {
        number: 19_426_589,
        hash: BlockHash([0; 32]),
        timestamp: 1_710_338_159,
        gas_used: 7_155_950,
        extra_data: vec![0; 11],
        base_fee_per_gas: 55_745_530_424,
    };
    let beacon = BeaconBlockRow {
        slot: 8_626_181,
        number: execution.number,
        hash: execution.hash,
        parent_hash: BlockHash([0; 32]),
        timestamp: execution.timestamp,
        consensus_size_bytes: 148_616,
        fork: ExecutionBlockFork::Cancun,
        base_fee_per_gas: quantity_from_u64(execution.base_fee_per_gas),
        blob_gas_used: 131_072,
        excess_blob_gas: 0,
        gas_limit: 30_000_000,
        gas_used: execution.gas_used,
        transaction_count: 79,
        transactions_total_bytes: 33_644,
    };

    assert_eq!(
        execution_block_rlp_len(&execution, &beacon, &transaction_sizes, &withdrawals)
            .expect("exact size"),
        34_975
    );
    assert!(matches!(
        execution_block_rlp_len(&execution, &beacon, &transaction_sizes[1..], &withdrawals),
        Err(DataProblem::SizeCoverage { number: 19_426_589, rows: 78, expected: 79 })
    ));
}

#[test]
fn execution_size_fork_rules_fail_closed() {
    assert_eq!(
        parse_execution_block_fork(b"deneb").expect("Deneb"),
        ExecutionBlockFork::Cancun
    );
    assert_eq!(
        parse_execution_block_fork(b"fulu").expect("Fulu"),
        ExecutionBlockFork::Prague
    );
    assert!(parse_execution_block_fork(b"unknown-future-fork").is_err());
    assert!(matches!(
        parse_execution_block_fork(b"gloas"),
        Err(XatuError::UnsupportedVersion(version)) if version == b"gloas"
    ));
}

#[test]
fn rlp_lengths_follow_the_encoding() {
    assert_eq!(rlp_integer_len(0), 1);
    assert_eq!(rlp_integer_len(127), 1);
    assert_eq!(rlp_integer_len(128), 2);
    assert_eq!(rlp_integer_len(u64::MAX), 9);
    assert_eq!(rlp_byte_slice_len(&[]), 1);
    assert_eq!(rlp_byte_slice_len(&[0x7f]), 1);
    assert_eq!(rlp_byte_slice_len(&[0x80]), 2);
    assert_eq!(rlp_bytes_len(55), 56);
    assert_eq!(rlp_bytes_len(56), 58);
    assert_eq!(rlp_list_len(1_024), 1_027);
    assert_eq!(rlp_quantity_len(quantity_from_u64(256)), 3);
}

#[test]
fn bytes_are_decoded_raw_or_from_hex() {
    assert_eq!(decode_fixed_bytes(&vec![1, 2], 2, "c", None, 0).expect("raw"), vec![1, 2]);
    assert_eq!(
        decode_fixed_bytes(&b"0x0a0B".to_vec(), 2, "c", None, 0).expect("hex"),
        vec![10, 11]
    );
    assert!(matches!(
        decode_fixed_bytes(&b"0x0a0z".to_vec(), 2, "c", None, 4),
        Err(DataProblem::InvalidHex { column: "c", element: None, row: 4, byte: b'z', position: 3 })
    ));
    assert!(matches!(
        decode_fixed_bytes(&vec![1], 2, "c", Some(6), 0),
        Err(DataProblem::ByteLength {
            column: "c",
            element: Some(6),
            row: 0,
            length: 1,
            expected: 2
        })
    ));
    assert!(matches!(
        decode_variable_bytes(&b"0xg0".to_vec(), "c", 1),
        Err(DataProblem::InvalidHex { byte: b'g', position: 0, row: 1, .. })
    ));
    assert_eq!(decode_variable_bytes(&b"0xabcd".to_vec(), "c", 0).expect("hex"), vec![0xab, 0xcd]);
    assert!(decode_variable_bytes(&b"0xabc".to_vec(), "c", 0).is_err());
}

#[test]
fn columns_are_read_strictly() {
    assert!(RowBatch::new(2, vec![named("a", Column::Unsigned(vec![Some(1)]))]).is_none());
    let batch = RowBatch::new(
        2,
        vec![
            named("count", Column::Unsigned(vec![Some(300), None])),
            named("flag", Column::Boolean(vec![Some(true), None])),
            named("time", Column::TimestampMillisecond(vec![Some(5), None])),
            named("odd", Column::Other(vec![true, true])),
            named(
                "hashes",
                Column::List(vec![
                    Some(vec![ListValue::Binary(vec![7; 32])]),
                    Some(vec![ListValue::Null]),
                ]),
            ),
        ],
    )
    .expect("batch");
    assert_eq!(batch.required_u64("count", 0).expect("count"), 300);
    assert_eq!(batch.optional_u64("count", 1).expect("null"), None);
    assert!(matches!(
        batch.required_u64("count", 1),
        Err(DataProblem::Null { column: "count", row: 1 })
    ));
    assert!(matches!(
        batch.required_u8("count", 0),
        Err(DataProblem::Overflow { column: "count", .. })
    ));
    assert_eq!(batch.required_u32("count", 0).expect("count"), 300);
    assert!(batch.required_bool("flag", 0).expect("flag"));
    assert_eq!(batch.required_i64("time", 0).expect("time"), 5);
    assert!(matches!(
        batch.required_u64("odd", 0),
        Err(DataProblem::UnexpectedType { column: "odd" })
    ));
    assert!(matches!(
        batch.required_u64("absent", 0),
        Err(DataProblem::MissingColumn("absent"))
    ));
    assert_eq!(
        batch.required_hash_list("hashes", 0).expect("hashes"),
        vec![BlockHash([7; 32])]
    );
    assert!(batch.required_hash_list("hashes", 1).is_err());
}

#[test]
fn elements_of_hash_lists_are_told_by_their_place() {
    let list = |values: Vec<ListValue>| {
        single("hashes", Column::List(vec![Some(values)]))
    };
    let held = || ListValue::Binary(vec![7; 32]);
    let short = list(vec![held(), held(), ListValue::Binary(vec![7; 31])]);
    assert!(matches!(
        short.required_hash_list("hashes", 0),
        Err(DataProblem::ByteLength {
            column: "hashes",
            element: Some(2),
            row: 0,
            length: 31,
            expected: 32
        })
    ));
    let mut digits = format!("0x{}", "ab".repeat(32)).into_bytes();
    digits[9] = b'-';
    let spoiled = list(vec![held(), ListValue::Binary(digits)]);
    assert!(matches!(
        spoiled.required_hash_list("hashes", 0),
        Err(DataProblem::InvalidHex { element: Some(1), byte: b'-', position: 7, .. })
    ));
    assert!(matches!(
        list(vec![held(), ListValue::Null]).required_hash_list("hashes", 0),
        Err(DataProblem::NullBinary { row: 1 })
    ));
    let other = list(vec![ListValue::Other]);
    let problem = other.required_hash_list("hashes", 0).expect_err("not binary");
    assert!(matches!(
        other.row_error(problem),
        XatuError::NotBinary { data_type } if data_type == "Int8"
    ));
}

#[test]
fn errors_of_rows_name_the_type_or_the_version_at_fault() {
    let batch = single("odd", Column::Other(vec![true]));
    let problem = batch.required_u64("odd", 0).expect_err("type");
    assert!(matches!(
        batch.row_error(problem),
        XatuError::UnexpectedType { column: "odd", data_type } if data_type == "Float64"
    ));
    let problem = batch.required_bytes("odd", 0).expect_err("type");
    assert!(matches!(
        batch.row_error(problem),
        XatuError::NotBinary { data_type } if data_type == "Float64"
    ));
    assert!(matches!(
        batch.row_error(DataProblem::NullBinary { row: 3 }),
        XatuError::Data(DataProblem::NullBinary { row: 3 })
    ));
    let projector = XatuBlobsProjector::new(XatuCatalog::new(XatuCatalogConfig::default()));
    let budget = leani_history::testkit::fixtures::default_source_budget();
    let mut run = projector
        .project_auto_dates(BlockRange::single(BlockNumber(DENCUN)), budget, 1_024)
        .expect("run");
    run.stage = BlobsStage::BeaconBlocks;
    let mut beacon = dencun_beacon_block();
    for column in &mut beacon.columns {
        if column.name == "block_version" {
            column.values = Column::Binary(vec![text("gloas")]);
        }
    }
    assert!(matches!(
        run.consume(&beacon),
        Err(XatuError::UnsupportedVersion(version)) if version == b"gloas"
    ));
}

#[test]
fn duplicate_blocks_are_refused() {
    let hash = format!("0x{}", "11".repeat(32));
    let batch = RowBatch::new(
        2,
        vec![
            named("block_number", Column::Unsigned(vec![Some(42), Some(42)])),
            named("block_hash", Column::Binary(vec![text(&hash), text(&hash)])),
            named(
                "block_date_time",
                Column::TimestampMillisecond(vec![Some(5_000), Some(5_000)]),
            ),
        ],
    )
    .expect("batch");
    let mut output = Vec::new();
    assert!(matches!(
        gather_unique(
            &GenericExecutionBlocks { range: BlockRange::single(BlockNumber(42)) },
            &batch,
            &mut output,
        ),
        Err(DataProblem::Duplicate(_))
    ));
    assert_eq!(output.len(), 1);
    assert_eq!(output[0].timestamp, 5);
}

#[test]
fn projections_are_charged_and_bounded() {
    let fields = vec!["a".to_owned(), "b".to_owned(), "c".to_owned()];
    assert_eq!(selected_root_indices(&fields, &["c", "a"]).expect("roots"), vec![2, 0]);
    assert!(matches!(
        selected_root_indices(&fields, &["d"]),
        Err(XatuError::Data(DataProblem::MissingProjectedColumn("d")))
    ));
    let chunks = vec![
        ColumnChunk { root: 0, compressed_size: 10 },
        ColumnChunk { root: 1, compressed_size: 20 },
        ColumnChunk { root: 2, compressed_size: -5 },
    ];
    assert_eq!(projected_compressed_bytes(&chunks, &vec![0, 2]), 10);
    let mut budget = leani_history::testkit::fixtures::default_source_budget();
    budget.max_input_bytes = 15;
    budget.max_frames = 2;
    assert_eq!(charge_bytes(5, 10, budget).expect("fits"), 15);
    assert!(matches!(
        charge_bytes(6, 10, budget),
        Err(XatuError::Budget { actual: 16, limit: 15, .. })
    ));
    assert!(validate_frame_budget(&vec![1, 2], budget).is_ok());
    assert!(matches!(
        validate_frame_budget(&vec![1, 2, 3], budget),
        Err(XatuError::Budget { .. })
    ));
}

fn read_object(table: XatuTable, object: &CatalogObject, rows: u64) -> ProjectionObjectMetrics {
    ProjectionObjectMetrics {
        table,
        partition: object.partition.clone(),
        locator: object.url.clone(),
        e_tag: Some("tag".to_owned()),
        object_bytes: 100,
        projected_compressed_bytes: 10,
        logical_range_requests: 2,
        fetched_bytes: 20,
        selected_columns: vec!["block_number".to_owned()],
        rows_scanned: rows,
        rows_selected: rows,
        batches: 1,
        peak_batch_memory_bytes: 5,
        elapsed_ms: 3,
    }
}

fn counts(values: &[u64]) -> Column {
    Column::Unsigned(values.iter().copied().map(Some).collect())
}

fn same_bytes(value: Vec<u8>, rows: usize) -> Column {
    Column::Binary(vec![Some(value); rows])
}

const DENCUN: u64 = 19_426_589;
const DENCUN_SLOT: u64 = 8_626_181;
const DENCUN_TIME: u64 = 1_710_338_159;

fn dencun_execution_block() -> RowBatch {
    RowBatch::new(
        1,
        vec![
            named(
                "block_date_time",
                Column::TimestampMillisecond(vec![Some(DENCUN_TIME as i64 * 1_000)]),
            ),
            named("block_number", counts(&[DENCUN])),
            named("block_hash", same_bytes(vec![0xaa; 32], 1)),
            named("gas_used", counts(&[7_155_950])),
            named("extra_data", same_bytes(vec![0; 11], 1)),
            named("base_fee_per_gas", counts(&[55_745_530_424])),
        ],
    )
    .expect("batch")
}

fn dencun_beacon_block() -> RowBatch {
    RowBatch::new(
        1,
        vec![
            named("slot", counts(&[DENCUN_SLOT])),
            named("slot_start_date_time", counts(&[DENCUN_TIME])),
            named("block_version", same_bytes(b"deneb".to_vec(), 1)),
            named("block_total_bytes", counts(&[148_616])),
            named("execution_payload_block_hash", same_bytes(vec![0xaa; 32], 1)),
            named("execution_payload_block_number", counts(&[DENCUN])),
            named(
                "execution_payload_base_fee_per_gas",
                same_bytes(55_745_530_424_u64.to_le_bytes().to_vec(), 1),
            ),
            named("execution_payload_blob_gas_used", counts(&[131_072])),
            named("execution_payload_excess_blob_gas", counts(&[0])),
            named("execution_payload_gas_limit", counts(&[30_000_000])),
            named("execution_payload_gas_used", counts(&[7_155_950])),
            named("execution_payload_parent_hash", same_bytes(vec![0xbb; 32], 1)),
            named("execution_payload_transactions_count", counts(&[79])),
            named("execution_payload_transactions_total_bytes", counts(&[33_644])),
        ],
    )
    .expect("batch")
}

fn dencun_beacon_transactions() -> RowBatch {
    let sizes = dencun_transaction_sizes();
    let rows = sizes.len();
    let positions = (0..rows as u64).collect::<Vec<_>>();
    let kinds = sizes.iter().map(|size| u64::from(size.transaction_type)).collect::<Vec<_>>();
    let bytes = sizes.iter().map(|size| u64::from(size.size_bytes)).collect::<Vec<_>>();
    RowBatch::new(
        rows,
        vec![
            named("slot", counts(&vec![DENCUN_SLOT; rows])),
            named("position", counts(&positions)),
            named("hash", same_bytes(vec![0xcc; 32], rows)),
            named("from", same_bytes(vec![0x11; 20], rows)),
            named("to", Column::Binary(vec![None; rows])),
            named("gas", counts(&vec![21_000; rows])),
            named("type", counts(&kinds)),
            named("size", counts(&bytes)),
            named("blob_gas", counts(&vec![131_072; rows])),
            named("blob_gas_fee_cap", same_bytes(vec![7], rows)),
            named(
                "blob_hashes",
                Column::List(
                    (0..rows).map(|_| Some(vec![ListValue::Binary(vec![0xdd; 32])])).collect(),
                ),
            ),
        ],
    )
    .expect("batch")
}

fn dencun_withdrawals() -> RowBatch {
    let amounts = (0..16_u64)
        .map(|offset| if offset == 15 { 60_026_761_u64 } else { 16_025_579 })
        .map(|amount| Some(amount.to_le_bytes().to_vec()))
        .collect::<Vec<_>>();
    RowBatch::new(
        16,
        vec![
            named("slot", counts(&[DENCUN_SLOT; 16])),
            named(
                "withdrawal_index",
                counts(&(38_266_054..38_266_070).collect::<Vec<_>>()),
            ),
            named(
                "withdrawal_validator_index",
                counts(&(1_268_201..1_268_217).collect::<Vec<_>>()),
            ),
            named("withdrawal_address", same_bytes(vec![0; 20], 16)),
            named("withdrawal_amount", Column::Binary(amounts)),
        ],
    )
    .expect("batch")
}

fn dencun_execution_transactions(index: u64) -> RowBatch {
    RowBatch::new(
        2,
        vec![
            named("block_number", counts(&[DENCUN, DENCUN])),
            named("transaction_index", counts(&[0, index])),
            named(
                "transaction_hash",
                Column::Binary(vec![Some(vec![0xee; 32]), Some(vec![0xcc; 32])]),
            ),
            named("gas_used", counts(&[1, 21_000])),
            named("gas_price", counts(&[1, 99])),
            named("transaction_type", counts(&[2, 3])),
            named("success", Column::Boolean(vec![Some(true), Some(true)])),
        ],
    )
    .expect("batch")
}

/// Reads every table of the block and joins them.
fn dencun_run(position: u64) -> Result<ProjectedFrames, XatuError> {
    let projector = XatuBlobsProjector::new(XatuCatalog::new(XatuCatalogConfig::default()));
    let budget = leani_history::testkit::fixtures::default_source_budget();
    let mut run = projector
        .project_auto_dates(BlockRange::single(BlockNumber(DENCUN)), budget, 1_024)
        .expect("run");
    let stages = [
        (XatuTable::CanonicalExecutionBlock, dencun_execution_block(), 1),
        (XatuTable::CanonicalBeaconBlock, dencun_beacon_block(), 1),
        (XatuTable::CanonicalBeaconBlockExecutionTransaction, dencun_beacon_transactions(), 79),
        (XatuTable::CanonicalBeaconBlockWithdrawal, dencun_withdrawals(), 16),
        (XatuTable::CanonicalExecutionTransaction, dencun_execution_transactions(position), 1),
    ];
    let daily = ["19426000", "2024-03-13", "2024-03-13", "2024-03-13", "19426000"];
    for ((table, batch, rows), partition) in stages.into_iter().zip(daily) {
        assert_eq!(run.queue.current().table, table);
        assert_eq!(run.queue.current().partition, partition);
        for column in run.stage.columns() {
            assert!(batch.columns.iter().any(|held| held.name == *column), "{column}");
        }
        run.queue.charge(10).expect("charge");
        assert_eq!(run.consume(&batch).expect("rows"), rows);
        let metrics = read_object(table, run.queue.current(), rows);
        run.finish_object(metrics).expect("next");
    }
    assert_eq!(run.stage, BlobsStage::Joined);
    assert_eq!(run.queue.projected_bytes, 50);
    run.join(77)
}

#[test]
fn blob_projection_joins_every_table_into_a_frame() {
    let projected = dencun_run(70).expect("join");
    assert_eq!(projected.frames.len(), 1);
    let projection = projected.finish(&vec![1_000], true, 12).expect("projection");
    assert_eq!(projection.range, BlockRange::single(BlockNumber(DENCUN)));
    assert_eq!(projection.metrics.frames, 1);
    assert_eq!(projection.metrics.blob_transactions, 1);
    assert_eq!(projection.metrics.object_bytes, 500);
    assert_eq!(projection.metrics.fetched_bytes, 100);
    assert_eq!(projection.metrics.projected_compressed_bytes, 50);
    assert!(projection.metrics.objects.iter().all(|object| object.projected_compressed_bytes == 10));
    assert_eq!(projection.metrics.rows_selected, 98);
    assert_eq!(projection.metrics.elapsed_ms, 12);
    let frame = &projection.frames[0];
    assert_eq!(frame.block.number, BlockNumber(DENCUN));
    assert_eq!(frame.block.hash, BlockHash([0xaa; 32]));
    assert_eq!(frame.block.parent_hash, BlockHash([0xbb; 32]));
    assert_eq!(frame.block.timestamp, DENCUN_TIME);
    let Material::Filtered { value: header, completeness, .. } = &frame.header else {
        panic!("header");
    };
    assert_eq!(*completeness, Completeness::DatasetDeclared);
    assert_eq!(header.size_bytes, Some(34_975));
    assert_eq!(header.consensus_size_bytes, Some(148_616));
    assert_eq!(header.transaction_count, Some(79));
    assert_eq!(header.base_fee_per_gas, Some(quantity_from_u64(55_745_530_424)));
    let Material::Filtered { value: transactions, scope, .. } = &frame.transactions else {
        panic!("transactions");
    };
    assert_eq!(scope.transaction_types, vec![3]);
    assert!(scope.transaction_hashes.is_empty());
    assert_eq!(transactions.len(), 1);
    assert_eq!(transactions[0].index, 70);
    assert_eq!(transactions[0].size_bytes, Some(150));
    assert_eq!(transactions[0].to, None);
    assert_eq!(transactions[0].max_fee_per_blob_gas, Some(quantity_from_u64(7)));
    assert_eq!(transactions[0].blob_versioned_hashes, vec![BlockHash([0xdd; 32])]);
    let Material::Filtered { value: receipts, scope, .. } = &frame.receipts else {
        panic!("receipts");
    };
    assert_eq!(scope.transaction_hashes, vec![TransactionHash([0xcc; 32])]);
    assert_eq!(receipts[0].gas_used, Some(21_000));
    assert_eq!(receipts[0].effective_gas_price, Some(quantity_from_u64(99)));
    assert_eq!(receipts[0].blob_gas_used, Some(131_072));
    assert!(matches!(frame.logs, Material::Missing(MissingReason::NotRequested)));
    assert!(matches!(frame.traces, Material::Missing(MissingReason::Unsupported)));
    assert_eq!(frame.provenance.len(), 5);
    assert_eq!(frame.provenance[0].observed_at_unix_ms, 77);
}

#[test]
fn blob_projection_refuses_tables_that_disagree() {
    assert!(matches!(dencun_run(71), Err(XatuError::Data(_))));
    let projected = dencun_run(70).expect("join");
    assert!(matches!(
        projected.finish(&vec![u64::MAX], true, 0),
        Err(XatuError::Budget { .. })
    ));
}

#[test]
fn projections_with_an_empty_budget_do_not_start() {
    let projector = XatuBlobsProjector::new(XatuCatalog::new(XatuCatalogConfig::default()));
    let range = BlockRange::single(BlockNumber(DENCUN));
    let budget = leani_history::testkit::fixtures::default_source_budget();
    let day = XatuDate::new(2024, 3, 13).expect("date");
    assert!(matches!(
        projector.project(range, day, day, budget, 0),
        Err(XatuError::Data(DataProblem::Text(_)))
    ));
    let mut empty = budget;
    empty.max_frames = 0;
    assert!(matches!(
        projector.project(range, day, day, empty, 1),
        Err(XatuError::Data(DataProblem::Text(_)))
    ));
    let mut run = projector.project(range, day, day, budget, 1).expect("run");
    run.queue.budget.max_input_bytes = 5;
    assert!(matches!(
        run.queue.charge(6),
        Err(XatuError::Budget { actual: 6, limit: 5, .. })
    ));
    assert_eq!(run.queue.projected_bytes, 0);
}

fn generic_blocks(second_parent: u8) -> (RowBatch, RowBatch) {
    let hashes = vec![Some(vec![1; 32]), Some(vec![2; 32])];
    let execution = RowBatch::new(
        2,
        vec![
            named(
                "block_date_time",
                Column::TimestampMillisecond(vec![Some(86_399_000), Some(86_411_000)]),
            ),
            named("block_number", counts(&[42, 43])),
            named("block_hash", Column::Binary(hashes.clone())),
        ],
    )
    .expect("batch");
    let beacon = RowBatch::new(
        3,
        vec![
            named("slot_start_date_time", counts(&[86_399, 86_411, 86_423])),
            named(
                "execution_payload_block_hash",
                Column::Binary(vec![hashes[0].clone(), hashes[1].clone(), None]),
            ),
            named(
                "execution_payload_block_number",
                Column::Unsigned(vec![Some(42), Some(43), None]),
            ),
            named(
                "execution_payload_parent_hash",
                Column::Binary(vec![Some(vec![0; 32]), Some(vec![second_parent; 32]), None]),
            ),
            named("execution_payload_transactions_count", counts(&[2, 0, 0])),
        ],
    )
    .expect("batch");
    (execution, beacon)
}

fn generic_transactions(indices: [u64; 2]) -> RowBatch {
    RowBatch::new(
        2,
        vec![
            named("block_number", counts(&[42, 42])),
            named("transaction_index", counts(&indices)),
            named(
                "transaction_hash",
                Column::Binary(vec![Some(vec![8; 32]), Some(vec![9; 32])]),
            ),
            named("nonce", counts(&[5, 6])),
            named("from_address", same_bytes(vec![0x22; 20], 2)),
            named("to_address", Column::Binary(vec![None, Some(vec![0x33; 20])])),
            named("value", counts(&[1, 2])),
            named("input", same_bytes(b"0x".to_vec(), 2)),
            named("gas_limit", counts(&[21_000, 22_000])),
            named("transaction_type", counts(&[2, 0])),
        ],
    )
    .expect("batch")
}

fn generic_run(indices: [u64; 2]) -> Result<ProjectedFrames, XatuError> {
    let projector = XatuBlobsProjector::new(XatuCatalog::new(XatuCatalogConfig::default()));
    let range = BlockRange::new(BlockNumber(42), BlockNumber(43)).expect("range");
    let mut run = projector
        .project_generic(
            range,
            GenericProjectionKind::Transactions,
            &FilterSet::default(),
            LogFieldSet::all(),
            true,
            leani_history::testkit::fixtures::default_source_budget(),
            64,
        )
        .expect("run");
    let (execution, beacon) = generic_blocks(1);
    assert_eq!(run.queue.current().partition, "0");
    assert_eq!(run.consume(&execution).expect("blocks"), 2);
    let metrics = read_object(XatuTable::CanonicalExecutionBlock, run.queue.current(), 2);
    run.finish_object(metrics).expect("next");
    for (batch, rows, day) in [(Some(&beacon), 2, "1970-01-01"), (None, 0, "1970-01-02")] {
        assert_eq!(run.stage, GenericStage::BeaconBlocks);
        assert_eq!(run.queue.current().partition, day);
        if let Some(batch) = batch {
            assert_eq!(run.consume(batch).expect("blocks"), rows);
        }
        let metrics = read_object(XatuTable::CanonicalBeaconBlock, run.queue.current(), rows);
        run.finish_object(metrics).expect("next");
    }
    assert_eq!(run.stage, GenericStage::Transactions);
    assert_eq!(run.columns().len(), 10);
    assert_eq!(run.consume(&generic_transactions(indices)).expect("transactions"), 2);
    let metrics = read_object(XatuTable::CanonicalExecutionTransaction, run.queue.current(), 2);
    run.finish_object(metrics).expect("next");
    assert_eq!(run.stage, GenericStage::Joined);
    run.join(5)
}

#[test]
fn generic_projection_orders_transactions_within_blocks() {
    let frames = generic_run([1, 0]).expect("join").frames;
    assert_eq!(frames.len(), 2);
    let Material::Filtered { value, scope, .. } = &frames[0].transactions else {
        panic!("transactions");
    };
    assert_eq!(
        value.iter().map(|transaction| (transaction.index, transaction.nonce)).collect::<Vec<_>>(),
        vec![(0, Some(6)), (1, Some(5))]
    );
    assert_eq!(scope.block_range, Some(BlockRange::single(BlockNumber(42))));
    let Material::Filtered { value, .. } = &frames[1].transactions else {
        panic!("transactions");
    };
    assert!(value.is_empty());
    let Material::Filtered { value: header, .. } = &frames[0].header else {
        panic!("header");
    };
    assert_eq!(header.transaction_count, Some(2));
    assert_eq!(header.gas_used, None);
    assert_eq!(frames[1].block.parent_hash, BlockHash([1; 32]));
    assert!(matches!(frames[0].logs, Material::Missing(MissingReason::NotRequested)));
    assert_eq!(frames[0].provenance.len(), 4);
}

#[test]
fn generic_projection_refuses_repeated_indices() {
    assert!(matches!(generic_run([1, 1]), Err(XatuError::Data(_))));
}
