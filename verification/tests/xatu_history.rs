//! Planning and identity of the public history source.

use leani_history::primitives::{
    Address, BlockNumber, BlockRange, Capability, CapabilitySet, ChainId, Finality,
};
use leani_history::request::{
    DataRequest, FieldProjection, FilterScope, FilterSet, LogFieldSet, PhysicalReader, SourceError,
    VerificationPolicy,
};
use leani_history::xatu::catalog::XatuTable;
use leani_history::xatu::error::{DataProblem, XatuError};
use leani_history::xatu::history::{
    source_error, XatuBlobsHistorySource, XatuHistoryConfig, XatuHistorySource,
    MAINNET_MERGE_BLOCK,
};
use leani_history::xatu::identity::{decode_partition, encode_partition, ProjectionMode};

#[test]
fn incomplete_table_coverage_is_a_failover_eligible_missing_range() {
    let range = BlockRange::new(BlockNumber(10), BlockNumber(20)).expect("range");
    match source_error(XatuError::IncompleteRange {
        table: XatuTable::CanonicalBeaconBlock,
        range,
        expected: 11,
        actual: 9,
    }) {
        SourceError::IncompleteRange { range: missing, detail } => {
            assert_eq!(missing, range);
            assert_eq!(
                detail,
                "Xatu table canonical_beacon_block does not completely cover BlockRange { start: BlockNumber(10), end: BlockNumber(20) }: expected 11 rows, received 9"
            );
        }
        other => panic!("unexpected error {other:?}"),
    }
}

#[test]
fn source_errors_keep_their_meaning() {
    assert!(matches!(source_error(XatuError::Cancelled), SourceError::Cancelled));
    assert!(matches!(
        source_error(XatuError::Url("empty host".to_owned())),
        SourceError::Protocol(detail) if detail == "Xatu URL error: empty host"
    ));
    assert!(matches!(
        source_error(XatuError::Budget { resource: "input_bytes", actual: 9, limit: 8 }),
        SourceError::BudgetExceeded { resource: "input_bytes", limit: 8, observed: 9 }
    ));
    assert!(matches!(
        source_error(XatuError::ObjectStore("gone".to_owned())),
        SourceError::Unavailable(detail) if detail == "gone"
    ));
    assert!(matches!(
        source_error(XatuError::Data(DataProblem::NullBinary { row: 2 })),
        SourceError::CorruptRows(DataProblem::NullBinary { row: 2 })
    ));
    assert!(matches!(
        source_error(XatuError::UnexpectedType { column: "slot", data_type: "Utf8".to_owned() }),
        SourceError::CorruptColumn { column: "slot", data_type } if data_type == "Utf8"
    ));
    assert!(matches!(
        source_error(XatuError::NotBinary { data_type: "Int8".to_owned() }),
        SourceError::CorruptValues { data_type } if data_type == "Int8"
    ));
    assert!(matches!(
        source_error(XatuError::UnsupportedVersion(b"gloas".to_vec())),
        SourceError::UnsupportedBlockVersion(version) if version == b"gloas"
    ));
    assert!(matches!(
        source_error(XatuError::Schema {
            table: XatuTable::CanonicalBeaconBlock,
            missing: vec!["slot".to_owned()],
        }),
        SourceError::Protocol(text)
            if text == "Xatu canonical_beacon_block schema is missing [\"slot\"]"
    ));
}

fn request(range: BlockRange) -> DataRequest {
    DataRequest {
        chain_id: ChainId(1),
        range,
        required: CapabilitySet::of(Capability::Header)
            .with(Capability::Transactions)
            .with(Capability::Receipts),
        allow_filtered: true,
        projection: FieldProjection::default(),
        log_fields: LogFieldSet::none(),
        filters: FilterSet {
            scope: FilterScope { transaction_types: vec![3], ..FilterScope::default() },
            ..FilterSet::default()
        },
        minimum_finality: Finality::Finalized,
        verification_policy: VerificationPolicy::TrustedDataset,
    }
}

fn public_source() -> XatuHistorySource {
    XatuHistorySource::new(XatuHistoryConfig::public("mainnet".to_owned()).expect("config"))
        .expect("source")
}

fn address_filter() -> FilterSet {
    FilterSet {
        scope: FilterScope { addresses: vec![Address([7; 20])], ..FilterScope::default() },
        ..FilterSet::default()
    }
}

#[test]
fn planner_rejects_pre_merge_history_before_acquisition() {
    let source = public_source();
    let range = BlockRange::new(BlockNumber(10_000_835), BlockNumber(10_001_834)).expect("range");
    let error = source.plan(&request(range)).expect_err("unsupported range");
    assert!(matches!(
        error,
        SourceError::InvalidPlan(text) if text.contains("Beacon parent hashes")
    ));
    assert_eq!(
        source.descriptor().range.expect("advertised range").start().0,
        MAINNET_MERGE_BLOCK
    );
}

#[test]
fn planner_builds_an_exact_bounded_cover_without_network() {
    let mut config = XatuHistoryConfig::public("mainnet".to_owned()).expect("config");
    config.chunk_blocks = 1_000;
    config.blobs_chunk_blocks = 1_000;
    let source = XatuBlobsHistorySource::new(config).expect("source");
    let range = BlockRange::new(BlockNumber(19_426_589), BlockNumber(19_428_600)).expect("range");
    let plan = source.plan(&request(range)).expect("plan");
    plan.validate().expect("valid");
    assert_eq!(plan.chunks.len(), 3);
    assert_eq!(
        plan.chunks
            .iter()
            .map(|chunk| (chunk.range.start().0, chunk.range.end().0))
            .collect::<Vec<_>>(),
        vec![
            (19_426_589, 19_426_999),
            (19_427_000, 19_427_999),
            (19_428_000, 19_428_600),
        ]
    );
    let first = &plan.chunks[0];
    let sliced_range = BlockRange::new(
        BlockNumber(first.range.start().0.saturating_add(10)),
        BlockNumber(first.range.end().0.saturating_sub(10)),
    )
    .expect("sliced Xatu range");
    let sliced = source.slice_chunk(first, sliced_range).expect("sliced Xatu chunk");
    assert_eq!(sliced.range, sliced_range);
    assert_eq!(
        decode_partition(&sliced.partition).expect("sliced identity").range,
        sliced_range
    );
    assert_eq!(
        source.coalescing_partition_identity(first),
        source.coalescing_partition_identity(&sliced)
    );
    assert!(source
        .plan(&DataRequest {
            verification_policy: VerificationPolicy::CompleteCryptographic,
            ..request(range)
        })
        .is_err());
}

#[test]
fn planner_uses_projection_aware_chunk_spans() {
    let source = public_source();
    let range = BlockRange::new(BlockNumber(19_430_589), BlockNumber(19_450_588)).expect("range");

    let blobs = source.plan(&request(range)).expect("blobs plan");
    blobs.validate().expect("valid blobs plan");
    assert_eq!(blobs.chunks.len(), 4);
    assert_eq!(blobs.chunks[0].range.end().0, 19_431_999);
    assert_eq!(blobs.chunks[1].range.start().0, 19_432_000);
    assert_eq!(blobs.chunks[1].range.end().0, 19_439_999);

    let logs = source
        .plan(&DataRequest {
            required: CapabilitySet::of(Capability::Logs),
            filters: address_filter(),
            ..request(range)
        })
        .expect("logs plan");
    logs.validate().expect("valid logs plan");
    assert_eq!(logs.chunks.len(), 21);
    assert_eq!(logs.chunks[0].range.end().0, 19_430_999);
    assert_eq!(logs.chunks[1].range.start().0, 19_431_000);
    assert_eq!(logs.chunks[1].range.end().0, 19_431_999);
}

#[test]
fn partition_identity_round_trips_and_rejects_corruption() {
    let range = BlockRange::new(BlockNumber(1), BlockNumber(2)).expect("range");
    let request = request(range);
    let encoded = encode_partition(ProjectionMode::Blobs, range, &request);
    let decoded = decode_partition(&encoded).expect("decode");
    assert_eq!(decoded.range, range);
    assert_eq!(decoded.mode, ProjectionMode::Blobs);
    assert_eq!(
        decoded.filters.scope.transaction_types,
        request.filters.scope.transaction_types
    );
    assert_eq!(decoded.filters.scope.addresses, request.filters.scope.addresses);
    assert!(decoded.filters.senders.is_empty() && decoded.filters.recipients.is_empty());
    assert!(decode_partition(&[0; 15]).is_err());
    let mut newer = encoded.clone();
    newer[0] += 1;
    let version = newer[0];
    assert!(matches!(
        decode_partition(&newer),
        Err(SourceError::UnsupportedIdentityVersion(found)) if found == version
    ));
    assert!(matches!(
        decode_partition(&[]),
        Err(SourceError::InvalidIdentity(words))
            if words == "Hit the end of buffer, expected more data"
    ));
}

#[test]
fn planner_selects_only_log_or_transaction_material() {
    let source = public_source();
    let range = BlockRange::new(BlockNumber(20_000_000), BlockNumber(20_000_010)).expect("range");
    let logs = source
        .plan(&DataRequest {
            required: CapabilitySet::of(Capability::Logs),
            filters: address_filter(),
            ..request(range)
        })
        .expect("log plan");
    assert!(logs.physical_plan.iter().any(|operation| {
        operation.reader == PhysicalReader::Log && operation.table == "canonical_execution_logs"
    }));
    assert!(!logs.physical_plan.iter().any(|operation| {
        operation.table == "canonical_beacon_block_execution_transaction"
            || operation.table == "canonical_beacon_block_withdrawal"
    }));

    let transactions = source
        .plan(&DataRequest {
            required: CapabilitySet::of(Capability::Transactions),
            filters: FilterSet {
                senders: vec![Address([8; 20])],
                recipients: vec![Address([9; 20])],
                scope: FilterScope {
                    senders: vec![Address([8; 20])],
                    recipients: vec![Address([9; 20])],
                    ..FilterScope::default()
                },
            },
            ..request(range)
        })
        .expect("transaction plan");
    let transaction_reader = transactions
        .physical_plan
        .iter()
        .find(|operation| operation.reader == PhysicalReader::Transaction)
        .expect("transaction reader");
    assert_eq!(transaction_reader.table, "canonical_execution_transaction");
    assert!(transaction_reader.columns.contains(&"value".to_owned()));
    assert!(!transactions
        .physical_plan
        .iter()
        .any(|operation| operation.reader == PhysicalReader::Receipt));
}

#[test]
fn unsupported_projection_fails_before_open() {
    let source = public_source();
    let range = BlockRange::single(BlockNumber(20_000_000));
    let result = source.plan(&DataRequest {
        required: CapabilitySet::of(Capability::Logs).with(Capability::Transactions),
        ..request(range)
    });
    assert!(matches!(result, Err(SourceError::InvalidPlan(_))));
}

#[test]
fn chunks_are_opened_with_the_projection_they_name() {
    let mut source = public_source();
    let range = BlockRange::new(BlockNumber(20_000_000), BlockNumber(20_000_010)).expect("range");
    let plan = source.plan(&request(range)).expect("plan");
    let budget = leani_history::testkit::fixtures::default_source_budget();
    assert!(source.open(&plan.chunks[0], budget).is_ok());
    assert_eq!(source.acquisition_metrics.opened_chunks, 1);
    let mut foreign = plan.chunks.into_iter().next().expect("chunk");
    foreign.source_id = "another".to_owned();
    assert!(matches!(
        source.open(&foreign, budget),
        Err(SourceError::InvalidPlan(_))
    ));
}
