//! Dates, partitions, schemas and probe reports of the public catalog.

use std::str::FromStr;

use leani_history::primitives::{BlockNumber, BlockRange};
use leani_history::xatu::catalog::{
    check_concurrency, missing_required_columns, selected_columns, CatalogProbeReport,
    ObjectInspection, ObjectProbeFailure, ParquetColumn, PartitionKind, ProbeOutcome, XatuCatalog,
    XatuCatalogConfig, XatuTable,
};
use leani_history::xatu::dates::XatuDate;
use leani_history::xatu::error::XatuError;

#[test]
fn execution_partitions_are_exact_and_stable() {
    let catalog = XatuCatalog::new(XatuCatalogConfig::default());
    let range = BlockRange::new(BlockNumber(19_426_589), BlockNumber(19_427_001)).expect("range");
    let objects = catalog
        .execution_objects(XatuTable::CanonicalExecutionBlock, range)
        .expect("objects");
    assert_eq!(
        objects.iter().map(|object| object.partition.as_str()).collect::<Vec<_>>(),
        vec!["19426000", "19427000"]
    );
    assert_eq!(
        objects[0].url.as_str(),
        "https://data.ethpandaops.io/xatu/mainnet/databases/default/canonical_execution_block/1000/19426000.parquet"
    );
}

#[test]
fn daily_partitions_handle_leap_days() {
    let catalog = XatuCatalog::new(XatuCatalogConfig::default());
    let objects = catalog
        .daily_objects(
            XatuTable::CanonicalBeaconBlock,
            XatuDate::new(2024, 2, 28).expect("date"),
            XatuDate::new(2024, 3, 1).expect("date"),
        )
        .expect("objects");
    assert_eq!(
        objects.iter().map(|object| object.partition.as_str()).collect::<Vec<_>>(),
        vec!["2024-02-28", "2024-02-29", "2024-03-01"]
    );
}

#[test]
fn dates_parse_strictly() {
    assert_eq!(
        "2024-03-13".parse::<XatuDate>().expect("date"),
        XatuDate::new(2024, 3, 13).expect("date")
    );
    assert!("2024-02-30".parse::<XatuDate>().is_err());
    assert!("2024-3".parse::<XatuDate>().is_err());
}

#[test]
fn unix_timestamps_convert_to_utc_dates() {
    assert_eq!(
        XatuDate::from_unix_seconds(0).expect("epoch"),
        XatuDate::new(1970, 1, 1).expect("date")
    );
    assert_eq!(
        XatuDate::from_unix_seconds(1_710_288_000).expect("Dencun"),
        XatuDate::new(2024, 3, 13).expect("date")
    );
    assert_eq!(
        XatuDate::from_unix_seconds(1_709_164_800).expect("leap day"),
        XatuDate::new(2024, 2, 29).expect("date")
    );
}

#[test]
fn public_catalog_rejects_path_injection() {
    assert!(XatuCatalogConfig::public("mainnet".to_owned()).is_ok());
    assert!(matches!(
        XatuCatalogConfig::public("../mainnet".to_owned()),
        Err(XatuError::Network(_))
    ));
}

fn column(path: &str) -> ParquetColumn {
    ParquetColumn {
        path: path.to_owned(),
        physical_type: "INT64".to_owned(),
        logical_type: None,
        max_definition_level: 0,
        max_repetition_level: 0,
    }
}

#[test]
fn required_schema_fails_closed() {
    let columns = vec![column("block_number")];
    assert!(!missing_required_columns(XatuTable::CanonicalExecutionBlock, &columns).is_empty());
}

#[test]
fn a_complete_schema_misses_nothing() {
    for table in [XatuTable::CanonicalExecutionBlock, XatuTable::CanonicalBeaconBlock] {
        let columns: Vec<ParquetColumn> =
            selected_columns(table).iter().map(|name| column(&format!("{name}.leaf"))).collect();
        assert!(missing_required_columns(table, &columns).is_empty());
        assert_eq!(selected_columns(table).len(), table.required_columns().len());
    }
}

#[test]
fn dates_keep_the_calendar() {
    assert!(XatuDate::new(2023, 2, 29).is_err());
    assert!(XatuDate::new(2000, 2, 29).is_ok());
    assert!(XatuDate::new(1900, 2, 29).is_err());
    assert!(XatuDate::new(2024, 13, 1).is_err());
    assert!(XatuDate::new(2024, 4, 31).is_err());
    let last = XatuDate::new(2024, 12, 31).expect("date");
    let next = last.next().expect("next");
    assert_eq!(next, XatuDate::new(2025, 1, 1).expect("date"));
    assert!(last.is_before(next));
    assert!(!next.is_before(last));
    assert_eq!(last.text(), "2024-12-31");
    assert_eq!(XatuDate::new(7, 1, 2).expect("date").text(), "0007-01-02");
    for (year, month, day) in [(7, 1, 2), (2000, 2, 29), (2024, 12, 31), (9_999, 10, 9)] {
        let date = XatuDate::new(year, month, day).expect("date");
        assert_eq!(XatuDate::from_str(&date.text()).expect("read back"), date);
    }
    assert!(matches!(XatuDate::from_str("2024-02-30"), Err(XatuError::Date)));
    assert!(matches!(XatuDate::from_str("2024-3"), Err(XatuError::Date)));
}

#[test]
fn partition_kinds_are_not_mixed_up() {
    let catalog = XatuCatalog::new(XatuCatalogConfig::default());
    let date = XatuDate::new(2024, 3, 1).expect("date");
    assert_eq!(
        XatuTable::CanonicalBeaconBlock.partition_kind(),
        PartitionKind::Daily
    );
    assert!(matches!(
        catalog.execution_objects(
            XatuTable::CanonicalBeaconBlock,
            BlockRange::single(BlockNumber(1))
        ),
        Err(XatuError::PartitionKind)
    ));
    assert!(matches!(
        catalog.daily_objects(XatuTable::CanonicalExecutionBlock, date, date),
        Err(XatuError::PartitionKind)
    ));
    let earlier = XatuDate::new(2024, 2, 1).expect("date");
    assert!(matches!(
        catalog.daily_objects(XatuTable::CanonicalBeaconBlock, date, earlier),
        Err(XatuError::Date)
    ));
}

#[test]
fn invalid_base_urls_are_reported() {
    let catalog = XatuCatalog::new(XatuCatalogConfig {
        base_url: "not a url".to_owned(),
        network: "mainnet".to_owned(),
    });
    assert!(matches!(
        catalog.execution_objects(
            XatuTable::CanonicalExecutionBlock,
            BlockRange::single(BlockNumber(1))
        ),
        Err(XatuError::Url(words)) if words == "relative URL without a base"
    ));
}

#[test]
fn probe_reports_are_ordered_and_summed() {
    let config = XatuCatalogConfig::default();
    let catalog = XatuCatalog::new(config.clone());
    let range = BlockRange::new(BlockNumber(1), BlockNumber(2_500)).expect("range");
    let mut objects = catalog
        .execution_objects(XatuTable::CanonicalExecutionBlock, range)
        .expect("objects");
    assert_eq!(objects.len(), 3);
    let failed = objects.pop().expect("third");
    let second = objects.pop().expect("second");
    let first = objects.pop().expect("first");
    let inspected = |object, size_bytes| {
        ProbeOutcome::Inspected(ObjectInspection {
            object,
            size_bytes,
            e_tag: None,
            version: None,
            last_modified: "now".to_owned(),
            rows: 1,
            row_groups: 1,
            created_by: None,
            columns: Vec::new(),
            selected_columns: Vec::new(),
            missing_required_columns: Vec::new(),
        })
    };
    let report = CatalogProbeReport::assemble(
        &config,
        vec![
            ProbeOutcome::Failed(ObjectProbeFailure {
                object: failed,
                error: XatuError::Cancelled,
            }),
            inspected(second, 20),
            inspected(first, 10),
        ],
    );
    assert_eq!(report.total_object_bytes, 30);
    assert_eq!(report.objects[0].object.partition, "0");
    assert_eq!(report.objects[1].object.partition, "1000");
    assert_eq!(report.failures.len(), 1);
    assert!(!report.is_valid());
    assert!(check_concurrency(0).is_err());
    assert!(check_concurrency(4).is_ok());
}

#[test]
fn required_columns_are_distinct_and_name_the_network() {
    for table in [
        XatuTable::CanonicalExecutionBlock,
        XatuTable::CanonicalExecutionTransaction,
        XatuTable::CanonicalExecutionLogs,
        XatuTable::CanonicalBeaconBlock,
        XatuTable::CanonicalBeaconBlockExecutionTransaction,
        XatuTable::CanonicalBeaconBlockWithdrawal,
    ] {
        let columns = table.required_columns();
        let mut distinct = columns.to_vec();
        distinct.sort_unstable();
        distinct.dedup();
        assert_eq!(distinct.len(), columns.len());
        assert_eq!(columns.last(), Some(&"meta_network_name"));
        match table.partition_kind() {
            PartitionKind::BlockChunk1000 => assert!(columns.contains(&"block_number")),
            PartitionKind::Daily => {
                assert!(columns.contains(&"slot"));
                assert!(columns.contains(&"slot_start_date_time"));
            }
        }
    }
}
