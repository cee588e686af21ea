//! Artifact segments and the sink that retains them.

use std::collections::BTreeMap;

use leani_history::artifacts::batch::{validate_batch, write_segment, BatchDelta, BatchProblem};
use leani_history::artifacts::scan::SegmentChain;
use leani_history::artifacts::segment::{
    ArtifactCompression, ArtifactSegmentError, ArtifactSegmentLimits, ArtifactSegmentMetadata,
    ArtifactSegmentReader, DeltaFacts, ProcessorContract,
};
use leani_history::artifacts::segment_sink::{
    contract_directory_name, is_orphan_partial, is_segment_file, segment_path,
    ArtifactSegmentSink, FoundSegment, Retention,
};
use leani_history::artifacts::sink::{
    ArtifactBatchReceipt, ArtifactSegmentSinkConfig, ArtifactSegmentSinkStats, ArtifactSinkError,
};
use leani_history::artifacts::writer::ArtifactSegmentWriter;
use leani_history::primitives::{BlockHash, BlockNumber, BlockRange, BlockRef, ChainId};
use leani_history::testkit::processors::BlockLocalCounter;

fn range(start: u64, end: u64) -> BlockRange {
    BlockRange::new(BlockNumber(start), BlockNumber(end)).expect("range")
}

fn contract() -> ProcessorContract {
    BlockLocalCounter::default().descriptor().contract()
}

fn encode(facts: &DeltaFacts, payload: &[u8]) -> Vec<u8> {
    let mut encoded = Vec::new();
    encoded.extend_from_slice(&facts.chain_id.0.to_be_bytes());
    encoded.extend_from_slice(&facts.block.number.0.to_be_bytes());
    encoded.extend_from_slice(&facts.block.hash.0);
    encoded.extend_from_slice(&facts.block.parent_hash.0);
    encoded.extend_from_slice(&facts.block.timestamp.to_be_bytes());
    encoded.extend_from_slice(&facts.checksum.0);
    encoded.extend_from_slice(payload);
    encoded
}

fn decode(encoded: &[u8]) -> DeltaFacts {
    let number = |at: usize| u64::from_be_bytes(encoded[at..at + 8].try_into().expect("8 bytes"));
    let hash = |at: usize| BlockHash(encoded[at..at + 32].try_into().expect("32 bytes"));
    DeltaFacts {
        chain_id: ChainId(number(0)),
        block: BlockRef {
            number: BlockNumber(number(8)),
            hash: hash(16),
            parent_hash: hash(48),
            timestamp: number(80),
        },
        checksum: hash(88),
        valid: true,
    }
}

fn delta(block: BlockRef, payload: &[u8]) -> BatchDelta {
    let facts = DeltaFacts {
        chain_id: ChainId(1),
        block,
        checksum: BlockHash(*blake3::hash(payload).as_bytes()),
        valid: true,
    };
    BatchDelta { encoded: encode(&facts, payload), facts }
}

fn deltas(range: BlockRange) -> Vec<BatchDelta> {
    let mut parent = BlockHash([0; 32]);
    (range.start().0..=range.end().0)
        .map(|number| {
            let mut hash = [0_u8; 32];
            hash[24..32].copy_from_slice(&number.to_be_bytes());
            let block = BlockRef {
                number: BlockNumber(number),
                hash: BlockHash(hash),
                parent_hash: parent,
                timestamp: 1_700_000_000 + number * 12,
            };
            parent = block.hash;
            delta(block, &number.to_be_bytes())
        })
        .collect()
}

fn limits() -> ArtifactSegmentLimits {
    ArtifactSegmentLimits {
        maximum_artifact_logical_bytes: 1024 * 1024,
        maximum_segment_logical_bytes: 16 * 1024 * 1024,
        maximum_segment_physical_bytes: 16 * 1024 * 1024,
    }
}

fn writer(
    range: BlockRange,
    compression: ArtifactCompression,
    limits: ArtifactSegmentLimits,
) -> ArtifactSegmentWriter {
    ArtifactSegmentWriter::create(&contract(), ChainId(1), range, compression, limits)
        .expect("writer")
}

fn written(
    range: BlockRange,
    deltas: &[BatchDelta],
    compression: ArtifactCompression,
) -> (Vec<u8>, ArtifactSegmentMetadata) {
    let mut writer = writer(range, compression, limits());
    let mut file = writer.header();
    let mut directory = Vec::new();
    for delta in deltas {
        let record = writer.append(&delta.facts, &delta.encoded).expect("append");
        file.extend_from_slice(&record.stored);
        directory.extend_from_slice(&record.entry);
    }
    let closed = writer.finish(&directory).expect("finish");
    file.extend_from_slice(&closed.closing);
    (file, closed.metadata)
}

fn decoded(reader: &ArtifactSegmentReader, file: &[u8]) -> Vec<Option<BatchDelta>> {
    let held = reader.metadata().descriptor.range;
    (held.start().0..=held.end().0)
        .map_while(|number| reader.read(file, BlockNumber(number)).ok())
        .map(|record| Some(BatchDelta { facts: decode(&record.logical), encoded: record.logical }))
        .collect()
}

fn verify(reader: &ArtifactSegmentReader, file: &[u8]) -> Result<(), ArtifactSegmentError> {
    reader.verify(file, &decoded(reader, file))
}

#[test]
fn every_codec_roundtrips_seeks_and_verifies() {
    let range = range(1, 257);
    let deltas = deltas(range);
    for compression in [
        ArtifactCompression::Uncompressed,
        ArtifactCompression::Snappy,
        ArtifactCompression::Deflate,
    ] {
        let (file, metadata) = written(range, &deltas, compression);
        assert_eq!(metadata.artifacts, range.len());
        assert_eq!(metadata.physical_bytes, file.len() as u64);
        let reader = ArtifactSegmentReader::open(&file, &contract()).expect("open");
        assert!(reader.metadata().same(&metadata));
        assert_eq!(
            reader.read(&file, BlockNumber(129)).expect("seek").logical,
            deltas[128].encoded
        );
        let scanned = reader
            .scan(&file, BlockRange::new(BlockNumber(250), BlockNumber(257)).expect("scan range"), 4)
            .expect("scan");
        let expected: Vec<&Vec<u8>> = deltas[249..253].iter().map(|delta| &delta.encoded).collect();
        assert_eq!(
            scanned.iter().map(|record| &record.logical).collect::<Vec<_>>(),
            expected
        );
        verify(&reader, &file).expect("full verification");
    }
}

#[test]
fn corruption_and_incomplete_publication_fail_closed() {
    let range = range(1, 3);
    let deltas = deltas(range);
    let mut short = writer(range, ArtifactCompression::Snappy, limits());
    let record = short.append(&deltas[0].facts, &deltas[0].encoded).expect("append first");
    assert!(matches!(
        short.finish(&record.entry),
        Err(ArtifactSegmentError::Incomplete { expected: 3, observed: 1 })
    ));

    let (mut file, _) = written(range, &deltas, ArtifactCompression::Snappy);
    file[32] = 0xff;
    assert!(matches!(
        ArtifactSegmentReader::open(&file, &contract()),
        Err(ArtifactSegmentError::ContentChecksum)
    ));
}

#[test]
fn an_altered_or_cut_artifact_file_is_refused() {
    let range = range(1, 2);
    let (file, _) = written(range, &deltas(range), ArtifactCompression::Snappy);
    assert!(ArtifactSegmentReader::open(&file, &contract()).is_ok());
    for at in 0..file.len() {
        let mut altered = file.clone();
        altered[at] ^= 0x40;
        assert!(ArtifactSegmentReader::open(&altered, &contract()).is_err(), "byte {at}");
        assert!(ArtifactSegmentReader::open(&file[..at], &contract()).is_err(), "cut at {at}");
    }
}

#[test]
fn ordering_parent_and_hard_limits_are_enforced_before_close() {
    let range = range(1, 2);
    let deltas = deltas(range);
    let mut small = writer(
        range,
        ArtifactCompression::Uncompressed,
        ArtifactSegmentLimits {
            maximum_artifact_logical_bytes: 1,
            maximum_segment_logical_bytes: 2,
            maximum_segment_physical_bytes: 1024,
        },
    );
    assert!(matches!(
        small.append(&deltas[0].facts, &deltas[0].encoded),
        Err(ArtifactSegmentError::ArtifactTooLarge { limit: 1, .. })
    ));

    let mut ordering = writer(range, ArtifactCompression::Uncompressed, limits());
    assert!(matches!(
        ordering.append(&deltas[1].facts, &deltas[1].encoded),
        Err(ArtifactSegmentError::OutOfOrder {
            expected: BlockNumber(1),
            received: BlockNumber(2)
        })
    ));

    let mut parent = writer(range, ArtifactCompression::Uncompressed, limits());
    parent.append(&deltas[0].facts, &deltas[0].encoded).expect("append first");
    let mut bad_block = deltas[1].facts.block;
    bad_block.parent_hash = BlockHash([9; 32]);
    let bad_parent = delta(bad_block, &2_u64.to_be_bytes());
    assert!(matches!(
        parent.append(&bad_parent.facts, &bad_parent.encoded),
        Err(ArtifactSegmentError::ParentLink(BlockNumber(2)))
    ));

    let mut physical = writer(
        range,
        ArtifactCompression::Uncompressed,
        ArtifactSegmentLimits {
            maximum_artifact_logical_bytes: 1024,
            maximum_segment_logical_bytes: 2048,
            maximum_segment_physical_bytes: 1,
        },
    );
    assert!(matches!(
        physical.append(&deltas[0].facts, &deltas[0].encoded),
        Err(ArtifactSegmentError::SegmentPhysicalLimit { limit: 1, .. })
    ));
}

#[test]
fn segments_are_bound_to_their_contract() {
    let range = range(1, 2);
    let (file, _) = written(range, &deltas(range), ArtifactCompression::Deflate);
    let other = BlockLocalCounter::named("other").descriptor().contract();
    assert!(matches!(
        ArtifactSegmentReader::open(&file, &other),
        Err(ArtifactSegmentError::Contract)
    ));
    let inspection = ArtifactSegmentReader::inspect(&file).expect("inspect");
    assert_eq!(inspection.metadata.artifacts, 2);
    let reader = ArtifactSegmentReader::open(&file, &contract()).expect("open");
    assert!(matches!(
        reader.read(&file, BlockNumber(3)),
        Err(ArtifactSegmentError::OutsideRange(BlockNumber(3)))
    ));
    assert!(matches!(
        reader.scan(&file, range, 0),
        Err(ArtifactSegmentError::InvalidLimit(0))
    ));
    let record = reader.read(&file, BlockNumber(1)).expect("record");
    let mut facts = decode(&record.logical);
    facts.checksum = BlockHash([0; 32]);
    assert!(matches!(
        reader.verify_delta(&record, &facts),
        Err(ArtifactSegmentError::RecordIdentity(BlockNumber(1)))
    ));
}

fn config() -> ArtifactSegmentSinkConfig {
    ArtifactSegmentSinkConfig {
        compression: ArtifactCompression::Snappy,
        limits: limits(),
        maximum_retained_physical_bytes: 32 * 1024 * 1024,
    }
}

type Files = BTreeMap<String, Vec<u8>>;

fn open(files: &mut Files, config: ArtifactSegmentSinkConfig) -> Result<ArtifactSegmentSink, ArtifactSinkError> {
    files.retain(|path, _| !is_orphan_partial(path));
    let used: u64 = files.values().map(|file| file.len() as u64).sum();
    let found: Vec<FoundSegment> = files
        .iter()
        .filter(|(path, _)| is_segment_file(path))
        .map(|(path, file)| FoundSegment {
            path: path.clone(),
            inspection: ArtifactSegmentReader::inspect(file).expect("inspect"),
        })
        .collect();
    ArtifactSegmentSink::open(config, used, &found)
}

fn retain(
    sink: &mut ArtifactSegmentSink,
    files: &mut Files,
    deltas: &[BatchDelta],
) -> Result<ArtifactBatchReceipt, ArtifactSinkError> {
    let contract = contract();
    let existing = match (deltas.first(), deltas.last()) {
        (Some(first), Some(last)) if first.facts.block.number.0 <= last.facts.block.number.0 => {
            let path = segment_path(
                &contract,
                range(first.facts.block.number.0, last.facts.block.number.0),
            );
            files.get(&path).map(|file| {
                let reader = ArtifactSegmentReader::open(file, &contract)?;
                verify(&reader, file)?;
                Ok(reader.metadata().clone())
            })
        }
        _ => None,
    };
    match sink.retain_finalized_batch(&contract, deltas, existing)? {
        Retention::Held(receipt) => Ok(receipt),
        Retention::Fresh(mut prepared) => {
            if let Some(file) = &prepared.file {
                files.insert(prepared.entry.path.clone(), file.clone());
                prepared.file = Some(Vec::new());
            }
            sink.record(prepared)
        }
    }
}

fn scan(
    sink: &ArtifactSegmentSink,
    files: &Files,
    range: BlockRange,
    limit: usize,
) -> Result<Vec<Vec<u8>>, ArtifactSinkError> {
    let contract = contract();
    let mut result = Vec::new();
    let mut scan = sink.scan(&contract.instance, range, limit)?;
    while let Some(read) = scan.advance()? {
        for record in scan.take(&contract, &read, &files[&read.path])? {
            result.push(record.logical);
        }
    }
    Ok(result)
}

fn encodings(deltas: &[BatchDelta]) -> Vec<Vec<u8>> {
    deltas.iter().map(|delta| delta.encoded.clone()).collect()
}

fn verify_sink(sink: &ArtifactSegmentSink, files: &Files) -> Result<(), ArtifactSinkError> {
    let contract = contract();
    let mut chain = SegmentChain::new();
    for entry in sink.segments_of(&contract.instance) {
        let file = &files[&entry.path];
        let reader =
            ArtifactSegmentReader::open(file, &contract).map_err(ArtifactSinkError::Segment)?;
        chain.verify(&contract, &entry, file, &decoded(&reader, file))?;
    }
    Ok(())
}

#[test]
fn direct_sink_is_idempotent_scannable_and_restart_adoptable() {
    let all = deltas(range(1, 8));
    let instance = contract().instance;
    let mut files = Files::new();
    let mut sink = open(&mut files, config()).expect("sink");
    let first = retain(&mut sink, &mut files, &all[..4]).expect("retain first");
    assert!(first.newly_retained);
    let second = retain(&mut sink, &mut files, &all[4..]).expect("retain second");
    assert!(second.newly_retained);
    let retry = retain(&mut sink, &mut files, &all[..4]).expect("idempotent retry");
    assert!(!retry.newly_retained);
    assert_eq!(retry.physical_bytes, first.physical_bytes);
    assert_eq!(sink.stats().segments, 2);
    assert_eq!(sink.stats().artifacts, 8);
    let scanned = scan(&sink, &files, range(2, 7), 4).expect("scan");
    assert_eq!(scanned, encodings(&all[1..5]));
    verify_sink(&sink, &files).expect("verify");

    let mut reopened = open(&mut files, config()).expect("reopen");
    assert_eq!(reopened.stats().segments, 2);
    assert_eq!(reopened.stats().artifacts, 8);
    assert_eq!(
        scan(&reopened, &files, range(2, 7), 10).expect("restart scan"),
        encodings(&all[1..7])
    );
    let adopted = retain(&mut reopened, &mut files, &all[..4]).expect("adopt existing");
    assert!(!adopted.newly_retained);
    assert_eq!(reopened.stats().segments, 2);
    assert_eq!(reopened.stats().artifacts, 8);
    let held = reopened.retained_batch(&instance, range(1, 4)).expect("held");
    assert_eq!(held.records_checksum, first.records_checksum);
    files.remove(&held.path);
    assert!(reopened.remove_exact(&instance, range(1, 4)));
    assert_eq!(reopened.stats().segments, 1);
    assert!(!reopened.remove_exact(&instance, range(1, 4)));
}

#[test]
fn direct_sink_rejects_overlap_conflict_and_hard_limit() {
    let all = deltas(range(1, 8));
    let mut files = Files::new();
    let mut sink = open(&mut files, config()).expect("sink");
    retain(&mut sink, &mut files, &all[..4]).expect("retain first");
    assert!(matches!(
        retain(&mut sink, &mut files, &all[2..6]),
        Err(ArtifactSinkError::Conflict(_))
    ));
    let mut conflicting = deltas(range(1, 4));
    let mut payload = 1_u64.to_be_bytes();
    payload[0] ^= 0xff;
    conflicting[0] = delta(conflicting[0].facts.block, &payload);
    assert!(matches!(
        retain(&mut sink, &mut files, &conflicting),
        Err(ArtifactSinkError::Conflict(_))
    ));

    let mut limited_files = Files::new();
    let mut limited = open(
        &mut limited_files,
        ArtifactSegmentSinkConfig {
            compression: ArtifactCompression::Uncompressed,
            limits: ArtifactSegmentLimits {
                maximum_artifact_logical_bytes: 1024,
                maximum_segment_logical_bytes: 1024,
                maximum_segment_physical_bytes: 1024,
            },
            maximum_retained_physical_bytes: 1024,
        },
    )
    .expect("limited sink");
    assert!(retain(&mut limited, &mut limited_files, &all[..4]).is_err());
}

#[test]
fn restart_removes_orphan_partial_publications_before_budget_admission() {
    let range = range(1, 4);
    let all = deltas(range);
    let path = segment_path(&contract(), range);
    assert_eq!(
        path,
        format!(
            "{}/00000000000000000001-00000000000000000004.artifacts",
            contract_directory_name(&contract())
        )
    );
    let mut partial = writer(range, ArtifactCompression::Uncompressed, limits());
    let mut files = Files::new();
    let mut bytes = partial.header();
    let record = partial.append(&all[0].facts, &all[0].encoded).expect("append first artifact");
    bytes.extend_from_slice(&record.stored);
    files.insert(format!("{path}.partial"), bytes);
    files.insert(format!("{path}.directory.partial"), record.entry);

    let mut constrained = config();
    constrained.maximum_retained_physical_bytes =
        constrained.limits.maximum_segment_physical_bytes;
    let mut reopened =
        open(&mut files, constrained).expect("orphan cleanup precedes budget admission");
    assert!(!files.contains_key(&format!("{path}.partial")));
    assert!(!files.contains_key(&format!("{path}.directory.partial")));
    assert_eq!(reopened.stats(), ArtifactSegmentSinkStats::default());

    let retained = retain(&mut reopened, &mut files, &all).expect("retry after restart");
    assert!(retained.newly_retained);
    assert_eq!(retained.path, path);
}

#[test]
fn batches_are_checked_as_a_whole() {
    let mut all = deltas(range(5, 8));
    let batch = validate_batch(&all).expect("batch");
    assert_eq!(batch.range, range(5, 8));
    assert_eq!(batch.logical_bytes, 4 * 128);
    let mut stream = Vec::new();
    for delta in &all {
        stream.extend_from_slice(&(delta.encoded.len() as u64).to_be_bytes());
        stream.extend_from_slice(&delta.encoded);
    }
    assert_eq!(batch.records_checksum, *blake3::hash(&stream).as_bytes());
    assert_eq!(validate_batch(&[]).expect_err("empty"), BatchProblem::Empty);
    all[2].facts.valid = false;
    assert_eq!(
        validate_batch(&all).expect_err("invalid"),
        BatchProblem::InvalidDelta(BlockNumber(7))
    );
    all[2].facts.valid = true;
    all[1].facts.chain_id = ChainId(2);
    assert_eq!(validate_batch(&all).expect_err("chain"), BatchProblem::NotContiguous);
    all.swap(0, 3);
    assert!(matches!(
        validate_batch(&all),
        Err(BatchProblem::ReversedRange { .. })
    ));
    assert_eq!(
        validate_batch(&all[1..4].iter().map(|delta| BatchDelta {
            facts: delta.facts,
            encoded: Vec::new(),
        }).collect::<Vec<_>>()).expect_err("missing block"),
        BatchProblem::ReversedRange { start: BlockNumber(6), end: BlockNumber(5) }
    );
    let sparse = vec![
        delta(deltas(range(1, 3)).remove(0).facts.block, b"a"),
        delta(deltas(range(1, 3)).remove(2).facts.block, b"b"),
    ];
    assert_eq!(
        validate_batch(&sparse).expect_err("sparse"),
        BatchProblem::OneDeltaPerBlock
    );
}

#[test]
fn a_written_batch_is_the_file_of_its_writer() {
    let range = range(3, 5);
    let all = deltas(range);
    let batch = validate_batch(&all).expect("batch");
    let segment =
        write_segment(&contract(), &batch, &all, ArtifactCompression::Deflate, limits())
            .expect("segment");
    let (file, metadata) = written(range, &all, ArtifactCompression::Deflate);
    assert_eq!(segment.file, file);
    assert!(segment.metadata.same(&metadata));
    assert_eq!(segment.metadata.records_checksum, batch.records_checksum);
}

#[test]
fn the_sink_reports_gaps_and_limits() {
    let all = deltas(range(1, 9));
    let mut files = Files::new();
    let mut sink = open(&mut files, config()).expect("sink");
    retain(&mut sink, &mut files, &all[..3]).expect("first");
    retain(&mut sink, &mut files, &all[5..]).expect("last");
    assert!(matches!(
        scan(&sink, &files, range(1, 9), 10),
        Err(ArtifactSinkError::CoverageGap(BlockNumber(4)))
    ));
    assert_eq!(
        scan(&sink, &files, range(1, 9), 3).expect("limit first"),
        encodings(&all[..3])
    );
    assert!(matches!(
        verify_sink(&sink, &files),
        Err(ArtifactSinkError::CoverageGap(BlockNumber(6)))
    ));
    assert!(matches!(
        sink.scan("x", range(1, 2), 10_001),
        Err(ArtifactSinkError::InvalidScanLimit(10_001))
    ));
    assert!(matches!(
        retain(&mut sink, &mut files, &[]),
        Err(ArtifactSinkError::EmptyBatch)
    ));
    sink.remeasure(u64::MAX);
    assert!(matches!(
        retain(&mut sink, &mut files, &all[3..5]),
        Err(ArtifactSinkError::AggregatePhysicalLimit { projected: u64::MAX, .. })
    ));
    let mut invalid = config();
    invalid.maximum_retained_physical_bytes = 1;
    assert!(matches!(
        open(&mut files, invalid),
        Err(ArtifactSinkError::InvalidConfig)
    ));
    let mut tight = config();
    tight.limits.maximum_artifact_logical_bytes = 1;
    tight.limits.maximum_segment_logical_bytes = 1;
    tight.limits.maximum_segment_physical_bytes = 1;
    tight.maximum_retained_physical_bytes = 1;
    assert!(matches!(
        open(&mut files, tight),
        Err(ArtifactSinkError::AggregatePhysicalLimit { limit: 1, .. })
    ));
    assert!(is_segment_file("a.artifacts"));
    assert!(!is_segment_file(".artifacts"));
    assert!(!is_segment_file("a.artifacts.partial"));
}

#[test]
fn verification_finds_the_first_fault() {
    let held = range(3, 6);
    let all = deltas(held);
    let (file, _) = written(held, &all, ArtifactCompression::Snappy);
    let reader = ArtifactSegmentReader::open(&file, &contract()).expect("open");
    let sound = || decoded(&reader, &file);
    assert!(reader.verify(&file, &sound()).is_ok());

    let mut lost = sound();
    lost[2] = None;
    assert!(matches!(reader.verify(&file, &lost), Err(ArtifactSegmentError::Delta)));
    lost.truncate(1);
    assert!(matches!(reader.verify(&file, &lost), Err(ArtifactSegmentError::Delta)));

    let mut other = sound();
    other[1].as_mut().expect("delta").facts.checksum = BlockHash([9; 32]);
    assert!(matches!(
        reader.verify(&file, &other),
        Err(ArtifactSegmentError::RecordIdentity(BlockNumber(4)))
    ));

    let mut unlinked = sound();
    unlinked[3].as_mut().expect("delta").facts.block.parent_hash = BlockHash([9; 32]);
    assert!(matches!(
        reader.verify(&file, &unlinked),
        Err(ArtifactSegmentError::ParentLink(BlockNumber(6)))
    ));

    let mut changed = sound();
    changed[0].as_mut().expect("delta").encoded.push(0);
    assert!(matches!(
        reader.verify(&file, &changed),
        Err(ArtifactSegmentError::RecordsChecksum)
    ));
    assert_eq!(
        reader.checked_delta(&file, &sound(), BlockNumber(5)).expect("delta").block.number,
        BlockNumber(5)
    );
    assert!(matches!(
        reader.checked_delta(&file, &sound(), BlockNumber(7)),
        Err(ArtifactSegmentError::OutsideRange(BlockNumber(7)))
    ));
}

#[test]
fn verification_refuses_segments_that_do_not_go_on() {
    let all = deltas(range(1, 8));
    let mut files = Files::new();
    let mut sink = open(&mut files, config()).expect("sink");
    retain(&mut sink, &mut files, &all[..3]).expect("retain");
    retain(&mut sink, &mut files, &all[4..]).expect("retain");
    assert!(matches!(
        verify_sink(&sink, &files),
        Err(ArtifactSinkError::CoverageGap(BlockNumber(5)))
    ));
}

#[test]
fn a_refused_batch_leaves_what_is_retained() {
    let all = deltas(range(1, 8));
    let mut files = Files::new();
    let mut sink = open(&mut files, config()).expect("sink");
    let first = retain(&mut sink, &mut files, &all[2..6]).expect("retain");
    let stats = sink.stats();
    let overlapping = retain(&mut sink, &mut files, &all[..4]).err().expect("overlap");
    assert!(matches!(
        overlapping,
        ArtifactSinkError::Conflict(held) if held.start.0 == 3 && held.end.0 == 6
    ));
    let mut other = deltas(range(1, 8));
    other[3] = delta(other[3].facts.block, b"another payload");
    let conflicting = retain(&mut sink, &mut files, &other[2..6]).err().expect("conflict");
    assert!(matches!(
        conflicting,
        ArtifactSinkError::Conflict(held) if held.start.0 == 3 && held.end.0 == 6
    ));
    assert_eq!(sink.stats(), stats);
    assert_eq!(files.len(), 1);
    assert_eq!(scan(&sink, &files, range(3, 6), 10).expect("scan"), encodings(&all[2..6]));
    for _ in 0..2 {
        let again = retain(&mut sink, &mut files, &all[2..6]).expect("retry");
        assert!(!again.newly_retained);
        assert_eq!(again.records_checksum, first.records_checksum);
        assert_eq!(again.path, first.path);
    }
    assert_eq!(sink.stats(), stats);
}
