//! Generated corpora, scripted sources and synthetic processors.

use leani_history::frame::{
    BlockFrame, HeaderEnvelope, Material, MissingReason, TransactionEnvelope,
};
use leani_history::primitives::{
    BlockHash, BlockNumber, BlockRange, Capability, CapabilitySet, ChainId, Finality,
    TransactionHash,
};
use leani_history::request::{
    DataRequest, FieldProjection, FilterSet, LogFieldSet, SourceBudget, SourceError,
    VerificationPolicy,
};
use leani_history::testkit::benchmark::{GeneratedHistorySource, GeneratedStep};
use leani_history::testkit::corpus::{
    deterministic_bytes, deterministic_hash, generated_blobs, generated_frame, parent_hash,
    swap_price, transaction_count, uniswap_weth_usdc_pool, SyntheticCorpusKind,
};
use leani_history::testkit::digests::update_frame_digest;
use leani_history::testkit::events::{
    canonical_blobs_event, canonical_uniswap_event, encode_ordered, expected_processor_events,
};
use leani_history::testkit::fixtures::{
    default_source_budget, fixture_frame, fixture_source_descriptor,
};
use leani_history::testkit::manifest::synthetic_corpus_manifest;
use leani_history::testkit::processors::{
    BlockLocalCounter, DeliveryOrdering, LifecyclePolicies, OrderedLedgerProcessor,
    ProcessorCursor, ProcessorDescriptor,
    ProcessorError, PublicationPolicy,
};
use leani_history::testkit::reducer::{ChangeOperation, DomainChange, MemoryReducer};
use leani_history::testkit::scripts::{EventStep, HistoryStep, ScriptEvent, ScriptedFrame};
use leani_history::testkit::sources::{
    decode_partition, ConsensusCheckpoint, ScriptedChunk, ScriptedFinalitySource,
    ScriptedHistorySource, ScriptedLiveSource,
};

fn range(start: u64, end: u64) -> BlockRange {
    BlockRange::new(BlockNumber(start), BlockNumber(end)).expect("range")
}

fn corpus_request(range: BlockRange) -> DataRequest {
    DataRequest {
        chain_id: ChainId(1),
        range,
        required: CapabilitySet::none()
            .with(Capability::Header)
            .with(Capability::Transactions)
            .with(Capability::Receipts)
            .with(Capability::Logs),
        allow_filtered: false,
        projection: FieldProjection::default(),
        log_fields: LogFieldSet::all(),
        filters: FilterSet::default(),
        minimum_finality: Finality::Finalized,
        verification_policy: VerificationPolicy::CompleteCryptographic,
    }
}

fn request(range: BlockRange) -> DataRequest {
    DataRequest { required: CapabilitySet::of(Capability::Logs), ..corpus_request(range) }
}

fn assert_corpus_matches_manifest(kind: SyntheticCorpusKind) {
    let (mut source, manifest) =
        GeneratedHistorySource::new(kind, 10_000, 7, 512).expect("corpus");
    let plan = source.plan(&corpus_request(manifest.range)).expect("plan");
    assert_eq!(plan.chunks.len(), 20);
    let mut digest = blake3::Hasher::new();
    let mut frames = 0_u64;
    for chunk in &plan.chunks {
        let budget = SourceBudget {
            max_input_bytes: 64 * 1024 * 1024,
            max_frame_bytes: 1024 * 1024,
            max_frames: chunk.range.len(),
            max_buffered_frames: 8,
            max_in_flight_requests: 1,
            temporary_disk_bytes: 0,
        };
        let mut stream = source.open(chunk, budget).expect("open");
        loop {
            match stream.step(false) {
                GeneratedStep::Finished => break,
                GeneratedStep::Failed(error) => panic!("stream failed: {error:?}"),
                GeneratedStep::Generate(number) => {
                    let frame = source.frame(number);
                    stream.accept(&mut source, 1_000, None).expect("frame");
                    update_frame_digest(&mut digest, &frame);
                    frames = frames.saturating_add(1);
                }
            }
        }
    }
    assert_eq!(frames, manifest.expected_frames);
    assert_eq!(digest.finalize().to_string(), manifest.expected_frame_digest);
    assert_eq!(source.stats().frames, 10_000);
}

#[test]
fn ci_corpora_stream_in_constant_size_chunks_and_match_manifests() {
    for kind in [
        SyntheticCorpusKind::Zero,
        SyntheticCorpusKind::Sparse,
        SyntheticCorpusKind::BlobsLike,
        SyntheticCorpusKind::UniswapLike,
    ] {
        assert_corpus_matches_manifest(kind);
    }
}

#[test]
fn corpus_shapes_are_stable_and_materially_distinct() {
    let (_, zero) =
        GeneratedHistorySource::new(SyntheticCorpusKind::Zero, 10_000, 1, 128).expect("zero");
    let (_, sparse) =
        GeneratedHistorySource::new(SyntheticCorpusKind::Sparse, 10_000, 1, 128).expect("sparse");
    let (_, blobs) =
        GeneratedHistorySource::new(SyntheticCorpusKind::BlobsLike, 10_000, 1, 128).expect("blobs");
    let (_, uniswap) = GeneratedHistorySource::new(SyntheticCorpusKind::UniswapLike, 10_000, 1, 128)
        .expect("uniswap");
    let (_, dense) =
        GeneratedHistorySource::new(SyntheticCorpusKind::Dense, 10_000, 1, 128).expect("dense");
    assert_eq!(zero.expected_transactions, 0);
    assert!(sparse.expected_transactions > 0);
    assert!(sparse.expected_logs > 0);
    assert!(blobs.expected_blob_transactions > sparse.expected_blob_transactions);
    assert!(uniswap.expected_logs > sparse.expected_logs);
    assert_eq!(uniswap.expected_blob_transactions, 0);
    assert!(dense.expected_transactions > blobs.expected_transactions);
    assert_ne!(zero.expected_frame_digest, dense.expected_frame_digest);
}

#[test]
fn corpus_counts_are_exact() {
    let manifest = synthetic_corpus_manifest(SyntheticCorpusKind::BlobsLike, 3, range(1, 40), 16);
    assert_eq!(manifest.schema_version, 4);
    assert_eq!(manifest.generator, "leani-testkit.synthetic-benchmark.v4");
    assert_eq!(manifest.expected_frames, 40);
    assert_eq!(manifest.expected_transactions, 22);
    assert_eq!(manifest.expected_blob_transactions, 22);
    assert_eq!(manifest.expected_logs, 0);
    assert_eq!(manifest.expected_processor_events, 40);
    let swaps = synthetic_corpus_manifest(SyntheticCorpusKind::UniswapLike, 3, range(1, 8), 16);
    assert_eq!(swaps.expected_transactions, 3);
    assert_eq!(swaps.expected_logs, 3);
    assert_eq!(swaps.expected_processor_events, 3);
    assert_eq!(swaps.expected_canonical_processor_output_bytes, 3 * 89);
    assert_ne!(swaps.expected_query_output_digest, swaps.expected_processor_output_digest);
    let dense = synthetic_corpus_manifest(SyntheticCorpusKind::Dense, 3, range(5, 6), 16);
    assert_eq!(dense.expected_transactions, 64);
    assert_eq!(dense.expected_logs, 32);
    assert_eq!(dense.expected_canonical_processor_output_bytes, 2 * 89);
    assert_eq!(dense.expected_query_output_digest, dense.expected_processor_output_digest);
    assert_eq!(dense.expected_processor_output_sha256.len(), 64);
}

#[test]
fn manifest_digests_are_those_of_the_events() {
    let kind = SyntheticCorpusKind::UniswapLike;
    let manifest = synthetic_corpus_manifest(kind, 9, range(1, 50), 16);
    let mut events: Vec<Vec<u8>> = Vec::new();
    for number in 1..=50u64 {
        let frame = generated_frame(kind, 9, BlockNumber(number));
        events.extend(expected_processor_events(kind, 9, &frame.block));
    }
    let stream = |events: &[Vec<u8>]| {
        let mut bytes: Vec<u8> = Vec::new();
        for event in events {
            bytes.extend_from_slice(&(event.len() as u64).to_be_bytes());
            bytes.extend_from_slice(event);
        }
        bytes
    };
    let output = stream(&events);
    assert_eq!(
        manifest.expected_processor_output_digest,
        blake3::hash(&output).to_string()
    );
    let digest = <sha2::Sha256 as sha2::Digest>::digest(&output);
    assert_eq!(manifest.expected_processor_output_sha256, hex::encode(digest));
    events.sort_unstable();
    assert_eq!(
        manifest.expected_query_output_digest,
        blake3::hash(&stream(&events)).to_string()
    );
}

#[test]
fn generated_blocks_are_linked_and_shaped() {
    let kind = SyntheticCorpusKind::Dense;
    let first = generated_frame(kind, 5, BlockNumber(1));
    let second = generated_frame(kind, 5, BlockNumber(2));
    assert_eq!(first.block.parent_hash, BlockHash([0; 32]));
    assert_eq!(second.block.parent_hash, first.block.hash);
    assert_eq!(parent_hash(5, kind, BlockNumber(2)), first.block.hash);
    assert_eq!(second.block.timestamp, 1_700_000_024);
    let Material::Complete(transactions) = &second.transactions else {
        panic!("complete transactions");
    };
    assert_eq!(transactions.len(), 32);
    assert_eq!(transactions[1].transaction_type, 3);
    assert_eq!(transactions[1].blob_versioned_hashes.len(), 1);
    assert_eq!(transactions[2].blob_versioned_hashes.len(), 2);
    assert_eq!(transactions[3].nonce, Some(5));
    assert_eq!(transactions[3].size_bytes, Some(4096));
    let Material::Complete(logs) = &second.logs else {
        panic!("complete logs");
    };
    assert_eq!(logs.len(), 16);
    assert_eq!(logs[3].transaction_index, 6);
    assert_eq!(logs[3].log_index, 3);
    assert_eq!(logs[3].data, deterministic_bytes(5 ^ 0x55, 2, 6, 96));
    let Material::Complete(header) = &second.header else {
        panic!("complete header");
    };
    assert_eq!(header.gas_used, Some(672_000));
    assert_eq!(header.blob_gas_used, Some(131_072 * 64));
    let Material::Complete(receipts) = &second.receipts else {
        panic!("complete receipts");
    };
    assert_eq!(receipts[0].logs.len(), 1);
    assert_eq!(receipts[1].logs.len(), 0);
    assert_eq!(receipts[2].blob_gas_used, Some(262_144));
}

#[test]
fn generated_bytes_and_hashes_are_digests() {
    let mut hasher = blake3::Hasher::new();
    hasher.update(b"block");
    hasher.update(&11_u64.to_be_bytes());
    hasher.update(b"sparse");
    hasher.update(&4_u64.to_be_bytes());
    hasher.update(&2_u32.to_be_bytes());
    assert_eq!(
        deterministic_hash("block", 11, SyntheticCorpusKind::Sparse, 4, 2),
        BlockHash(*hasher.finalize().as_bytes())
    );
    let mut expected: Vec<u8> = Vec::new();
    for counter in 0..3u32 {
        let mut hasher = blake3::Hasher::new();
        hasher.update(&11_u64.to_be_bytes());
        hasher.update(&4_u64.to_be_bytes());
        hasher.update(&2_u32.to_be_bytes());
        hasher.update(&counter.to_be_bytes());
        expected.extend_from_slice(hasher.finalize().as_bytes());
    }
    assert_eq!(deterministic_bytes(11, 4, 2, 70), expected[..70].to_vec());
    assert!(deterministic_bytes(11, 4, 2, 0).is_empty());
}

#[test]
fn swaps_carry_the_price_and_the_event() {
    let kind = SyntheticCorpusKind::UniswapLike;
    let frame = generated_frame(kind, 6, BlockNumber(4));
    let mut price = [0_u8; 32];
    price[20..28].copy_from_slice(&10_u64.to_be_bytes());
    assert_eq!(swap_price(6, BlockNumber(4)), price);
    let mut unit = [0_u8; 32];
    unit[27] = 1;
    assert_eq!(swap_price(0, BlockNumber(0)), unit);
    let Material::Complete(logs) = &frame.logs else {
        panic!("complete logs");
    };
    assert_eq!(logs[0].address, uniswap_weth_usdc_pool());
    assert_eq!(logs[0].data.len(), 160);
    assert_eq!(logs[0].data[64..96], price);
    assert_eq!(
        hex::encode(logs[0].topics[0]),
        "c42079f94a6350d7e6235f29174924f928cc2ac818eb64fed8004e115fbcca67"
    );
    let event = canonical_uniswap_event(6, &frame.block, 0);
    assert_eq!(event[0], 2);
    assert_eq!(event.len(), 89);
    assert_eq!(event[57..], price);
}

#[test]
fn blob_events_are_ordered_by_transaction_hash() {
    let kind = SyntheticCorpusKind::BlobsLike;
    let frame = generated_frame(kind, 2, BlockNumber(20));
    assert_eq!(transaction_count(kind, 20), 4);
    let event = canonical_blobs_event(kind, 2, &frame.block);
    let mut rows: Vec<([u8; 32], Vec<BlockHash>)> = Vec::new();
    for index in 0..4u32 {
        rows.push((
            deterministic_hash("transaction", 2, kind, 20, index).0,
            generated_blobs(kind, 2, BlockNumber(20), index),
        ));
    }
    rows.sort_by(|left, right| left.0.cmp(&right.0));
    let mut expected: Vec<u8> = vec![1];
    expected.extend_from_slice(&20_u64.to_be_bytes());
    expected.extend_from_slice(&frame.block.hash.0);
    expected.extend_from_slice(&4_u32.to_be_bytes());
    for (hash, blobs) in rows {
        expected.extend_from_slice(&hash);
        expected.extend_from_slice(&(blobs.len() as u32).to_be_bytes());
        for blob in blobs {
            expected.extend_from_slice(&blob.0);
        }
    }
    assert_eq!(event, expected);
}

#[test]
fn generated_source_refuses_what_it_cannot_serve() {
    assert!(matches!(
        GeneratedHistorySource::new(SyntheticCorpusKind::Zero, 0, 1, 1),
        Err(SourceError::InvalidPlan(_))
    ));
    assert!(matches!(
        GeneratedHistorySource::new(SyntheticCorpusKind::Zero, 1, 1, 0),
        Err(SourceError::InvalidPlan(_))
    ));
    let (mut source, _) =
        GeneratedHistorySource::new(SyntheticCorpusKind::Zero, 10, 1, 4).expect("corpus");
    assert_eq!(source.descriptor.id, "benchmark-zero");
    assert!(matches!(
        source.plan(&corpus_request(range(5, 11))),
        Err(SourceError::MissingRange(missing)) if missing == range(5, 11)
    ));
    let mut elsewhere = corpus_request(range(1, 2));
    elsewhere.chain_id = ChainId(5);
    assert!(matches!(source.plan(&elsewhere), Err(SourceError::InvalidPlan(_))));
    let mut traces = corpus_request(range(1, 2));
    traces.required = CapabilitySet::of(Capability::Traces);
    assert!(matches!(source.plan(&traces), Err(SourceError::InvalidPlan(_))));
    let plan = source.plan(&corpus_request(range(2, 10))).expect("plan");
    let ranges: Vec<BlockRange> = plan.chunks.iter().map(|chunk| chunk.range).collect();
    assert_eq!(ranges, vec![range(2, 5), range(6, 9), range(10, 10)]);
    assert_eq!(plan.chunks[1].partition, 1_u64.to_be_bytes().to_vec());
    let mut budget = default_source_budget();
    budget.max_frames = 1;
    let mut stream = source.open(&plan.chunks[0], budget).expect("open");
    assert!(matches!(stream.step(false), GeneratedStep::Generate(BlockNumber(2))));
    stream.accept(&mut source, 10, Some(3)).expect("first");
    assert_eq!(source.stats().first_frame_elapsed_milliseconds, Some(3));
    assert_eq!(source.stats().estimated_bytes, 10);
    assert!(matches!(stream.step(false), GeneratedStep::Generate(BlockNumber(3))));
    assert!(matches!(
        stream.accept(&mut source, 10, None),
        Err(SourceError::BudgetExceeded { resource: "frames", limit: 1, observed: 2 })
    ));
    assert!(matches!(stream.step(false), GeneratedStep::Finished));
    let mut cancelled = source.open(&plan.chunks[2], default_source_budget()).expect("open");
    assert!(matches!(
        cancelled.step(true),
        GeneratedStep::Failed(SourceError::Cancelled)
    ));
    assert!(matches!(cancelled.step(false), GeneratedStep::Finished));
    source.start_measurement();
    assert_eq!(source.stats().first_frame_elapsed_milliseconds, None);
}

fn scripted(frame: BlockFrame) -> ScriptedFrame {
    ScriptedFrame { frame, shape_problem: None, heap_bytes: 100 }
}

#[test]
fn history_models_missing_ranges_and_schema_drift() {
    let full = range(1, 3);
    let descriptor = fixture_source_descriptor("history", full);
    let schema = descriptor.schema_version.clone();
    let mut source = ScriptedHistorySource::new(
        descriptor,
        vec![ScriptedChunk {
            range: BlockRange::single(BlockNumber(1)),
            schema_version: schema,
            estimated_bytes: Some(1),
            steps: vec![HistoryStep::Frame(Box::new(scripted(fixture_frame(
                1,
                BlockHash([0; 32]),
            ))))],
        }],
    );
    assert!(matches!(
        source.plan(&request(full)),
        Err(SourceError::MissingRange(_))
    ));
    assert_eq!(source.plan_calls(), 1);

    let mut drifted = ScriptedHistorySource::new(
        fixture_source_descriptor("history", full),
        vec![ScriptedChunk {
            range: full,
            schema_version: "fixture-v2".to_owned(),
            estimated_bytes: None,
            steps: Vec::new(),
        }],
    );
    assert!(matches!(
        drifted.plan(&request(full)),
        Err(SourceError::SchemaDrift { .. })
    ));
}

#[test]
fn history_stream_honors_cancellation() {
    let range = BlockRange::single(BlockNumber(1));
    let descriptor = fixture_source_descriptor("history", range);
    let schema = descriptor.schema_version.clone();
    let mut source = ScriptedHistorySource::new(
        descriptor,
        vec![ScriptedChunk {
            range,
            schema_version: schema,
            estimated_bytes: None,
            steps: vec![
                HistoryStep::Delay(60_000),
                HistoryStep::Frame(Box::new(scripted(fixture_frame(1, BlockHash([0; 32]))))),
            ],
        }],
    );
    let plan = source.plan(&request(range)).expect("plan");
    let mut script = source.open(&plan.chunks[0], default_source_budget()).expect("open");
    assert!(matches!(
        script.next(&source.chunks[script.chunk].steps, true),
        ScriptEvent::Failed(SourceError::Cancelled)
    ));
    let mut waiting = source.open(&plan.chunks[0], default_source_budget()).expect("open");
    let steps = &source.chunks[0].steps;
    assert!(matches!(waiting.next(steps, false), ScriptEvent::Wait(60_000)));
    assert!(matches!(waiting.next(steps, false), ScriptEvent::Deliver(1)));
    assert!(matches!(waiting.next(steps, false), ScriptEvent::Finished));
}

#[test]
fn history_stream_rejects_corruption_and_budget_overrun() {
    let range = BlockRange::single(BlockNumber(1));
    let mut corrupt = fixture_frame(1, BlockHash([0; 32]));
    corrupt.chain_id = ChainId(0);
    let mut source = ScriptedHistorySource::from_frames(
        fixture_source_descriptor("history", range),
        vec![ScriptedFrame {
            frame: corrupt,
            shape_problem: Some("chain ID must be non-zero"),
            heap_bytes: 100,
        }],
    );
    let plan = source.plan(&request(range)).expect("plan");
    let mut script = source.open(&plan.chunks[0], default_source_budget()).expect("open");
    assert!(matches!(
        script.next(&source.chunks[0].steps, false),
        ScriptEvent::Failed(SourceError::CorruptFrame(_))
    ));

    let mut large = fixture_frame(1, BlockHash([0; 32]));
    large.header = Material::Complete(complete_header(vec![1, 2]));
    let mut source = ScriptedHistorySource::from_frames(
        fixture_source_descriptor("history", range),
        vec![ScriptedFrame { frame: large, shape_problem: None, heap_bytes: 2 }],
    );
    let plan = source.plan(&request(range)).expect("plan");
    let mut budget = default_source_budget();
    budget.max_frames = 1;
    budget.max_frame_bytes = 1;
    let mut script = source.open(&plan.chunks[0], budget).expect("open");
    assert!(matches!(
        script.next(&source.chunks[0].steps, false),
        ScriptEvent::Failed(SourceError::BudgetExceeded { resource: "frame_bytes", .. })
    ));
}

#[test]
fn scripted_plans_serve_each_block_from_the_earliest_partition() {
    let full = range(1, 9);
    let chunk = |start: u64, end: u64, estimate: Option<u64>| ScriptedChunk {
        range: range(start, end),
        schema_version: "fixture-v1".to_owned(),
        estimated_bytes: estimate,
        steps: Vec::new(),
    };
    let mut source = ScriptedHistorySource::new(
        fixture_source_descriptor("history", full),
        vec![chunk(4, 9, Some(7)), chunk(1, 5, Some(5)), chunk(3, 6, None)],
    );
    let plan = source.plan(&request(range(2, 9))).expect("plan");
    let planned: Vec<(BlockRange, Vec<u8>)> = plan
        .chunks
        .iter()
        .map(|chunk| (chunk.range, chunk.partition.clone()))
        .collect();
    assert_eq!(
        planned,
        vec![
            (range(2, 5), 1_u64.to_be_bytes().to_vec()),
            (range(6, 6), 2_u64.to_be_bytes().to_vec()),
            (range(7, 9), 0_u64.to_be_bytes().to_vec()),
        ]
    );
    assert_eq!(plan.estimated_bytes, None);
    let plan = source.plan(&request(range(2, 5))).expect("plan");
    assert_eq!(plan.estimated_bytes, Some(5));
    let mut foreign = plan.chunks.into_iter().next().expect("chunk");
    foreign.partition = vec![1];
    assert!(matches!(
        source.open(&foreign, default_source_budget()),
        Err(SourceError::InvalidPlan("fixture partition must be 8 bytes"))
    ));
    foreign.partition = 9_u64.to_be_bytes().to_vec();
    assert!(matches!(
        source.open(&foreign, default_source_budget()),
        Err(SourceError::InvalidPlan("unknown fixture partition"))
    ));
    foreign.partition = 0_u64.to_be_bytes().to_vec();
    assert!(matches!(
        source.open(&foreign, default_source_budget()),
        Err(SourceError::InvalidPlan("chunk exceeds fixture partition"))
    ));
    assert_eq!(source.open_calls(), 3);
    assert_eq!(decode_partition(&3_u64.to_be_bytes()).expect("index"), 3);
}

enum Finality1 {
    Disagreement { first: BlockHash, second: BlockHash, beacon_slot: u64 },
}

#[test]
fn live_and_finality_scripts_expose_failures() {
    let range = BlockRange::single(BlockNumber(1));
    let live: ScriptedLiveSource<u8> = ScriptedLiveSource::new(
        fixture_source_descriptor("live", range),
        vec![EventStep::Error(SourceError::Disconnected("fixture disconnect".to_owned()))],
    );
    let mut script = live.subscribe(default_source_budget()).expect("subscribe");
    let ScriptEvent::Raise(at) = script.next(&live.steps, false) else {
        panic!("scripted failure");
    };
    assert!(matches!(
        live.steps[at],
        EventStep::Error(SourceError::Disconnected(_))
    ));
    assert!(matches!(script.next(&live.steps, false), ScriptEvent::Finished));

    let checkpoint = |slot: u64| ConsensusCheckpoint {
        beacon_slot: slot,
        beacon_block_root: [1; 32],
        execution_block_hash: BlockHash([2; 32]),
        obtained_at_unix_seconds: 1,
        source: "fixture".to_owned(),
    };
    let finality = ScriptedFinalitySource::new(
        fixture_source_descriptor("live", range),
        checkpoint(1),
        vec![EventStep::Event(Finality1::Disagreement {
            first: BlockHash([1; 32]),
            second: BlockHash([2; 32]),
            beacon_slot: 2,
        })],
    );
    let mut script = finality.subscribe(&checkpoint(1)).expect("subscribe");
    let ScriptEvent::Deliver(at) = script.next(&finality.steps, false) else {
        panic!("scripted event");
    };
    let EventStep::Event(Finality1::Disagreement { first, second, beacon_slot }) =
        &finality.steps[at]
    else {
        panic!("disagreement");
    };
    assert_ne!(first, second);
    assert_eq!(*beacon_slot, 2);
    assert!(matches!(
        finality.subscribe(&checkpoint(2)),
        Err(SourceError::Protocol(text)) if text == "weak-subjectivity checkpoint mismatch"
    ));
}

fn complete_header(rlp: Vec<u8>) -> HeaderEnvelope {
    HeaderEnvelope {
        rlp: Some(rlp),
        transactions_root: Some(BlockHash([0; 32])),
        receipts_root: Some(BlockHash([0; 32])),
        withdrawals_root: None,
        gas_limit: None,
        gas_used: None,
        base_fee_per_gas: None,
        blob_gas_used: None,
        excess_blob_gas: None,
        size_bytes: None,
        consensus_size_bytes: None,
        transaction_count: None,
    }
}

fn plain_transaction(byte: u8, transaction_type: u8, index: u32) -> TransactionEnvelope {
    TransactionEnvelope {
        hash: TransactionHash([byte; 32]),
        transaction_type,
        index,
        encoded: Some(vec![byte]),
        from: None,
        to: None,
        nonce: None,
        gas_limit: None,
        value: None,
        input: None,
        max_fee_per_gas: None,
        max_priority_fee_per_gas: None,
        max_fee_per_blob_gas: None,
        blob_versioned_hashes: Vec::new(),
        size_bytes: None,
    }
}

fn cursor(descriptor: &ProcessorDescriptor, block: &BlockFrame, sequence: u64) -> ProcessorCursor {
    ProcessorCursor {
        processor_id: descriptor.id.clone(),
        processor_version: descriptor.version.clone(),
        chain_id: block.chain_id,
        block_number: block.block.number,
        block_hash: block.block.hash,
        finality: block.finality,
        sequence,
    }
}

#[test]
fn block_local_counter_is_deterministic() {
    let processor = BlockLocalCounter::default();
    let mut frame = fixture_frame(1, BlockHash([0; 32]));
    frame.transactions =
        Material::Complete(vec![plain_transaction(1, 2, 0), plain_transaction(2, 3, 1)]);
    let first = processor.map(&frame).expect("map");
    let second = processor.map(&frame).expect("map");
    assert_eq!(first.payload, second.payload);
    assert_eq!(first.block, second.block);
    assert_eq!(first.chain_id, second.chain_id);
    let mut reducer = MemoryReducer::default();
    let change = processor
        .reduce(&mut reducer, &cursor(processor.descriptor(), &frame, 1), &first)
        .expect("reduce");
    assert_eq!(change.payload, 2_u64.to_be_bytes());
    let key = encode_ordered(ChainId(1), &frame.block);
    assert_eq!(key.len(), 80);
    assert_eq!(
        reducer.entity("counter.blocks", &key),
        Some(&2_u64.to_be_bytes()[..])
    );
    assert_eq!(reducer.emitted().len(), 1);
    assert_eq!(reducer.emitted()[0].kind, "synthetic.counter");
}

#[test]
fn processors_refuse_what_they_cannot_take() {
    let processor = BlockLocalCounter::named("other-counter");
    let mut frame = fixture_frame(1, BlockHash([0; 32]));
    frame.transactions = Material::Missing(MissingReason::NotRequested);
    assert!(matches!(processor.map(&frame), Err(ProcessorError::Input(_))));
    let frame = fixture_frame(1, BlockHash([0; 32]));
    let mut delta = processor.map(&frame).expect("map");
    let mut reducer = MemoryReducer::default();
    let mut elsewhere = cursor(processor.descriptor(), &frame, 1);
    elsewhere.block_number = BlockNumber(2);
    assert!(matches!(
        processor.reduce(&mut reducer, &elsewhere, &delta),
        Err(ProcessorError::CursorMismatch)
    ));
    let here = cursor(processor.descriptor(), &frame, 1);
    delta.payload = vec![1];
    assert!(matches!(
        processor.reduce(&mut reducer, &here, &delta),
        Err(ProcessorError::DeltaPayload("counter must be 8 bytes"))
    ));
    delta.valid = false;
    assert!(matches!(
        processor.reduce(&mut reducer, &here, &delta),
        Err(ProcessorError::Delta)
    ));
    assert!(reducer.emitted().is_empty());
    let quiet = processor
        .with_publication(PublicationPolicy::FinalizedOnly)
        .with_output_none()
        .with_delivery_none()
        .with_delivery_max_bytes(5)
        .with_split_delivery();
    assert_eq!(quiet.descriptor.publication, PublicationPolicy::FinalizedOnly);
    assert!(!quiet.descriptor.lifecycle.keeps_output);
    assert!(!quiet.descriptor.lifecycle.delivers);
    assert_eq!(quiet.descriptor.lifecycle.delivery_max_bytes, 5);
    assert_eq!(quiet.descriptor.entity_schema, "other-counter.entity.v1");
}

#[test]
fn ordered_ledger_rejects_out_of_order_reduction() {
    let processor = OrderedLedgerProcessor::default();
    let mut first = fixture_frame(10, BlockHash([9; 32]));
    first.header = Material::Complete(complete_header(vec![10]));
    let mut second = fixture_frame(11, first.block.hash);
    second.header = Material::Complete(complete_header(vec![10]));
    let first_delta = processor.map(&first).expect("map first");
    let second_delta = processor.map(&second).expect("map second");
    let mut reducer = MemoryReducer::default();
    processor
        .reduce(&mut reducer, &cursor(processor.descriptor(), &first, 1), &first_delta)
        .expect("reduce first");
    processor
        .reduce(&mut reducer, &cursor(processor.descriptor(), &second, 2), &second_delta)
        .expect("reduce second");
    let mut chained = blake3::Hasher::new();
    chained.update(&[0; 32]);
    chained.update(&[10; 32]);
    let once = chained.finalize();
    let mut chained = blake3::Hasher::new();
    chained.update(once.as_bytes());
    chained.update(&[11; 32]);
    assert_eq!(
        reducer.entity("ledger", b"digest"),
        Some(&chained.finalize().as_bytes()[..])
    );

    let mut out_of_order = fixture_frame(13, second.block.hash);
    out_of_order.header = Material::Complete(complete_header(vec![10]));
    let delta = processor.map(&out_of_order).expect("map");
    let error = processor
        .reduce(&mut reducer, &cursor(processor.descriptor(), &out_of_order, 3), &delta)
        .expect_err("gap rejected");
    assert!(matches!(
        error,
        ProcessorError::Invariant { expected: 12, received: 13 }
    ));
}

#[test]
fn ledger_refuses_corrupt_state() {
    let processor = OrderedLedgerProcessor::named("ledger-two").with_delivery_none();
    let mut frame = fixture_frame(4, BlockHash([3; 32]));
    assert!(matches!(processor.map(&frame), Err(ProcessorError::Input(_))));
    frame.header = Material::Complete(complete_header(vec![1]));
    let mut delta = processor.map(&frame).expect("map");
    let here = cursor(processor.descriptor(), &frame, 1);
    let mut reducer = MemoryReducer::default();
    reducer.state_put("ledger", b"last-block".to_vec(), vec![1]);
    assert!(matches!(
        processor.reduce(&mut reducer, &here, &delta),
        Err(ProcessorError::State("last block is corrupt"))
    ));
    let mut reducer = MemoryReducer::default();
    reducer.state_put("ledger", b"digest".to_vec(), vec![1]);
    assert!(matches!(
        processor.reduce(&mut reducer, &here, &delta),
        Err(ProcessorError::State("ledger digest has an invalid length"))
    ));
    delta.payload = vec![0; 31];
    assert!(matches!(
        processor.reduce(&mut reducer, &here, &delta),
        Err(ProcessorError::DeltaPayload("ledger hash must be 32 bytes"))
    ));
}

#[test]
fn reducer_keeps_keys_in_order() {
    let mut reducer = MemoryReducer::default();
    reducer.put("b", vec![1, 2], vec![12]);
    reducer.put("a", vec![1, 3], vec![13]);
    reducer.put("a", vec![1], vec![1]);
    reducer.put("a", vec![2], vec![2]);
    reducer.put("a", vec![1, 1], vec![11]);
    reducer.put("a", vec![1], vec![9]);
    assert_eq!(reducer.get("a", &[1]), Some(vec![9]));
    assert_eq!(reducer.get("b", &[1, 2]), Some(vec![12]));
    assert_eq!(reducer.get("b", &[1]), None);
    let keys: Vec<Vec<u8>> =
        reducer.scan_prefix("a", &[1], 2).into_iter().map(|entity| entity.key).collect();
    assert_eq!(keys, vec![vec![1], vec![1, 1]]);
    assert_eq!(reducer.scan_prefix("a", &[1], 10).len(), 3);
    assert!(reducer.scan_prefix("a", &[1], 0).is_empty());
    reducer.delete("a", &[1, 1]);
    reducer.delete("a", &[7]);
    assert_eq!(reducer.scan_prefix("a", &[], 10).len(), 3);
    assert_eq!(reducer.state_get("a", &[1]), None);
    reducer.index_put("i", vec![1], vec![2]);
    reducer.index_put("i", vec![1], vec![2]);
    reducer.index_delete("i", &[1], &[2]);
    reducer.emit(DomainChange {
        kind: "k".to_owned(),
        key: vec![1],
        operation: ChangeOperation::Delete,
        payload: Vec::new(),
    });
    assert_eq!(reducer.emitted()[0].operation, ChangeOperation::Delete);
}

#[test]
fn counters_take_lifecycle_and_delivery() {
    let counter = BlockLocalCounter::named("kept").with_lifecycle(LifecyclePolicies {
        keeps_output: false,
        delivers: true,
        consumers: vec!["reader".to_owned()],
        delivery_max_bytes: 9,
    });
    assert_eq!(counter.descriptor().id, "kept");
    assert!(counter.descriptor().lifecycle.delivers);
    assert_eq!(counter.descriptor().lifecycle.delivery_max_bytes, 9);
    let split = counter.with_split_delivery();
    assert_eq!(
        split.descriptor().delivery_ordering,
        DeliveryOrdering::BlockVersionedIdempotent
    );
    assert_eq!(split.descriptor().lifecycle.consumers, vec!["reader".to_owned()]);
}

#[test]
fn a_scripted_source_covers_a_request_up_to_the_largest_height() {
    let full = range(u64::MAX - 2, u64::MAX);
    let descriptor = fixture_source_descriptor("history", full);
    let schema = descriptor.schema_version.clone();
    let chunk = |range: BlockRange| ScriptedChunk {
        range,
        schema_version: schema.clone(),
        estimated_bytes: None,
        steps: Vec::new(),
    };
    let mut partial = ScriptedHistorySource::new(
        fixture_source_descriptor("history", full),
        vec![chunk(range(u64::MAX - 2, u64::MAX - 1))],
    );
    assert!(matches!(
        partial.plan(&request(full)),
        Err(SourceError::MissingRange(gap)) if gap.start.0 == u64::MAX && gap.end.0 == u64::MAX
    ));
    let mut whole = ScriptedHistorySource::new(
        descriptor,
        vec![chunk(range(u64::MAX - 2, u64::MAX - 1)), chunk(range(u64::MAX, u64::MAX))],
    );
    assert_eq!(whole.plan(&request(full)).expect("plan").chunks.len(), 2);
}
