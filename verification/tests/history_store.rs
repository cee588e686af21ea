//! The raw-history store: its catalog, jobs, runner and retained source.

use std::collections::BTreeMap;

use leani_history::frame::{
    BlockFrame, HeaderEnvelope, Material, MissingReason, TransactionEnvelope,
};
use leani_history::history::acquisition::{
    decide_after_attempt, plan_is_complete, segment_request, source_is_compatible,
    AttemptDecision, Attempts, RawHistoryRunner, RunStart, RunStep, SegmentAcquisition,
};
use leani_history::history::catalog::{
    DiskUsage, HistoryStore, HistoryStoreConfig, HistoryStoreStats, RecoveryReport,
    SegmentOwnerClaim, SegmentReservation, StorageBudget,
};
use leani_history::history::error::{CatalogProblem, HistoryStoreError, JobProblem};
use leani_history::history::job::{
    RawHistoryIndexPolicy, RawHistoryJobId, RawHistoryJobSpec, RawHistoryMaterialProfile,
    RawHistoryProfile, RawHistoryRetention, RawHistorySegmentPolicy, StorageLimitAction,
};
use leani_history::history::layout::{
    Compression, MaterialShapeId, SegmentDescriptor, SegmentError, SegmentId, VerificationClass,
};
use leani_history::history::lifecycle::{RawHistoryJob, RawHistoryJobState};
use leani_history::history::lookups::{check_existing_usage, check_schema_version, sum_bytes};
use leani_history::history::paths::{
    file_name, quarantine_name, safe_child, segment_file_kind, SegmentFile,
};
use leani_history::history::pending::{AdmissionUsage, PendingSegment};
use leani_history::history::recovery::{inspect_file, FoundFile};
use leani_history::history::rows::{SegmentOwnerKind, SegmentRecord, SegmentRow};
use leani_history::history::runner::{
    prefix, AcquireError, RawHistoryRunError, RawHistoryRunOutcome, RawHistorySourceSet,
    SourceEntry, SourceProblem, SourceReason,
};
use leani_history::history::settling::AttemptStep;
use leani_history::history::source::{
    source_store_error, RetainedHistorySource, RetainedHistorySourceConfig,
};
use leani_history::history::source_stream::{
    check_located_block, check_located_transaction, StreamStep,
};
use leani_history::primitives::{
    BlockHash, BlockNumber, BlockRange, Capability, CapabilitySet, ChainId, Finality, Quantity,
    TransactionHash, TrustModel,
};
use leani_history::request::{
    DataRequest, FieldProjection, FilterSet, LogFieldSet, SourceBudget, SourceDescriptor,
    SourceError, VerificationPolicy,
};
use leani_history::testkit::fixtures::{
    default_source_budget, fixture_frame, fixture_source_descriptor,
};
use leani_history::testkit::scripts::{HistoryStep, ScriptEvent, ScriptedFrame};
use leani_history::testkit::sources::{ScriptedChunk, ScriptedHistorySource};

const NOW: u64 = 1_700_000_000_000;

fn range(start: u64, end: u64) -> BlockRange {
    BlockRange::new(BlockNumber(start), BlockNumber(end)).expect("range")
}

fn frames_from(parent: u8, start: u64, end: u64) -> Vec<BlockFrame> {
    let mut parent = BlockHash([parent; 32]);
    (start..=end)
        .map(|number| {
            let frame = fixture_frame(number, parent);
            parent = frame.block.hash;
            frame
        })
        .collect()
}

fn frames(start: u64, end: u64) -> Vec<BlockFrame> {
    frames_from(0x22, start, end)
}

fn encode(frame: &BlockFrame) -> Vec<u8> {
    format!("{frame:?}").into_bytes()
}

fn segment(text: &str) -> SegmentId {
    SegmentId::new(text.to_owned()).expect("segment ID")
}

fn job_id(text: &str) -> RawHistoryJobId {
    RawHistoryJobId::new(text.to_owned()).expect("job ID")
}

fn descriptor_of(
    frames: &[BlockFrame],
    material_shape: MaterialShapeId,
    verification: VerificationClass,
    trust: TrustModel,
) -> SegmentDescriptor {
    let capabilities = frames[0].capabilities();
    SegmentDescriptor {
        chain_id: frames[0].chain_id,
        range: BlockRange::new(
            frames[0].block.number,
            frames.last().expect("non-empty fixture").block.number,
        )
        .expect("ordered fixture"),
        material_shape,
        present_capabilities: capabilities.present,
        complete_capabilities: capabilities.complete,
        verification,
        trust,
    }
}

fn descriptor(frames: &[BlockFrame]) -> SegmentDescriptor {
    descriptor_of(
        frames,
        MaterialShapeId([0x55; 32]),
        VerificationClass::TrustedDataset,
        TrustModel::TrustedDataset,
    )
}

fn execution_descriptor(frames: &[BlockFrame]) -> SegmentDescriptor {
    descriptor_of(
        frames,
        MaterialShapeId::complete_execution(),
        VerificationClass::TrustedDataset,
        TrustModel::TrustedDataset,
    )
}

fn test_config() -> HistoryStoreConfig {
    HistoryStoreConfig::new("history".to_owned()).with_budget(StorageBudget {
        maximum_logical_bytes: 32 * 1024 * 1024,
        maximum_physical_bytes: 32 * 1024 * 1024,
        maximum_frame_logical_bytes: 1024 * 1024,
        maximum_segment_logical_bytes: 4 * 1024 * 1024,
        maximum_segment_physical_bytes: 4 * 1024 * 1024,
    })
}

fn reservation() -> SegmentReservation {
    SegmentReservation::new(1024 * 1024, 1024 * 1024)
}

const LOCATORS: RawHistoryIndexPolicy =
    RawHistoryIndexPolicy { block_hash: true, transaction_hash: true, logs: false };

/// A store with the files of its segment and quarantine directories.
struct Disk {
    store: HistoryStore,
    files: BTreeMap<String, Vec<u8>>,
    quarantine: BTreeMap<String, Vec<u8>>,
}

/// A segment that is being written, with its two temporary files.
struct Writing {
    pending: PendingSegment,
    file: Vec<u8>,
    index: Vec<u8>,
}

impl Disk {
    fn new(config: HistoryStoreConfig) -> Disk {
        Disk {
            store: HistoryStore::open(&config).expect("open store"),
            files: BTreeMap::new(),
            quarantine: BTreeMap::new(),
        }
    }

    fn usage(&self, id: &SegmentId) -> AdmissionUsage {
        let stem = format!("{}.", id.as_str());
        AdmissionUsage {
            path_exists: self.files.keys().any(|name| name.starts_with(&stem)),
            root_physical_bytes: self.files.values().map(|file| file.len() as u64).sum(),
            temporary_physical_bytes: 0,
        }
    }

    fn stats(&self) -> HistoryStoreStats {
        let held: u64 = self.files.values().map(|file| file.len() as u64).sum();
        let aside: u64 = self.quarantine.values().map(|file| file.len() as u64).sum();
        let temporary: u64 = self
            .files
            .iter()
            .filter(|(name, _)| matches!(segment_file_kind(name), SegmentFile::Partial))
            .map(|(_, file)| file.len() as u64)
            .sum();
        self.store
            .stats(DiskUsage {
                catalog_physical_bytes: 0,
                temporary_physical_bytes: temporary,
                quarantine_physical_bytes: aside,
                total_physical_bytes: held + aside,
            })
            .expect("stats")
    }

    fn begin(
        &mut self,
        id: &str,
        descriptor: SegmentDescriptor,
        compression: Compression,
        reservation: SegmentReservation,
        profile: RawHistoryProfile,
        indexes: RawHistoryIndexPolicy,
    ) -> Result<Writing, HistoryStoreError> {
        let id = segment(id);
        let usage = self.usage(&id);
        let pending = self.store.begin_segment_profiled(
            id, descriptor, compression, reservation, profile, indexes, usage, NOW,
        )?;
        let file = pending.writer.header();
        Ok(Writing { pending, file, index: Vec::new() })
    }

    fn finish(
        &mut self,
        writing: Writing,
        owners: &[SegmentOwnerClaim],
    ) -> Result<SegmentRecord, HistoryStoreError> {
        let Writing { pending, mut file, index } = writing;
        let name = pending.final_name.clone();
        match pending.commit(&mut self.store, &owners.to_vec(), &index, NOW) {
            Ok(published) => {
                file.extend_from_slice(&published.closing);
                self.files.insert(name, file);
                Ok(published.record)
            }
            Err(failure) => Err(failure.error),
        }
    }

    fn publish_as(
        &mut self,
        id: &str,
        frames: &[BlockFrame],
        descriptor: SegmentDescriptor,
        profile: RawHistoryProfile,
        indexes: RawHistoryIndexPolicy,
        owners: &[SegmentOwnerClaim],
    ) -> SegmentRecord {
        let mut writing = self
            .begin(id, descriptor, Compression::Snappy, reservation(), profile, indexes)
            .expect("begin segment");
        for frame in frames {
            writing.append(frame).expect("append frame");
        }
        self.finish(writing, owners).expect("commit segment")
    }

    fn publish(&mut self, id: &str, frames: &[BlockFrame]) -> SegmentRecord {
        self.publish_as(
            id,
            frames,
            descriptor(frames),
            RawHistoryProfile::ProcessorReuse,
            RawHistoryIndexPolicy::default(),
            &[],
        )
    }

    fn file_of(&self, id: &SegmentId) -> &Vec<u8> {
        let record = self.store.segment(id).expect("segment");
        &self.files[&file_name(&record.relative_path).expect("file name")]
    }

    fn delete_unowned(&mut self, id: &SegmentId) -> Result<(), HistoryStoreError> {
        let relative = self.store.delete_unowned(id)?;
        self.files.remove(&file_name(&relative)?);
        assert!(self.store.finish_deletion(id));
        Ok(())
    }

    /// Keeps a partial write on disk, as an interrupted process does.
    fn crash(&mut self, id: &str, writing: Writing) {
        self.files.insert(format!("{id}.partial"), writing.file);
        self.files.insert(format!("{id}.idxpartial"), writing.index);
    }

    fn restart(&mut self) -> Result<RecoveryReport, HistoryStoreError> {
        let listed: Vec<FoundFile> =
            self.files.iter().map(|(name, file)| inspect_file(name.clone(), file)).collect();
        let recovery = self.store.recover(listed)?;
        for name in recovery.temporary.iter().chain(&recovery.deleted) {
            safe_child(name)?;
            self.files.remove(name);
        }
        for orphan in &recovery.orphans {
            let file = self.files.remove(&orphan.name).expect("listed");
            let mut attempt = 0;
            let mut target = quarantine_name(&orphan.name, orphan.readable, attempt);
            while self.quarantine.contains_key(&target) {
                attempt += 1;
                target = quarantine_name(&orphan.name, orphan.readable, attempt);
            }
            self.quarantine.insert(target, file);
        }
        self.store.reconcile_all_jobs(NOW)?;
        Ok(recovery.report)
    }
}

impl Writing {
    fn append(&mut self, frame: &BlockFrame) -> Result<(), HistoryStoreError> {
        let record = self.pending.append(frame, None, &encode(frame))?;
        self.file.extend_from_slice(&record.stored);
        self.index.extend_from_slice(&record.entry);
        Ok(())
    }
}

// The catalog.

#[test]
fn closed_segments_survive_restart_and_seek_one_record() {
    let expected = frames(100, 109);
    let mut disk = Disk::new(test_config());
    let record = disk.publish("restart", &expected);
    let stats = disk.stats();
    assert_eq!(stats.closed_segments, 1);
    assert_eq!(stats.retained_logical_bytes, record.metadata.logical_bytes);
    assert_eq!(stats.retained_segment_physical_bytes, record.metadata.physical_bytes);
    assert!(stats.total_physical_bytes >= stats.retained_segment_physical_bytes);

    disk.restart().expect("reopen store");
    assert_eq!(disk.store.segments().len(), 1);
    let file = disk.file_of(&record.metadata.id);
    let reader = disk.store.reader(&record.metadata.id, file).expect("reader");
    let read = reader.read_block(file, BlockNumber(106)).expect("seek block");
    assert_eq!(read.logical, encode(&expected[6]));
    assert_eq!(read.records_decoded, 1);
    assert!(read.stored_bytes_read < record.metadata.physical_bytes);
}

fn with_transaction(frame: &mut BlockFrame, hash: TransactionHash) {
    frame.transactions = Material::Complete(vec![TransactionEnvelope {
        hash,
        transaction_type: 2,
        index: 0,
        encoded: Some(vec![0x02, 0xc0]),
        from: None,
        to: None,
        nonce: Some(0),
        gas_limit: Some(21_000),
        value: None,
        input: Some(Vec::new()),
        max_fee_per_gas: None,
        max_priority_fee_per_gas: None,
        max_fee_per_blob_gas: None,
        blob_versioned_hashes: Vec::new(),
        size_bytes: Some(2),
    }]);
    frame.receipts = Material::Missing(MissingReason::NotRequested);
}

#[test]
fn selected_locators_publish_atomically_and_delete_with_segment() {
    let mut disk = Disk::new(test_config());
    let mut expected = frames(110, 111);
    let transaction_hashes = [TransactionHash([0xa1; 32]), TransactionHash([0xa2; 32])];
    for (frame, hash) in expected.iter_mut().zip(transaction_hashes) {
        with_transaction(frame, hash);
    }
    let mut writing = disk
        .begin(
            "atomic-locators",
            descriptor(&expected),
            Compression::Snappy,
            reservation(),
            RawHistoryProfile::ProcessorReuse,
            LOCATORS,
        )
        .expect("begin indexed segment");
    for frame in &expected {
        writing.append(frame).expect("append indexed frame");
    }
    assert!(disk.store.block_hash_locators(ChainId(1), expected[0].block.hash).expect("locators").is_empty());
    let record = disk.finish(writing, &[]).expect("publish locators");

    let mut alternate_descriptor = descriptor(&expected);
    alternate_descriptor.material_shape = MaterialShapeId([0x56; 32]);
    let alternate = disk.publish_as(
        "atomic-locators-alternate",
        &expected,
        alternate_descriptor,
        RawHistoryProfile::ProcessorReuse,
        LOCATORS,
        &[],
    );

    let blocks = disk.store.block_hash_locators(ChainId(1), expected[1].block.hash).expect("locators");
    assert_eq!(blocks.len(), 2);
    let block = blocks
        .iter()
        .find(|hit| hit.locator.segment_id.same(&record.metadata.id))
        .expect("indexed block in first shape");
    assert_eq!(block.locator.block_number, BlockNumber(111));
    let transactions = disk.store.transaction_locators(ChainId(1), transaction_hashes[0]).expect("locators");
    assert_eq!(transactions.len(), 2);
    let transaction = transactions
        .iter()
        .find(|hit| hit.locator.segment_id.same(&record.metadata.id))
        .expect("indexed transaction in first shape");
    assert_eq!(transaction.locator.block_number, BlockNumber(110));
    assert_eq!(transaction.locator.transaction_index, 0);
    let stats = disk.stats();
    assert_eq!(stats.block_hash_locators, 4);
    assert_eq!(stats.transaction_locators, 4);

    disk.delete_unowned(&record.metadata.id).expect("delete segment");
    assert_eq!(disk.store.transaction_locators(ChainId(1), transaction_hashes[0]).expect("locators").len(), 1);
    disk.delete_unowned(&alternate.metadata.id).expect("delete alternate segment");
    assert!(disk.store.transaction_locators(ChainId(1), transaction_hashes[0]).expect("locators").is_empty());
}

#[test]
fn ownership_blocks_deletion_until_explicit_release() {
    let mut disk = Disk::new(test_config());
    let id = disk.publish("owned", &frames(10, 12)).metadata.id;
    let owner = "job:raw-1".to_owned();
    disk.store
        .add_owner(&id, SegmentOwnerKind::OperatorPin, &owner, NOW)
        .expect("add owner");
    disk.store
        .add_owner(&id, SegmentOwnerKind::OperatorPin, &owner, NOW)
        .expect("duplicate owner is idempotent");
    assert_eq!(disk.store.owners(&id).len(), 1);
    assert!(matches!(
        disk.delete_unowned(&id),
        Err(HistoryStoreError::OwnedSegment { owners: 1, .. })
    ));
    disk.store
        .remove_owner(&id, SegmentOwnerKind::OperatorPin, &owner)
        .expect("remove owner");
    disk.delete_unowned(&id).expect("delete unowned segment");
    assert!(disk.store.segment(&id).is_none());
}

#[test]
fn initial_ownership_commits_atomically_with_segment() {
    let mut disk = Disk::new(test_config());
    let expected = frames(13, 14);
    let mut writing = disk
        .begin(
            "atomically-owned",
            descriptor(&expected),
            Compression::Uncompressed,
            reservation(),
            RawHistoryProfile::ProcessorReuse,
            RawHistoryIndexPolicy::default(),
        )
        .expect("begin segment");
    for frame in &expected {
        writing.append(frame).expect("append frame");
    }
    let claim = SegmentOwnerClaim {
        kind: SegmentOwnerKind::OperatorPin,
        owner_id: "pin:atomic".to_owned(),
    };
    let record = disk
        .finish(writing, &[claim.clone(), claim])
        .expect("commit segment and deduplicated owner");
    let owners = disk.store.owners(&record.metadata.id);
    assert_eq!(owners.len(), 1);
    assert_eq!(owners[0].owner_id, "pin:atomic");
}

#[test]
fn reservations_admit_before_open_and_release_on_abort() {
    let config = HistoryStoreConfig::new("history".to_owned()).with_budget(StorageBudget {
        maximum_logical_bytes: 1_500,
        maximum_physical_bytes: 8 * 1024 * 1024,
        maximum_frame_logical_bytes: 500,
        maximum_segment_logical_bytes: 1_000,
        maximum_segment_physical_bytes: 1024 * 1024,
    });
    let mut disk = Disk::new(config);
    let small = SegmentReservation::new(1_000, 1024 * 1024);
    let frame_a = frames(1, 1);
    let pending = disk
        .begin(
            "reservation-a",
            descriptor(&frame_a),
            Compression::Uncompressed,
            small,
            RawHistoryProfile::ProcessorReuse,
            RawHistoryIndexPolicy::default(),
        )
        .expect("first reservation");
    let frame_b = frames(2, 2);
    let rejected = disk.begin(
        "reservation-b",
        descriptor(&frame_b),
        Compression::Uncompressed,
        small,
        RawHistoryProfile::ProcessorReuse,
        RawHistoryIndexPolicy::default(),
    );
    assert!(matches!(
        rejected,
        Err(HistoryStoreError::LogicalBudget { limit: 1_500, observed: 2_000 })
    ));
    assert!(pending.pending.abort(&mut disk.store));
    let admitted = disk
        .begin(
            "reservation-b",
            descriptor(&frame_b),
            Compression::Uncompressed,
            small,
            RawHistoryProfile::ProcessorReuse,
            RawHistoryIndexPolicy::default(),
        )
        .expect("reservation after release");
    assert!(admitted.pending.abort(&mut disk.store));
    assert_eq!(disk.stats().reserved_logical_bytes, 0);
}

#[test]
fn restart_removes_partial_files_and_stale_reservations() {
    let mut disk = Disk::new(test_config());
    let expected = frames(20, 22);
    let mut writing = disk
        .begin(
            "partial-crash",
            descriptor(&expected),
            Compression::Uncompressed,
            reservation(),
            RawHistoryProfile::ProcessorReuse,
            RawHistoryIndexPolicy::default(),
        )
        .expect("begin segment");
    writing.append(&expected[0]).expect("append frame");
    disk.crash("partial-crash", writing);

    let report = disk.restart().expect("recover store");
    assert_eq!(report.cleared_reservations, 1);
    assert_eq!(report.removed_partial_files, 2);
    assert!(disk.store.segments().is_empty());
    assert!(disk.files.is_empty());
}

#[test]
fn close_before_catalog_commit_is_quarantined_on_restart() {
    let mut disk = Disk::new(test_config());
    let expected = frames(30, 32);
    let mut writing = disk
        .begin(
            "orphan-crash",
            descriptor(&expected),
            Compression::Uncompressed,
            reservation(),
            RawHistoryProfile::ProcessorReuse,
            RawHistoryIndexPolicy::default(),
        )
        .expect("begin segment");
    for frame in &expected {
        writing.append(frame).expect("append frame");
    }
    let Writing { pending, mut file, index } = writing;
    let closed = pending.writer.finish(&index).expect("close before catalog commit");
    file.extend_from_slice(&closed.closing);
    disk.files.insert("orphan-crash.idxraw".to_owned(), file);

    let recovery = disk.restart().expect("recover store");
    assert_eq!(recovery.cleared_reservations, 1);
    assert_eq!(recovery.quarantined_closed_files, 1);
    assert_eq!(recovery.quarantined_corrupt_files, 0);
    assert!(disk.store.segments().is_empty());
    assert!(disk.stats().quarantine_physical_bytes > 0);
    assert!(disk.quarantine.contains_key("orphan-crash.idxraw.orphan"));
}

#[test]
fn recovery_sets_unreadable_and_repeated_orphans_aside() {
    let mut disk = Disk::new(test_config());
    disk.publish("kept", &frames(1, 2));
    disk.quarantine.insert("junk.idxraw.corrupt".to_owned(), Vec::new());
    disk.files.insert("junk.idxraw".to_owned(), vec![1, 2, 3]);
    disk.files.insert("stray.partial".to_owned(), vec![0]);
    disk.files.insert("notes.txt".to_owned(), vec![0]);
    let report = disk.restart().expect("recover");
    assert_eq!(report.cleared_reservations, 0);
    assert_eq!(report.removed_partial_files, 1);
    assert_eq!(report.quarantined_closed_files, 1);
    assert_eq!(report.quarantined_corrupt_files, 1);
    assert!(disk.quarantine.contains_key("junk.idxraw.corrupt.1"));
    assert!(disk.files.contains_key("kept.idxraw"));
    assert!(disk.files.contains_key("notes.txt"));
    assert_eq!(disk.restart().expect("again"), RecoveryReport::default());
}

#[test]
fn corrupt_catalogued_segment_prevents_store_reopen() {
    let mut disk = Disk::new(test_config());
    let record = disk.publish("catalog-corrupt", &frames(40, 42));
    let name = file_name(&record.relative_path).expect("file name");
    disk.files.get_mut(&name).expect("segment file")[81] = 0xaa;
    assert!(matches!(
        disk.restart(),
        Err(HistoryStoreError::CatalogIntegrity(CatalogProblem::FailedValidation(
            _,
            SegmentError::ContentChecksum
        )))
    ));
}

#[test]
fn missing_catalogued_segment_prevents_store_reopen() {
    let mut disk = Disk::new(test_config());
    let record = disk.publish("catalog-missing", &frames(50, 52));
    disk.files.remove(&file_name(&record.relative_path).expect("file name"));
    assert!(matches!(
        disk.restart(),
        Err(HistoryStoreError::CatalogIntegrity(CatalogProblem::MissingFile(_)))
    ));
}

#[test]
fn restart_completes_interrupted_unowned_deletion() {
    let mut disk = Disk::new(test_config());
    let record = disk.publish("deleting-crash", &frames(60, 62));
    disk.store.delete_unowned(&record.metadata.id).expect("mark deleting");

    let report = disk.restart().expect("finish deletion");
    assert_eq!(report.completed_deletions, 1);
    assert!(disk.files.is_empty());
    assert!(disk.store.segments().is_empty());
}

#[test]
fn a_record_reads_back_from_its_row() {
    let mut disk = Disk::new(test_config());
    let record = disk.publish_as(
        "row",
        &frames(1, 3),
        descriptor(&frames(1, 3)),
        RawHistoryProfile::PostMergeExecutionRpc { merge_block: BlockNumber(1) },
        RawHistoryIndexPolicy { block_hash: true, transaction_hash: false, logs: false },
        &[],
    );
    assert_eq!(record.relative_path, "segments/row.idxraw");
    let row = SegmentRow::encode(&record).expect("encode");
    assert_eq!(row.history_profile, 1);
    assert_eq!(row.merge_block, Some(1));
    assert_eq!(row.format_version, 1);
    let back = row.decode().expect("decode");
    assert!(back.metadata.same(&record.metadata));
    assert_eq!(back.profile, record.profile);
    assert_eq!(back.indexes, record.indexes);
    let mut row = SegmentRow::encode(&record).expect("encode");
    row.history_profile = 7;
    assert!(matches!(
        row.decode(),
        Err(HistoryStoreError::CatalogIntegrity(CatalogProblem::UnknownProfile(7)))
    ));
}

#[test]
fn admission_refuses_what_does_not_fit() {
    let mut disk = Disk::new(test_config());
    let held = frames(1, 1);
    let mut begin = |id: &str, reservation, indexes| {
        disk.begin(
            id,
            descriptor(&held),
            Compression::Uncompressed,
            reservation,
            RawHistoryProfile::ProcessorReuse,
            indexes,
        )
        .err()
    };
    assert!(matches!(
        begin("zero", SegmentReservation::new(0, 1), RawHistoryIndexPolicy::default()),
        Some(HistoryStoreError::InvalidReservation)
    ));
    assert!(matches!(
        begin(
            "logs",
            SegmentReservation::new(1, 1),
            RawHistoryIndexPolicy { block_hash: false, transaction_hash: false, logs: true }
        ),
        Some(HistoryStoreError::InvalidJob(_))
    ));
    disk.publish("taken", &held);
    assert!(matches!(
        disk.begin(
            "taken",
            descriptor(&held),
            Compression::Uncompressed,
            reservation(),
            RawHistoryProfile::ProcessorReuse,
            RawHistoryIndexPolicy::default(),
        )
        .err(),
        Some(HistoryStoreError::PathCollision(_))
    ));
    assert!(matches!(
        disk.delete_unowned(&segment("unknown")),
        Err(HistoryStoreError::UnknownSegment(_))
    ));
    assert!(matches!(
        HistoryStore::open(&HistoryStoreConfig::new("h".to_owned()).with_budget(StorageBudget {
            maximum_logical_bytes: 0,
            ..StorageBudget::default()
        })),
        Err(HistoryStoreError::InvalidConfig(_))
    ));
}

// Jobs.

fn execution_rpc_frame(number: BlockNumber) -> BlockFrame {
    let header = alloy_consensus::Header {
        number: number.0,
        timestamp: 1_700_000_000 + number.0,
        base_fee_per_gas: Some(1),
        ..Default::default()
    };
    let mut frame = fixture_frame(number.0, BlockHash(header.parent_hash.0));
    let rlp = alloy_rlp::encode(&header);
    frame.block.hash = BlockHash(header.hash_slow().0);
    frame.header = Material::Complete(HeaderEnvelope {
        transactions_root: Some(BlockHash(header.transactions_root.0)),
        receipts_root: Some(BlockHash(header.receipts_root.0)),
        withdrawals_root: header.withdrawals_root.map(|hash| BlockHash(hash.0)),
        gas_limit: Some(header.gas_limit),
        gas_used: Some(header.gas_used),
        base_fee_per_gas: header.base_fee_per_gas.map(Quantity::of),
        blob_gas_used: header.blob_gas_used,
        excess_blob_gas: header.excess_blob_gas,
        size_bytes: Some(rlp.len() as u64),
        transaction_count: Some(0),
        consensus_size_bytes: None,
        rlp: Some(rlp),
    });
    frame
}

fn spec(ranges: Vec<BlockRange>) -> RawHistoryJobSpec {
    RawHistoryJobSpec {
        chain_id: ChainId(1),
        ranges,
        profile: RawHistoryProfile::ProcessorReuse,
        material: RawHistoryMaterialProfile::default(),
        required_capabilities: CapabilitySet::of(Capability::Transactions),
        verification: VerificationClass::TrustedDataset,
        minimum_trust: TrustModel::TrustedDataset,
        source_policy_digest: [0x99; 32],
        retention: RawHistoryRetention::Full,
        segment: RawHistorySegmentPolicy {
            target_blocks: 3,
            maximum_logical_bytes: 1024 * 1024,
            maximum_physical_bytes: 1024 * 1024,
            compression: Compression::Snappy,
            on_limit: StorageLimitAction::Pause,
        },
        indexes: RawHistoryIndexPolicy::default(),
    }
}

fn execution_capabilities() -> CapabilitySet {
    CapabilitySet::none()
        .with(Capability::Header)
        .with(Capability::Transactions)
        .with(Capability::Receipts)
}

fn job_frames(start: u64, end: u64) -> Vec<BlockFrame> {
    frames_from(0x61, start, end)
}

fn held<'a>(disk: &'a Disk, id: &RawHistoryJobId) -> &'a RawHistoryJob {
    disk.store.raw_history_job(id).expect("present")
}

fn commit_range(disk: &mut Disk, job: &RawHistoryJobId, id: &str, frames: &[BlockFrame]) {
    disk.publish_as(
        id,
        frames,
        execution_descriptor(frames),
        RawHistoryProfile::ProcessorReuse,
        RawHistoryIndexPolicy::default(),
        &[SegmentOwnerClaim {
            kind: SegmentOwnerKind::RawHistoryJob,
            owner_id: job.as_str().to_owned(),
        }],
    );
}

#[test]
fn raw_material_identity_includes_optional_log_fields() {
    let complete = RawHistoryMaterialProfile::default();
    let mut slim = complete.clone();
    slim.log_fields = LogFieldSet::none();
    assert_ne!(complete.shape_id(), slim.shape_id());
    assert_eq!(complete.shape_id(), RawHistoryMaterialProfile::default().shape_id());
    assert_eq!(complete.encode(), RawHistoryMaterialProfile::default().encode());
}

#[test]
fn creation_normalizes_ranges_and_is_idempotent_by_identity() {
    let mut disk = Disk::new(test_config());
    let requested = spec(vec![range(10, 20), range(1, 5), range(6, 9)]);
    let first_id = job_id("normalized-job");
    let created = disk
        .store
        .create_raw_history_job(first_id.clone(), requested.clone(), NOW)
        .expect("create");
    let first = created;
    assert_eq!(held(&disk, &first_id).identity, first.identity);
    assert_eq!(first.spec.ranges, vec![range(1, 20)]);
    assert_eq!(first.remaining_ranges, first.spec.ranges);
    assert_eq!(first.state, RawHistoryJobState::Queued);
    let identity = first.identity;
    let mut conflicting = first.spec.clone();

    let same = disk
        .store
        .create_raw_history_job(first_id.clone(), requested.clone(), NOW)
        .expect("same ID and identity");
    assert_eq!(same.identity, identity);
    let alias = disk
        .store
        .create_raw_history_job(job_id("idempotent-alias"), requested, NOW)
        .expect("same identity");
    assert!(alias.id.same(&first_id));
    let listed = disk.store.raw_history_jobs();
    assert_eq!(listed.len(), 1);
    assert_eq!(listed[0].identity, identity);

    conflicting.source_policy_digest = [0x01; 32];
    assert!(matches!(
        disk.store.create_raw_history_job(first_id, conflicting, NOW),
        Err(HistoryStoreError::JobConflict(_))
    ));
}

#[test]
fn post_merge_execution_profile_rejects_pre_merge_ranges() {
    let mut disk = Disk::new(test_config());
    let mut requested = spec(vec![range(15_537_393, 15_537_395)]);
    requested.profile =
        RawHistoryProfile::PostMergeExecutionRpc { merge_block: BlockNumber(15_537_394) };
    requested.required_capabilities = execution_capabilities();
    match disk.store.create_raw_history_job(job_id("pre-merge-rpc"), requested, NOW) {
        Err(HistoryStoreError::InvalidJob(problem)) => {
            assert!(problem.message().contains("starts at Merge block 15537394"));
        }
        other => panic!("pre-Merge range must be rejected: {other:?}"),
    }
}

#[test]
fn post_merge_execution_profile_accepts_exact_minimum_material() {
    let mut disk = Disk::new(test_config());
    let mut requested = spec(vec![range(15_537_394, 15_537_395)]);
    requested.profile =
        RawHistoryProfile::PostMergeExecutionRpc { merge_block: BlockNumber(15_537_394) };
    requested.required_capabilities = execution_capabilities();
    let job = disk
        .store
        .create_raw_history_job(job_id("post-merge-rpc"), requested, NOW)
        .expect("post-Merge execution profile");
    assert_eq!(job.state, RawHistoryJobState::Queued);
}

#[test]
fn post_merge_execution_profile_requires_rpc_reconstructable_frame_fields() {
    let merge = BlockNumber(15_537_394);
    let mut requested = spec(vec![BlockRange::single(merge)]);
    requested.profile = RawHistoryProfile::PostMergeExecutionRpc { merge_block: merge };
    requested.required_capabilities = execution_capabilities();
    let mut frame = execution_rpc_frame(merge);
    assert!(requested.validate_frame_profile(&frame).is_ok());
    let Material::Complete(header) = &mut frame.header else {
        panic!("complete header")
    };
    header.rlp = None;
    assert_eq!(
        requested.validate_frame_profile(&frame),
        Err("execution-RPC frame lacks required canonical header fields")
    );
}

#[test]
fn execution_frames_are_held_against_their_header() {
    let merge = BlockNumber(15_537_394);
    let mut requested = spec(vec![BlockRange::single(merge)]);
    requested.profile = RawHistoryProfile::PostMergeExecutionRpc { merge_block: merge };
    let mut frame = execution_rpc_frame(merge);
    frame.block.hash = BlockHash([1; 32]);
    assert!(requested.validate_frame_profile(&frame).is_err());
    let mut frame = execution_rpc_frame(merge);
    if let Material::Complete(header) = &mut frame.header {
        header.rlp = Some(vec![0xc0]);
    }
    assert!(requested.validate_frame_profile(&frame).is_err());
    let mut frame = execution_rpc_frame(merge);
    frame.transactions = Material::Missing(MissingReason::NotRequested);
    assert!(requested.validate_frame_profile(&frame).is_err());
    requested.profile = RawHistoryProfile::ProcessorReuse;
    assert!(requested.validate_frame_profile(&frame).is_ok());
}

#[test]
fn compatible_reuse_requires_the_requested_locator_policy() {
    let mut disk = Disk::new(test_config());
    let expected = job_frames(80, 81);
    disk.publish_as(
        "unindexed-reuse",
        &expected,
        execution_descriptor(&expected),
        RawHistoryProfile::ProcessorReuse,
        RawHistoryIndexPolicy::default(),
        &[],
    );
    let id = job_id("indexed-reuse-job");
    let mut requested = spec(vec![range(80, 81)]);
    requested.indexes.block_hash = true;
    disk.store
        .create_raw_history_job(id.clone(), requested, NOW)
        .expect("create indexed job");
    assert_eq!(
        disk.store
            .claim_compatible_segments_for_raw_history_job(&id, NOW)
            .expect("claim compatible"),
        0
    );
    assert_eq!(held(&disk, &id).remaining_ranges, vec![range(80, 81)]);
}

#[test]
fn exact_rpc_job_does_not_claim_processor_reuse_segments() {
    let mut disk = Disk::new(test_config());
    let merge = BlockNumber(15_537_394);
    let frame = vec![execution_rpc_frame(merge)];
    disk.publish_as(
        "processor-only-rpc-shape",
        &frame,
        execution_descriptor(&frame),
        RawHistoryProfile::ProcessorReuse,
        LOCATORS,
        &[],
    );
    let id = job_id("exact-rpc-reuse-job");
    let mut requested = spec(vec![BlockRange::single(merge)]);
    requested.profile = RawHistoryProfile::PostMergeExecutionRpc { merge_block: merge };
    requested.required_capabilities = execution_capabilities();
    requested.indexes = LOCATORS;
    disk.store
        .create_raw_history_job(id.clone(), requested, NOW)
        .expect("create exact job");
    assert_eq!(
        disk.store
            .claim_compatible_segments_for_raw_history_job(&id, NOW)
            .expect("claim compatible"),
        0
    );
    disk.publish_as(
        "certified-rpc-shape",
        &frame,
        execution_descriptor(&frame),
        RawHistoryProfile::PostMergeExecutionRpc { merge_block: merge },
        LOCATORS,
        &[],
    );
    assert_eq!(
        disk.store
            .claim_compatible_segments_for_raw_history_job(&id, NOW)
            .expect("claim certified segment"),
        1
    );
}

#[test]
fn owned_segment_commits_advance_gaps_and_complete_atomically() {
    let mut disk = Disk::new(test_config());
    let id = job_id("coverage-job");
    disk.store
        .create_raw_history_job(id.clone(), spec(vec![range(100, 105)]), NOW)
        .expect("create job");
    let started = disk.store.start_raw_history_job(&id, NOW).expect("start job");
    assert_eq!(started.attempts, 1);
    assert_eq!(held(&disk, &id).attempts, 1);
    commit_range(&mut disk, &id, "coverage-a", &job_frames(100, 102));
    let partial = held(&disk, &id);
    assert_eq!(partial.state, RawHistoryJobState::Running);
    assert_eq!(partial.committed_segments, 1);
    assert_eq!(partial.remaining_ranges, vec![range(103, 105)]);
    commit_range(&mut disk, &id, "coverage-b", &job_frames(103, 105));
    let complete = held(&disk, &id);
    assert_eq!(complete.state, RawHistoryJobState::Complete);
    assert!(complete.remaining_ranges.is_empty());
    assert_eq!(complete.committed_segments, 2);
    assert!(complete.committed_logical_bytes > 0);

    let deletion = disk.store.delete_raw_history_job(&id).expect("delete terminal job");
    assert_eq!(deletion.jobs, 1);
    assert_eq!(deletion.ranges, 1);
    assert_eq!(deletion.owners, 2);
    assert_eq!(deletion.released_segments.len(), 2);
    assert_eq!(disk.store.segments().len(), 2);
}

#[test]
fn restart_reconciles_progress_and_preserves_cancelled_state() {
    let mut disk = Disk::new(test_config());
    let id = job_id("restart-job");
    disk.store
        .create_raw_history_job(id.clone(), spec(vec![range(200, 202)]), NOW)
        .expect("create");
    disk.store.start_raw_history_job(&id, NOW).expect("start");
    commit_range(&mut disk, &id, "restart-coverage", &job_frames(200, 202));
    let stale = &mut disk.store.jobs[0];
    stale.state = RawHistoryJobState::Running;
    stale.committed_segments = 0;
    stale.committed_logical_bytes = 0;
    stale.committed_physical_bytes = 0;

    disk.restart().expect("reopen");
    let reconciled = held(&disk, &id);
    assert_eq!(reconciled.state, RawHistoryJobState::Complete);
    assert_eq!(reconciled.committed_segments, 1);

    let cancelled_id = job_id("cancelled-job");
    disk.store
        .create_raw_history_job(cancelled_id.clone(), spec(vec![range(300, 302)]), NOW)
        .expect("create cancelled");
    let cancelled = disk.store.cancel_raw_history_job(&cancelled_id, NOW).expect("cancel");
    assert_eq!(cancelled.state, RawHistoryJobState::Cancelled);
    assert_eq!(held(&disk, &cancelled_id).state, RawHistoryJobState::Cancelled);
    let again = disk.store.cancel_raw_history_job(&cancelled_id, NOW).expect("idempotent cancel");
    assert_eq!(again.state, RawHistoryJobState::Cancelled);
    assert_eq!(held(&disk, &cancelled_id).state, RawHistoryJobState::Cancelled);
}

#[test]
fn incompatible_raw_job_owner_fails_before_publication_and_releases_capacity() {
    let mut disk = Disk::new(test_config());
    let id = job_id("shape-job");
    disk.store
        .create_raw_history_job(id.clone(), spec(vec![range(400, 400)]), NOW)
        .expect("create");
    disk.store.start_raw_history_job(&id, NOW).expect("start");
    let expected = job_frames(400, 400);
    let mut wrong = execution_descriptor(&expected);
    wrong.material_shape = MaterialShapeId([0xff; 32]);
    let mut writing = disk
        .begin(
            "wrong-shape",
            wrong,
            Compression::Uncompressed,
            reservation(),
            RawHistoryProfile::ProcessorReuse,
            RawHistoryIndexPolicy::default(),
        )
        .expect("begin");
    writing.append(&expected[0]).expect("append");
    assert!(matches!(
        disk.finish(
            writing,
            &[SegmentOwnerClaim {
                kind: SegmentOwnerKind::RawHistoryJob,
                owner_id: id.as_str().to_owned(),
            }]
        ),
        Err(HistoryStoreError::InvalidJob(JobProblem::Incompatible(_)))
    ));
    let stats = disk.stats();
    assert_eq!(stats.reserved_logical_bytes, 0);
    assert_eq!(stats.temporary_physical_bytes, 0);
    assert!(disk.store.segments().is_empty());
}

#[test]
fn jobs_move_only_along_their_lifecycle() {
    let mut disk = Disk::new(test_config());
    let id = job_id("lifecycle");
    assert!(matches!(
        disk.store.start_raw_history_job(&id, NOW),
        Err(HistoryStoreError::UnknownJob(_))
    ));
    disk.store
        .create_raw_history_job(id.clone(), spec(vec![range(1, 2)]), NOW)
        .expect("create");
    disk.store.start_raw_history_job(&id, NOW).expect("start");
    let paused = disk
        .store
        .backpressure_raw_history_job(&id, "full".to_owned(), NOW)
        .expect("backpressure");
    assert_eq!(paused.state, RawHistoryJobState::StorageBackpressured);
    assert_eq!(paused.last_error.as_deref(), Some("full"));
    assert_eq!(paused.attempts, 1);
    assert_eq!(held(&disk, &id).state, RawHistoryJobState::StorageBackpressured);
    assert_eq!(held(&disk, &id).last_error.as_deref(), Some("full"));
    assert!(matches!(
        disk.store.delete_raw_history_job(&id),
        Err(HistoryStoreError::JobState { .. })
    ));
    let failed = disk.store.fail_raw_history_job(&id, "broken".to_owned(), NOW).expect("fail");
    assert_eq!(failed.state, RawHistoryJobState::Failed);
    assert_eq!(failed.last_error.as_deref(), Some("broken"));
    assert_eq!(held(&disk, &id).state, RawHistoryJobState::Failed);
    assert!(matches!(
        disk.store.start_raw_history_job(&id, NOW),
        Err(HistoryStoreError::JobState { state: "failed", .. })
    ));
    assert_eq!(disk.store.delete_raw_history_job(&id).expect("delete").ranges, 1);
    assert!(disk.store.raw_history_job(&id).is_none());
    assert!(RawHistoryJobId::new("bad id".to_owned()).is_err());
}

// The runner.

fn runner_spec(range: BlockRange, digest: [u8; 32]) -> RawHistoryJobSpec {
    let mut requested = spec(vec![range]);
    requested.required_capabilities =
        CapabilitySet::of(Capability::Transactions).with(Capability::Receipts);
    requested.verification = VerificationClass::Cryptographic;
    requested.minimum_trust = TrustModel::ProtocolVerified;
    requested.source_policy_digest = digest;
    requested
}

fn source_set(descriptor: &SourceDescriptor) -> RawHistorySourceSet {
    RawHistorySourceSet::new(vec![SourceEntry {
        id: descriptor.id.clone(),
        priority: descriptor.priority,
        schema_version: descriptor.schema_version.clone(),
        acquisition_identity: Vec::new(),
        chain_id: descriptor.chain_id,
        finality: descriptor.finality,
        complete_capabilities: descriptor.complete_capabilities,
        trust: descriptor.trust,
    }])
    .expect("source set")
}

fn scripted(frames: Vec<BlockFrame>) -> Vec<ScriptedFrame> {
    frames
        .into_iter()
        .map(|frame| ScriptedFrame {
            heap_bytes: encode(&frame).len() as u64,
            frame,
            shape_problem: None,
        })
        .collect()
}

fn acquire(
    disk: &mut Disk,
    runner: &RawHistoryRunner,
    source: &mut ScriptedHistorySource,
    id: &RawHistoryJobId,
    range: BlockRange,
    cancelled: bool,
) -> Result<(), AcquireError> {
    let request = segment_request(&held(disk, id).spec, range);
    let mut attempts = Attempts::new();
    for entry in runner.sources.sources() {
        if cancelled {
            return Err(AcquireError::Interrupted);
        }
        if !source_is_compatible(entry, &held(disk, id).spec) {
            attempts.note(&entry.id, SourceProblem::IncompatibleDescriptor);
            continue;
        }
        let plan = match source.plan(&request) {
            Ok(plan) => plan,
            Err(error) => {
                attempts.note(&entry.id, SourceProblem::Error(error));
                continue;
            }
        };
        if !plan_is_complete(plan.complete, plan.trust, &held(disk, id).spec) {
            attempts.note(&entry.id, SourceProblem::IncompletePlan);
            continue;
        }
        let acquisition = SegmentAcquisition::new(held(disk, id), &entry.id, range, plan.trust);
        match stream(disk, runner, source, acquisition, plan.chunks, cancelled) {
            Ok(()) => return Ok(()),
            Err(error) => {
                if let Some(ended) = attempts.absorb(error) {
                    return Err(ended);
                }
            }
        }
    }
    Err(attempts.exhausted())
}

fn stream(
    disk: &mut Disk,
    runner: &RawHistoryRunner,
    source: &mut ScriptedHistorySource,
    mut acquisition: SegmentAcquisition,
    chunks: Vec<leani_history::request::SourceChunk>,
    cancelled: bool,
) -> Result<(), AcquireError> {
    let mut file = Vec::new();
    let mut index = Vec::new();
    for chunk in &chunks {
        let mut script = match source.open(chunk, runner.source_budget) {
            Ok(script) => script,
            Err(error) => return Err(acquisition.on_source_error(&mut disk.store, error)),
        };
        loop {
            let steps = &source.chunks[script.chunk].steps;
            match script.next(steps, cancelled) {
                ScriptEvent::Finished => break,
                ScriptEvent::Wait(_) => {}
                ScriptEvent::Failed(error) => {
                    return Err(acquisition.on_source_error(&mut disk.store, error));
                }
                ScriptEvent::Raise(at) => {
                    let error = match &steps[at] {
                        HistoryStep::Error(SourceError::Unavailable(reason)) => {
                            SourceError::Unavailable(reason.clone())
                        }
                        _ => SourceError::Cancelled,
                    };
                    return Err(acquisition.on_source_error(&mut disk.store, error));
                }
                ScriptEvent::Deliver(at) => {
                    let HistoryStep::Frame(delivered) = &steps[at] else {
                        panic!("a frame is delivered");
                    };
                    let usage = disk.usage(&acquisition.segment_id);
                    let record = acquisition.on_frame(
                        &mut disk.store,
                        &delivered.frame,
                        delivered.shape_problem,
                        &encode(&delivered.frame),
                        usage,
                        cancelled,
                        NOW,
                    )?;
                    if file.is_empty() {
                        let pending = acquisition.pending.as_ref().expect("open segment");
                        file = pending.writer.header();
                    }
                    file.extend_from_slice(&record.stored);
                    index.extend_from_slice(&record.entry);
                }
            }
        }
    }
    let published = acquisition
        .finish(&mut disk.store, &index, NOW)
        .map_err(|failure| failure.error)?;
    file.extend_from_slice(&published.closing);
    disk.files.insert(file_name(&published.record.relative_path).expect("name"), file);
    Ok(())
}

fn run(
    disk: &mut Disk,
    runner: &mut RawHistoryRunner,
    source: &mut ScriptedHistorySource,
    id: &RawHistoryJobId,
    cancelled: bool,
) -> Result<RawHistoryRunOutcome, RawHistoryRunError> {
    runner.enter(id)?;
    let outcome = run_exclusive(disk, runner, source, id, cancelled);
    runner.leave(id);
    outcome
}

fn run_exclusive(
    disk: &mut Disk,
    runner: &RawHistoryRunner,
    source: &mut ScriptedHistorySource,
    id: &RawHistoryJobId,
    cancelled: bool,
) -> Result<RawHistoryRunOutcome, RawHistoryRunError> {
    match disk.store.begin_run(id, runner.source_policy_digest(), NOW)? {
        RunStart::Complete(job) => return Ok(RawHistoryRunOutcome::Complete(job)),
        RunStart::Cancelled(job) => return Ok(RawHistoryRunOutcome::Cancelled(job)),
        RunStart::Started => {}
    }
    loop {
        let (remaining, mut blocks, on_limit) =
            match disk.store.next_step(id, runner.source_budget, cancelled, NOW)? {
                RunStep::Finish(outcome) => return Ok(outcome),
                RunStep::Acquire { remaining, blocks, on_limit } => (remaining, blocks, on_limit),
            };
        loop {
            let range = prefix(remaining, blocks).map_err(RawHistoryRunError::Store)?;
            let error = match acquire(disk, runner, source, id, range, cancelled) {
                Ok(()) => break,
                Err(error) => error,
            };
            match disk.store.settle_attempt(id, error, range, blocks, on_limit, NOW)? {
                AttemptStep::Retry { blocks: fewer } => blocks = fewer,
                AttemptStep::Finish(outcome) => return Ok(outcome),
            }
        }
    }
}

fn runner_frames(start: u64, end: u64) -> Vec<BlockFrame> {
    frames_from(0x72, start, end)
}

#[test]
fn completes_job_in_segments_and_exposes_reusable_local_coverage() {
    let mut disk = Disk::new(test_config());
    let range_held = range(100, 105);
    let mut source = ScriptedHistorySource::from_frames(
        fixture_source_descriptor("archive", range_held),
        scripted(runner_frames(100, 105)),
    );
    let sources = source_set(&source.descriptor);
    let id = job_id("raw-complete");
    disk.store
        .create_raw_history_job(id.clone(), runner_spec(range_held, sources.policy_digest()), NOW)
        .expect("create");
    let mut runner = RawHistoryRunner::new(sources, default_source_budget()).expect("runner");
    let outcome = run(&mut disk, &mut runner, &mut source, &id, false).expect("run");
    let RawHistoryRunOutcome::Complete(job) = outcome else {
        panic!("job must complete: {outcome:?}")
    };
    assert!(job.id.same(&id));
    assert_eq!(job.state, RawHistoryJobState::Complete);
    assert_eq!(job.committed_segments, 2);
    assert!(job.remaining_ranges.is_empty());
    assert_eq!(source.plan_calls(), 2);
    assert_eq!(source.open_calls(), 2);
    disk.restart().expect("the files are what the catalog says");

    let retained = RetainedHistorySource::new(
        RetainedHistorySourceConfig::local(
            ChainId(1),
            RawHistoryMaterialProfile::default().shape_id(),
            runner_frames(100, 100)[0].capabilities().complete,
            VerificationClass::Cryptographic,
            TrustModel::ProtocolVerified,
        )
        .expect("retained profile"),
    )
    .expect("retained source");
    let request = DataRequest {
        chain_id: ChainId(1),
        range: range_held,
        required: CapabilitySet::of(Capability::Transactions),
        allow_filtered: false,
        projection: FieldProjection::default(),
        log_fields: LogFieldSet::none(),
        filters: FilterSet::default(),
        minimum_finality: Finality::Finalized,
        verification_policy: VerificationPolicy::CompleteCryptographic,
    };
    let plan = retained.plan(&disk.store.segments(), &request).expect("retained plan");
    assert_eq!(plan.chunks.len(), 2);

    let second_id = job_id("raw-reuse");
    disk.store
        .create_raw_history_job(
            second_id.clone(),
            runner_spec(range(101, 104), runner.source_policy_digest()),
            NOW,
        )
        .expect("create reuse job");
    assert!(matches!(
        run(&mut disk, &mut runner, &mut source, &second_id, false)
            .expect("reuse retained material"),
        RawHistoryRunOutcome::Complete(_)
    ));
    assert_eq!(source.open_calls(), 2, "reuse must perform zero source opens");
}

#[test]
fn capability_fork_boundary_resizes_into_homogeneous_segments() {
    let mut disk = Disk::new(test_config());
    let mut all = runner_frames(120, 122);
    for frame in &mut all[1..] {
        frame.withdrawals = Material::Complete(Vec::new());
    }
    let held_range = range(120, 122);
    let mut descriptor = fixture_source_descriptor("fork-boundary", held_range);
    descriptor.capabilities = descriptor.capabilities.with(Capability::Withdrawals);
    descriptor.complete_capabilities =
        descriptor.complete_capabilities.with(Capability::Withdrawals);
    let mut source = ScriptedHistorySource::from_frames(descriptor, scripted(all));
    let sources = source_set(&source.descriptor);
    let id = job_id("raw-fork-boundary");
    disk.store
        .create_raw_history_job(id.clone(), runner_spec(held_range, sources.policy_digest()), NOW)
        .expect("create");
    let mut runner = RawHistoryRunner::new(sources, default_source_budget()).expect("runner");
    assert!(matches!(
        run(&mut disk, &mut runner, &mut source, &id, false).expect("run"),
        RawHistoryRunOutcome::Complete(_)
    ));
    let segments = disk.store.segments();
    assert_eq!(segments.len(), 2);
    assert_eq!(segments[0].metadata.descriptor.range, BlockRange::single(BlockNumber(120)));
    assert!(!segments[0]
        .metadata
        .descriptor
        .complete_capabilities
        .contains(Capability::Withdrawals));
    assert_eq!(segments[1].metadata.descriptor.range, range(121, 122));
    assert!(segments[1]
        .metadata
        .descriptor
        .complete_capabilities
        .contains(Capability::Withdrawals));
}

#[test]
fn interrupted_running_job_resumes_without_reacquiring_committed_segments() {
    let mut disk = Disk::new(test_config());
    let held_range = range(200, 204);
    let mut source = ScriptedHistorySource::from_frames(
        fixture_source_descriptor("restart-archive", held_range),
        scripted(runner_frames(200, 204)),
    );
    let sources = source_set(&source.descriptor);
    let id = job_id("raw-restart");
    disk.store
        .create_raw_history_job(id.clone(), runner_spec(held_range, sources.policy_digest()), NOW)
        .expect("create");
    let mut runner = RawHistoryRunner::new(sources, default_source_budget()).expect("runner");
    assert!(matches!(
        run(&mut disk, &mut runner, &mut source, &id, true).expect("interrupt"),
        RawHistoryRunOutcome::Interrupted(job) if job.state == RawHistoryJobState::Running
    ));
    assert_eq!(source.open_calls(), 0);
    assert!(matches!(
        run(&mut disk, &mut runner, &mut source, &id, false).expect("resume"),
        RawHistoryRunOutcome::Complete(_)
    ));
    assert_eq!(held(&disk, &id).attempts, 2);
    assert_eq!(source.open_calls(), 2);
}

#[test]
fn changed_source_policy_fails_before_opening_a_source() {
    let mut disk = Disk::new(test_config());
    let held_range = range(300, 300);
    let mut source = ScriptedHistorySource::from_frames(
        fixture_source_descriptor("policy-archive", held_range),
        scripted(runner_frames(300, 300)),
    );
    let sources = source_set(&source.descriptor);
    let id = job_id("raw-policy");
    disk.store
        .create_raw_history_job(id.clone(), runner_spec(held_range, [0x99; 32]), NOW)
        .expect("create");
    let mut runner = RawHistoryRunner::new(sources, default_source_budget()).expect("runner");
    assert!(matches!(
        run(&mut disk, &mut runner, &mut source, &id, false),
        Err(RawHistoryRunError::SourcePolicyChanged { .. })
    ));
    assert_eq!(source.open_calls(), 0);
    assert_eq!(held(&disk, &id).state, RawHistoryJobState::Failed);
    let configured: String =
        runner.source_policy_digest().iter().map(|byte| format!("{byte:02x}")).collect();
    assert_eq!(
        held(&disk, &id).last_error,
        Some(format!(
            "raw-history job source policy changed: expected {}, configured {configured}",
            "99".repeat(32)
        ))
    );
}

#[test]
fn transient_source_outage_leaves_job_running_for_supervisor_retry() {
    let mut disk = Disk::new(test_config());
    let held_range = range(400, 400);
    let descriptor = fixture_source_descriptor("temporary-outage", held_range);
    let chunk = ScriptedChunk {
        range: held_range,
        schema_version: descriptor.schema_version.clone(),
        estimated_bytes: None,
        steps: vec![HistoryStep::Error(SourceError::Unavailable("maintenance".to_owned()))],
    };
    let mut source = ScriptedHistorySource::new(descriptor, vec![chunk]);
    let sources = source_set(&source.descriptor);
    let id = job_id("raw-transient");
    disk.store
        .create_raw_history_job(id.clone(), runner_spec(held_range, sources.policy_digest()), NOW)
        .expect("create");
    let mut runner = RawHistoryRunner::new(sources, default_source_budget()).expect("runner");
    assert!(matches!(
        run(&mut disk, &mut runner, &mut source, &id, false),
        Err(RawHistoryRunError::SourcesUnavailable { .. })
    ));
    assert_eq!(held(&disk, &id).state, RawHistoryJobState::Running);
}

#[test]
fn a_job_runs_at_most_once_at_a_time() {
    let descriptor = fixture_source_descriptor("one", range(1, 1));
    let mut runner =
        RawHistoryRunner::new(source_set(&descriptor), default_source_budget()).expect("runner");
    let id = job_id("single");
    runner.enter(&id).expect("first");
    assert!(matches!(
        runner.enter(&id),
        Err(RawHistoryRunError::ConcurrentRun(name)) if name == "single"
    ));
    runner.leave(&id);
    runner.enter(&id).expect("again");
    assert!(matches!(
        RawHistorySourceSet::new(Vec::new()),
        Err(RawHistoryRunError::InvalidSourceSet(_))
    ));
}

#[test]
fn attempts_decide_what_a_run_does() {
    let asked = range(1, 5);
    assert!(matches!(
        decide_after_attempt(AcquireError::Resize, asked, 5, StorageLimitAction::Pause),
        AttemptDecision::Retry { blocks: 3 }
    ));
    assert!(matches!(
        decide_after_attempt(AcquireError::Resize, asked, 1, StorageLimitAction::Pause),
        AttemptDecision::Fail(RawHistoryRunError::Store(HistoryStoreError::InvalidJob(
            JobProblem::BlockTooLarge { .. }
        )))
    ));
    let limit = || {
        AcquireError::Store(HistoryStoreError::LogicalBudget { limit: 1, observed: 2 })
    };
    assert!(matches!(
        decide_after_attempt(limit(), asked, 5, StorageLimitAction::Pause),
        AttemptDecision::Backpressure(_)
    ));
    assert!(matches!(
        decide_after_attempt(limit(), asked, 5, StorageLimitAction::Fail),
        AttemptDecision::Fail(_)
    ));
    assert_eq!(prefix(asked, 2).expect("prefix"), range(1, 2));
}

// The retained source.

fn retained_frames(start: u64, end: u64) -> Vec<BlockFrame> {
    frames_from(0x31, start, end)
}

fn retain(disk: &mut Disk, id: &str, frames: &[BlockFrame]) {
    disk.publish_as(
        id,
        frames,
        execution_descriptor(frames),
        RawHistoryProfile::ProcessorReuse,
        RawHistoryIndexPolicy::default(),
        &[],
    );
}

fn retained_source(
    capabilities: CapabilitySet,
    verification: VerificationClass,
    trust: TrustModel,
) -> RetainedHistorySource {
    RetainedHistorySource::new(
        RetainedHistorySourceConfig::local(
            ChainId(1),
            MaterialShapeId::complete_execution(),
            capabilities,
            verification,
            trust,
        )
        .expect("profile"),
    )
    .expect("source")
}

fn request(range: BlockRange, required: CapabilitySet) -> DataRequest {
    let log_fields = if required.contains(Capability::Logs) {
        LogFieldSet::all()
    } else {
        LogFieldSet::none()
    };
    DataRequest {
        chain_id: ChainId(1),
        range,
        required,
        allow_filtered: false,
        projection: FieldProjection::default(),
        log_fields,
        filters: FilterSet::default(),
        minimum_finality: Finality::Finalized,
        verification_policy: VerificationPolicy::TrustedDataset,
    }
}

fn budget() -> SourceBudget {
    SourceBudget {
        max_input_bytes: 8 * 1024 * 1024,
        max_frame_bytes: 1024 * 1024,
        max_frames: 100,
        max_buffered_frames: 2,
        max_in_flight_requests: 1,
        temporary_disk_bytes: 0,
    }
}

#[test]
fn locator_lookups_return_validated_retained_frames() {
    let mut disk = Disk::new(test_config());
    let transaction_hash = TransactionHash([0xc1; 32]);
    let mut frame = fixture_frame(90, BlockHash([0x31; 32]));
    with_transaction(&mut frame, transaction_hash);
    let frame = vec![frame];
    disk.publish_as(
        "source-locators",
        &frame,
        execution_descriptor(&frame),
        RawHistoryProfile::ProcessorReuse,
        LOCATORS,
        &[],
    );
    let mut source = retained_source(
        frame[0].capabilities().complete,
        VerificationClass::TrustedDataset,
        TrustModel::TrustedDataset,
    );
    let required = CapabilitySet::of(Capability::Transactions);

    let located = source
        .block_lookup(&disk.store, ChainId(1), frame[0].block.hash, required)
        .expect("lookup")
        .expect("located block");
    let file = disk.file_of(&located.segment_id);
    let reader = disk.store.reader(&located.segment_id, file).expect("reader");
    let read = reader.read_block(file, located.block_number).expect("block");
    assert_eq!(read.logical, encode(&frame[0]));
    check_located_block(&frame[0], frame[0].block.hash).expect("same block");
    source.stats.located(read.stored_bytes_read, read.logical_bytes_read);

    let located = source
        .transaction_lookup(&disk.store, ChainId(1), transaction_hash, required)
        .expect("lookup")
        .expect("located transaction");
    assert_eq!(located.transaction_index, 0);
    let read = reader.read_block(file, located.block_number).expect("block");
    assert_eq!(read.logical, encode(&frame[0]));
    check_located_transaction(&frame[0], 0, transaction_hash).expect("same transaction");
    source.stats.located(read.stored_bytes_read, read.logical_bytes_read);
    assert_eq!(source.stats.locator_uses, 2);

    assert!(check_located_block(&frame[0], BlockHash([0; 32])).is_err());
    assert!(check_located_transaction(&frame[0], 1, transaction_hash).is_err());
    assert!(source
        .block_lookup(&disk.store, ChainId(2), frame[0].block.hash, required)
        .expect("lookup")
        .is_none());
}

#[test]
fn plans_adjacent_segments_and_streams_without_whole_segment_decode() {
    let mut disk = Disk::new(test_config());
    let all = retained_frames(1, 6);
    retain(&mut disk, "retained-a", &all[..3]);
    retain(&mut disk, "retained-b", &all[3..]);
    let mut source = retained_source(
        all[0].capabilities().complete,
        VerificationClass::TrustedDataset,
        TrustModel::TrustedDataset,
    );
    let request = request(range(2, 5), CapabilitySet::of(Capability::Transactions));
    let plan = source.plan(&disk.store.segments(), &request).expect("plan");
    assert_eq!(plan.chunks.len(), 2);
    assert_eq!(plan.chunks[0].range.start(), BlockNumber(2));
    assert_eq!(plan.chunks[1].range.end(), BlockNumber(5));
    let mut narrower = request.clone();
    narrower.allow_filtered = true;
    narrower.filters.scope.transaction_types = vec![3];
    assert_eq!(
        source
            .plan(&disk.store.segments(), &narrower)
            .expect("complete material contains narrower predicate")
            .chunks
            .len(),
        2
    );
    let mut observed = Vec::new();
    for chunk in &plan.chunks {
        let id = source.resolve_chunk(chunk, budget()).expect("resolve");
        let file = disk.file_of(&id);
        let reader = disk.store.reader(&id, file).expect("reader");
        let mut stream = source.open(reader.metadata(), chunk, budget()).expect("open");
        loop {
            match stream.step(false) {
                StreamStep::Read(block) => {
                    let read = reader.read_block(file, block).expect("frame");
                    stream
                        .accept(read.stored_bytes_read, read.logical_bytes_read, &mut source.stats)
                        .expect("within budget");
                    observed.push(read.logical);
                }
                StreamStep::Done => break,
                StreamStep::Cancelled => panic!("not cancelled"),
            }
        }
    }
    assert_eq!(observed, all[1..5].iter().map(encode).collect::<Vec<_>>());
    let stats = source.stats;
    assert_eq!(stats.segment_opens, 2);
    assert_eq!(stats.record_reads, 4);
    assert!(stats.stored_record_bytes > 0);
    assert!(stats.decompressed_bytes >= stats.stored_record_bytes);
    assert_eq!(stats.cache_hits, 0);
    assert_eq!(stats.locator_uses, 0);
}

#[test]
fn gaps_capabilities_and_trust_fail_before_open() {
    let mut disk = Disk::new(test_config());
    let all = retained_frames(10, 14);
    retain(&mut disk, "gap-a", &all[..2]);
    retain(&mut disk, "gap-b", &all[3..]);
    let capabilities = all[0].capabilities().complete;
    let source = retained_source(
        capabilities,
        VerificationClass::TrustedDataset,
        TrustModel::TrustedDataset,
    );
    let asked = range(10, 14);
    assert!(matches!(
        source.plan(
            &disk.store.segments(),
            &request(asked, CapabilitySet::of(Capability::Transactions))
        ),
        Err(SourceError::MissingMaterial { ref gaps, .. })
            if gaps == &vec![BlockRange::single(BlockNumber(12))]
    ));
    assert!(matches!(
        source.plan(
            &disk.store.segments(),
            &request(asked, CapabilitySet::of(Capability::BlobSidecars))
        ),
        Err(SourceError::MissingMaterial { .. })
    ));

    let stronger = retained_source(
        capabilities,
        VerificationClass::Cryptographic,
        TrustModel::ProtocolVerified,
    );
    let mut cryptographic = request(range(10, 11), CapabilitySet::of(Capability::Transactions));
    cryptographic.verification_policy = VerificationPolicy::CompleteCryptographic;
    assert!(matches!(
        stronger.plan(&disk.store.segments(), &cryptographic),
        Err(SourceError::MissingMaterial { .. })
    ));
    assert_eq!(stronger.stats.segment_opens, 0);
}

#[test]
fn open_enforces_frame_and_input_budgets() {
    let mut disk = Disk::new(test_config());
    let all = retained_frames(20, 21);
    retain(&mut disk, "budget", &all);
    let mut source = retained_source(
        all[0].capabilities().complete,
        VerificationClass::TrustedDataset,
        TrustModel::TrustedDataset,
    );
    let plan = source
        .plan(
            &disk.store.segments(),
            &request(range(20, 21), CapabilitySet::of(Capability::Transactions)),
        )
        .expect("plan");
    let mut constrained = budget();
    constrained.max_frame_bytes = 1;
    let id = source.resolve_chunk(&plan.chunks[0], constrained).expect("resolve");
    let file = disk.file_of(&id);
    let reader = disk.store.reader(&id, file).expect("reader");
    let mut stream = source
        .open(reader.metadata(), &plan.chunks[0], constrained)
        .expect("open starts within frame-count budget");
    let StreamStep::Read(block) = stream.step(false) else {
        panic!("a block is read");
    };
    let read = reader.read_block(file, block).expect("frame");
    assert!(matches!(
        stream.accept(read.stored_bytes_read, read.logical_bytes_read, &mut source.stats),
        Err(SourceError::BudgetExceeded { resource: "frame_bytes", .. })
    ));
    constrained.max_frames = 1;
    assert!(matches!(
        source.resolve_chunk(&plan.chunks[0], constrained),
        Err(SourceError::BudgetExceeded { .. })
    ));
}

fn source_entry(id: &str, priority: u16) -> SourceEntry {
    let descriptor = fixture_source_descriptor(id, range(1, 9));
    SourceEntry {
        id: descriptor.id.clone(),
        priority,
        schema_version: descriptor.schema_version.clone(),
        acquisition_identity: vec![1, 2],
        chain_id: descriptor.chain_id,
        finality: descriptor.finality,
        complete_capabilities: descriptor.complete_capabilities,
        trust: descriptor.trust,
    }
}

#[test]
fn source_policies_do_not_depend_on_listing_order() {
    let forward =
        RawHistorySourceSet::new(vec![source_entry("alpha", 1), source_entry("beta", 0)])
            .expect("set");
    let backward =
        RawHistorySourceSet::new(vec![source_entry("beta", 0), source_entry("alpha", 1)])
            .expect("set");
    assert_eq!(forward.policy_digest(), backward.policy_digest());
    assert_eq!(
        forward.sources().iter().map(|source| source.id.as_str()).collect::<Vec<_>>(),
        vec!["beta", "alpha"]
    );
    let other = RawHistorySourceSet::new(vec![source_entry("alpha", 1)]).expect("set");
    assert_ne!(forward.policy_digest(), other.policy_digest());
    assert!(matches!(
        RawHistorySourceSet::new(vec![source_entry("alpha", 1), source_entry("alpha", 2)]),
        Err(RawHistoryRunError::DuplicateSource(id)) if id == "alpha"
    ));
}

#[test]
fn stores_open_only_on_what_they_can_hold() {
    assert!(check_schema_version(5).is_ok());
    assert!(matches!(check_schema_version(4), Err(HistoryStoreError::UnsupportedSchema(4))));
    assert_eq!(sum_bytes(&[1, 2, 3]).expect("sum"), 6);
    assert!(matches!(sum_bytes(&[u64::MAX, 1]), Err(HistoryStoreError::ArithmeticOverflow)));
    let mut disk = Disk::new(test_config());
    disk.publish("usage", &frames(10, 12));
    let stats = disk.stats();
    let budget = test_config().budget;
    assert!(check_existing_usage(budget, &stats).is_ok());
    let tight = StorageBudget { maximum_logical_bytes: stats.retained_logical_bytes - 1, ..budget };
    assert!(matches!(
        check_existing_usage(tight, &stats),
        Err(HistoryStoreError::ExistingBudgetExceeded { logical_observed, .. })
            if logical_observed == stats.retained_logical_bytes
    ));
}

#[test]
fn plain_segments_have_the_reuse_profile_and_no_locators() {
    let mut disk = Disk::new(test_config());
    let retained = frames(10, 12);
    let id = segment("plain");
    let usage = disk.usage(&id);
    let pending = disk
        .store
        .begin_segment(id, descriptor(&retained), Compression::Snappy, reservation(), usage, NOW)
        .expect("begin");
    let file = pending.writer.header();
    let mut writing = Writing { pending, file, index: Vec::new() };
    for frame in &retained {
        writing.append(frame).expect("append");
    }
    let record = disk.finish(writing, &[]).expect("publish");
    assert_eq!(record.profile, RawHistoryProfile::ProcessorReuse);
    assert_eq!(record.indexes, RawHistoryIndexPolicy::default());
}

#[test]
fn retained_sources_carry_what_they_were_configured_with() {
    let post_merge =
        RawHistoryProfile::PostMergeExecutionRpc { merge_block: BlockNumber(15_537_394) };
    let config = RetainedHistorySourceConfig::local(
        ChainId(1),
        MaterialShapeId([0xab; 32]),
        execution_capabilities(),
        VerificationClass::TrustedDataset,
        TrustModel::TrustedDataset,
    )
    .expect("profile")
    .requiring_profile(post_merge)
    .with_log_fields(LogFieldSet::none());
    assert_eq!(config.id, "retained-1-abababababab");
    assert_eq!(config.required_profile, post_merge);
    assert_eq!(config.log_fields, LogFieldSet::none());
    assert!(matches!(
        source_store_error(HistoryStoreError::UnknownSegment(segment("gone"))),
        SourceError::SegmentUnavailable(id) if id.as_str() == "gone"
    ));
    assert!(matches!(
        source_store_error(HistoryStoreError::ArithmeticOverflow),
        SourceError::CorruptStore(HistoryStoreError::ArithmeticOverflow)
    ));
}

// What holds of the store as a whole.

fn publish_located(
    disk: &mut Disk,
    id: &str,
    held: &[BlockFrame],
) -> Result<SegmentRecord, HistoryStoreError> {
    let mut writing = disk.begin(
        id,
        descriptor(held),
        Compression::Snappy,
        reservation(),
        RawHistoryProfile::ProcessorReuse,
        LOCATORS,
    )?;
    for frame in held {
        writing.append(frame)?;
    }
    disk.finish(writing, &[])
}

#[test]
fn a_hash_that_occurs_twice_in_a_segment_is_not_published() {
    let mut disk = Disk::new(test_config());
    let mut repeated = frames(30, 31);
    for frame in &mut repeated {
        with_transaction(frame, TransactionHash([0xb7; 32]));
    }
    assert!(matches!(
        publish_located(&mut disk, "repeated-transaction", &repeated),
        Err(HistoryStoreError::Duplicate("raw_transaction_locators"))
    ));
    assert!(disk.store.segments().is_empty());
    assert!(disk.store.transaction_locators(ChainId(1), TransactionHash([0xb7; 32])).expect("locators").is_empty());
    assert!(disk.store.is_sound());
    let alike = frames(300, 301);
    assert_eq!(alike[0].block.hash, alike[1].block.hash);
    assert!(matches!(
        publish_located(&mut disk, "repeated-block", &alike),
        Err(HistoryStoreError::Duplicate("raw_block_hash_locators"))
    ));
    assert!(disk.store.segments().is_empty());

    let mut other = Disk::new(test_config());
    with_transaction(&mut repeated[1], TransactionHash([0xb8; 32]));
    publish_located(&mut other, "distinct", &repeated).expect("distinct hashes");
    other.store.transaction_locators[1].hash = TransactionHash([0xb7; 32]);
    assert!(!other.store.is_consistent());
    other.store.transaction_locators[1].hash = TransactionHash([0xb8; 32]);
    assert!(other.store.is_consistent());
    other.store.block_locators[0].locator.segment_id = segment("nowhere");
    assert!(!other.store.is_consistent());
}

#[test]
fn a_committed_segment_is_found_once_with_its_distinct_owners() {
    let mut disk = Disk::new(test_config());
    let expected = frames(34, 35);
    let claim = SegmentOwnerClaim {
        kind: SegmentOwnerKind::OperatorPin,
        owner_id: "pin".to_owned(),
    };
    let other = SegmentOwnerClaim {
        kind: SegmentOwnerKind::ProcessorJob,
        owner_id: "reader".to_owned(),
    };
    let record = disk.publish_as(
        "committed",
        &expected,
        descriptor(&expected),
        RawHistoryProfile::ProcessorReuse,
        LOCATORS,
        &[claim.clone(), other.clone(), claim.clone()],
    );
    let found = disk.store.segment(&record.metadata.id).expect("readable");
    assert_eq!(found.metadata.content_checksum, record.metadata.content_checksum);
    assert_eq!(found.relative_path, "segments/committed.idxraw");
    assert_eq!(disk.store.segments().len(), 1);
    let owners = disk.store.owners(&record.metadata.id);
    assert_eq!(owners.len(), 2);
    assert!(disk.store.reservations.is_empty());
    assert_eq!(disk.stats().reserved_logical_bytes, 0);
    let hits = disk.store.block_hash_locators(ChainId(1), expected[1].block.hash).expect("locators");
    assert_eq!(hits.len(), 1);
    assert_eq!(hits[0].locator.block_number, BlockNumber(35));
}

#[test]
fn deleting_a_segment_leaves_every_other_answer_as_it_was() {
    let mut disk = Disk::new(test_config());
    let first = frames(40, 41);
    let second = frames(44, 45);
    let gone = publish_located(&mut disk, "gone", &first).expect("first").metadata.id;
    let kept = publish_located(&mut disk, "kept", &second).expect("second").metadata.id;
    disk.store
        .add_owner(&gone, SegmentOwnerKind::OperatorPin, &"pin".to_owned(), NOW)
        .expect("hold");
    assert!(matches!(
        disk.store.delete_unowned(&gone),
        Err(HistoryStoreError::OwnedSegment { owners: 1, .. })
    ));
    assert!(disk.store.segment(&gone).is_some());
    assert_eq!(disk.store.owners(&gone).len(), 1);
    disk.store
        .remove_owner(&gone, SegmentOwnerKind::OperatorPin, &"pin".to_owned())
        .expect("release");
    let relative = disk.store.delete_unowned(&gone).expect("start deletion");
    assert_eq!(relative, "segments/gone.idxraw");
    assert!(disk.store.segment(&gone).is_none());
    assert!(disk.store.block_hash_locators(ChainId(1), first[0].block.hash).expect("locators").is_empty());
    assert!(disk.store.finish_deletion(&gone));
    assert!(disk.store.segment(&gone).is_none());
    assert!(disk.store.block_hash_locators(ChainId(1), first[0].block.hash).expect("locators").is_empty());
    assert_eq!(disk.stats().block_hash_locators, 2);
    assert!(disk.store.segment(&kept).is_some());
    let hits = disk.store.block_hash_locators(ChainId(1), second[1].block.hash).expect("locators");
    assert_eq!(hits.len(), 1);
    assert!(hits[0].locator.segment_id.same(&kept));
    assert!(!disk.store.finish_deletion(&gone));
}

#[test]
fn recovery_leaves_rows_and_files_in_step() {
    let mut disk = Disk::new(test_config());
    let kept = publish_located(&mut disk, "kept", &frames(50, 51)).expect("kept").metadata.id;
    let gone = publish_located(&mut disk, "gone", &frames(54, 55)).expect("gone").metadata.id;
    disk.store.delete_unowned(&gone).expect("start deletion");
    disk.files.insert("stray.idxraw".to_owned(), disk.file_of(&kept).clone());
    let held = frames(58, 58);
    let writing = disk
        .begin(
            "unfinished",
            descriptor(&held),
            Compression::Uncompressed,
            reservation(),
            RawHistoryProfile::ProcessorReuse,
            RawHistoryIndexPolicy::default(),
        )
        .expect("begin");
    disk.crash("unfinished", writing);
    let report = disk.restart().expect("recover");
    assert_eq!(report.cleared_reservations, 1);
    assert_eq!(report.removed_partial_files, 2);
    assert_eq!(report.completed_deletions, 1);
    assert_eq!(report.quarantined_closed_files, 1);
    assert!(disk.store.reservations.is_empty());
    assert!(disk.store.segments.iter().all(|row| !row.deleting));
    assert_eq!(disk.files.keys().collect::<Vec<_>>(), vec!["kept.idxraw"]);
    assert!(disk.store.reader(&kept, disk.file_of(&kept)).is_ok());
}

#[test]
fn a_bad_path_of_a_row_that_is_being_deleted_is_told_as_such() {
    let mut disk = Disk::new(test_config());
    let id = publish_located(&mut disk, "odd", &frames(60, 60)).expect("publish").metadata.id;
    disk.store.delete_unowned(&id).expect("start deletion");
    disk.store.segments[0].record.relative_path = "segments/..".to_owned();
    assert!(matches!(
        disk.restart(),
        Err(HistoryStoreError::CatalogIntegrity(CatalogProblem::InvalidDeletingPath(path)))
            if path == "segments/.."
    ));
}

#[test]
fn interrupted_deletions_are_completed_before_the_budget_is_held_against_the_store() {
    let mut disk = Disk::new(test_config());
    let kept = disk.publish("kept", &frames(62, 62));
    let gone = disk.publish("gone", &frames(63, 64));
    disk.store.delete_unowned(&gone.metadata.id).expect("start deletion");
    disk.store.budget.maximum_frame_logical_bytes = 1;
    disk.store.budget.maximum_segment_logical_bytes = 1;
    disk.store.budget.maximum_logical_bytes = kept.metadata.logical_bytes;
    assert!(disk.store.is_consistent());
    assert!(!disk.store.is_sound());
    let report = disk.restart().expect("recover");
    assert_eq!(report.completed_deletions, 1);
    assert!(disk.store.is_sound());
}

#[test]
fn an_altered_or_cut_segment_file_is_refused() {
    let mut disk = Disk::new(test_config());
    let id = disk.publish("intact", &frames(66, 67)).metadata.id;
    let file = disk.file_of(&id).clone();
    let opened = |bytes: &[u8]| disk.store.reader(&id, bytes).map(|_| ());
    opened(&file).expect("intact");
    for at in [80, 81, file.len() - 57, file.len() - 40, file.len() - 9] {
        let mut altered = file.clone();
        altered[at] ^= 1;
        assert!(
            matches!(
                opened(&altered),
                Err(HistoryStoreError::Segment(SegmentError::ContentChecksum))
            ),
            "byte {at}"
        );
    }
    for at in 0..file.len() {
        let mut altered = file.clone();
        altered[at] ^= 0x80;
        assert!(opened(&altered).is_err(), "byte {at}");
        assert!(opened(&file[..at]).is_err(), "cut at {at}");
    }
    assert!(matches!(
        opened(&file[..file.len() - 1]),
        Err(HistoryStoreError::Segment(SegmentError::TrailerMagic))
    ));
    assert!(matches!(
        opened(&file[..100]),
        Err(HistoryStoreError::Segment(SegmentError::Truncated))
    ));
}

#[test]
fn a_block_that_does_not_fit_is_named_by_its_range() {
    let problem = JobProblem::BlockTooLarge { start: BlockNumber(7), end: BlockNumber(7) };
    assert_eq!(
        problem.message(),
        "one block in range BlockRange { start: BlockNumber(7), end: BlockNumber(7) } exceeds the configured segment limits"
    );
}

#[test]
fn a_request_is_encoded_part_by_part_and_its_hash_is_its_identity() {
    let request = spec(vec![range(1, 300)]);
    let mut expected: Vec<u8> = Vec::new();
    expected.push(1);
    expected.extend_from_slice(&[1, 1, 0xac, 0x02]);
    expected.push(0);
    expected.push(0);
    expected.extend_from_slice(&[0, 0, 0, 0, 1]);
    expected.extend_from_slice(&[0, 0, 0, 0, 0]);
    expected.extend_from_slice(&[0, 0, 0, 0]);
    expected.extend_from_slice(&[4, 1, 2]);
    expected.extend_from_slice(&[0x99; 32]);
    expected.push(0);
    expected.extend_from_slice(&[3, 0x80, 0x80, 0x40, 0x80, 0x80, 0x40, 1, 0]);
    expected.extend_from_slice(&[0, 0, 0]);
    assert_eq!(request.encode(), expected);
    assert_eq!(request.identity(), *blake3::hash(&expected).as_bytes());
}

#[test]
fn the_material_of_a_request_stands_in_its_bytes() {
    let mut request = spec(vec![range(1, 2)]);
    let plain = request.encode();
    request.material.allow_filtered = true;
    request.material.projection.header_fields = vec!["number".to_owned()];
    request.profile =
        RawHistoryProfile::PostMergeExecutionRpc { merge_block: BlockNumber(15_537_394) };
    let encoded = request.encode();
    let mut expected: Vec<u8> = vec![1, 1, 1, 2, 1, 0xf2, 0xa9, 0xb4, 0x07, 1, 1, 6];
    expected.extend_from_slice(b"number");
    expected.extend_from_slice(&plain[7..]);
    assert_eq!(encoded, expected);
    assert_ne!(request.identity(), spec(vec![range(1, 2)]).identity());
}

#[test]
fn locators_of_a_chain_that_no_column_holds_are_refused() {
    let disk = Disk::new(test_config());
    let widest = ChainId(i64::MAX as u64);
    let beyond = ChainId(i64::MAX as u64 + 1);
    assert!(disk.store.block_hash_locators(widest, BlockHash([1; 32])).expect("held").is_empty());
    assert!(matches!(
        disk.store.block_hash_locators(beyond, BlockHash([1; 32])),
        Err(HistoryStoreError::NumericRange("chain ID"))
    ));
    assert!(disk
        .store
        .transaction_locators(widest, TransactionHash([1; 32]))
        .expect("held")
        .is_empty());
    assert!(matches!(
        disk.store.transaction_locators(beyond, TransactionHash([1; 32])),
        Err(HistoryStoreError::NumericRange("chain ID"))
    ));
}

#[test]
fn what_stops_a_job_is_kept_with_it_in_words() {
    let mut disk = Disk::new(test_config());
    let asked = range(1, 5);
    let started = |disk: &mut Disk, name: &str, chain: u64| {
        let id = job_id(name);
        let mut request = spec(vec![asked]);
        request.chain_id = ChainId(chain);
        disk.store.create_raw_history_job(id.clone(), request, NOW).expect("create");
        disk.store.start_raw_history_job(&id, NOW).expect("start");
        id
    };
    let limit = || {
        AcquireError::Store(HistoryStoreError::LogicalBudget { limit: 1, observed: 2 })
    };
    let id = started(&mut disk, "paused", 1);
    let settled =
        disk.store.settle_attempt(&id, limit(), asked, 5, StorageLimitAction::Pause, NOW + 1);
    assert!(matches!(
        settled,
        Ok(AttemptStep::Finish(RawHistoryRunOutcome::StorageBackpressured(_)))
    ));
    let paused = held(&disk, &id);
    assert_eq!(paused.state, RawHistoryJobState::StorageBackpressured);
    assert_eq!(paused.updated_at_unix_ms, NOW + 1);
    assert_eq!(
        paused.last_error.as_deref(),
        Some("raw-history logical budget 1 bytes would be exceeded (2 bytes)")
    );

    let id = started(&mut disk, "failed", 2);
    let reasons = vec![SourceReason {
        source_id: "archive".to_owned(),
        problem: SourceProblem::IncompletePlan,
    }];
    let failed = disk.store.settle_attempt(
        &id,
        AcquireError::Sources { reasons, retryable: false },
        asked,
        5,
        StorageLimitAction::Pause,
        NOW,
    );
    assert!(matches!(failed, Err(RawHistoryRunError::NoCompatibleSource { .. })));
    assert_eq!(held(&disk, &id).state, RawHistoryJobState::Failed);
    assert_eq!(
        held(&disk, &id).last_error.as_deref(),
        Some("no source could satisfy raw-history range BlockRange { start: BlockNumber(1), end: BlockNumber(5) }: [\"archive: incomplete plan\"]")
    );
    assert!(matches!(
        disk.store.settle_attempt(
            &id,
            AcquireError::Resize,
            asked,
            1,
            StorageLimitAction::Pause,
            NOW
        ),
        Err(RawHistoryRunError::Store(HistoryStoreError::JobState { .. }))
    ));

    let id = started(&mut disk, "large", 3);
    assert!(matches!(
        disk.store.settle_attempt(
            &id,
            AcquireError::Resize,
            asked,
            5,
            StorageLimitAction::Pause,
            NOW
        ),
        Ok(AttemptStep::Retry { blocks: 3 })
    ));
    assert!(disk
        .store
        .settle_attempt(&id, AcquireError::Resize, range(1, 1), 1, StorageLimitAction::Pause, NOW)
        .is_err());
    assert_eq!(
        held(&disk, &id).last_error.as_deref(),
        Some("invalid raw-history job: one block in range BlockRange { start: BlockNumber(1), end: BlockNumber(1) } exceeds the configured segment limits")
    );

    let id = started(&mut disk, "waiting", 4);
    assert!(matches!(
        disk.store.settle_attempt(
            &id,
            AcquireError::Interrupted,
            asked,
            5,
            StorageLimitAction::Pause,
            NOW
        ),
        Ok(AttemptStep::Finish(RawHistoryRunOutcome::Interrupted(_)))
    ));
    assert!(matches!(
        disk.store.settle_attempt(
            &id,
            AcquireError::Sources { reasons: Vec::new(), retryable: true },
            asked,
            5,
            StorageLimitAction::Pause,
            NOW
        ),
        Err(RawHistoryRunError::SourcesUnavailable { .. })
    ));
    assert_eq!(held(&disk, &id).state, RawHistoryJobState::Running);
    assert_eq!(held(&disk, &id).last_error, None);
    assert!(matches!(
        disk.store.settle_attempt(
            &job_id("absent"),
            AcquireError::Interrupted,
            asked,
            5,
            StorageLimitAction::Pause,
            NOW
        ),
        Err(RawHistoryRunError::Store(HistoryStoreError::UnknownJob(_)))
    ));
}
