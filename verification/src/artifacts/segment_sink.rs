//! The catalog of retained segments and the admission of finalized batches.

use crate::artifacts::batch::{
    batch_problem, summary, validate_batch, write_segment, written_batch, BatchDelta, BatchProblem,
    ValidatedBatch,
};
use crate::artifacts::segment::{
    ArtifactSegmentError, ArtifactSegmentInspection, ArtifactSegmentLimits,
    ArtifactSegmentMetadata, ContractView, DescriptorView, MetadataView, ProcessorContract,
};
use crate::artifacts::sink::{
    batch_refusal, disjoint, exact_from, floored, inserted, law_retained_segments_stay_disjoint,
    no_segments, place_from, sharing_from, ArtifactBatchReceipt, ArtifactSegmentSinkConfig,
    ArtifactSegmentSinkStats, ArtifactSinkError, EntryView, SegmentEntry,
};
use crate::artifacts::writer::{artifact_file, sat, written_metadata};
use crate::bytes::{be16, be64, push_bytes, push_u16, push_u64, same_array};
use crate::digest::{blake3_digest, blake3_hash};
use crate::frame_view::{bytes_view, views};
use crate::primitives::BlockRange;
use crate::text::{ends_with, hex_encode, hex_text, padded, push_padded, same_text, strip_suffix};
use vstd::prelude::*;
use vstd::utf8::encode_utf8;

verus! {

/// A field of a contract behind its length.
pub open spec fn contract_field(bytes: Seq<u8>) -> Seq<u8> {
    be64(bytes.len() as u64) + bytes
}

/// The fields of a processor contract that its directory is named after.
pub open spec fn contract_fields(contract: ContractView) -> Seq<u8> {
    contract_field(encode_utf8(contract.instance)) + contract_field(encode_utf8(contract.id))
        + contract_field(encode_utf8(contract.version)) + contract_field(contract.code_hash.0@)
        + contract_field(contract.config_hash.0@) + contract_field(
        be16(contract.delta_schema_version),
    )
}

fn push_field(output: &mut Vec<u8>, bytes: &[u8])
    ensures
        final(output)@ == old(output)@ + contract_field(bytes@),
{
    push_u64(output, bytes.len() as u64);
    push_bytes(output, bytes);
    assert(output@ =~= old(output)@ + contract_field(bytes@));
}

/// The name of a processor contract's directory: a digest of the contract.
pub fn contract_directory_name(contract: &ProcessorContract) -> (name: String)
    ensures
        name@ == hex_text(blake3_digest(contract_fields(contract@))@),
{
    let mut fields: Vec<u8> = Vec::new();
    push_field(&mut fields, contract.instance.as_str().as_bytes());
    push_field(&mut fields, contract.id.as_str().as_bytes());
    push_field(&mut fields, contract.version.as_str().as_bytes());
    push_field(&mut fields, &contract.code_hash.0);
    push_field(&mut fields, &contract.config_hash.0);
    let mut version: Vec<u8> = Vec::new();
    push_u16(&mut version, contract.delta_schema_version);
    assert(version@ =~= be16(contract.delta_schema_version));
    push_field(&mut fields, version.as_slice());
    assert(fields@ =~= contract_fields(contract@));
    hex_encode(&blake3_hash(fields.as_slice()))
}

/// The file of a range, below the directory of its contract.
pub open spec fn spec_segment_path(contract: ContractView, range: BlockRange) -> Seq<char> {
    hex_text(blake3_digest(contract_fields(contract))@) + "/"@ + padded(range.start.0 as nat, 20)
        + "-"@ + padded(range.end.0 as nat, 20) + ".artifacts"@
}

/// The file of a range, below the directory of its contract.
pub fn segment_path(contract: &ProcessorContract, range: BlockRange) -> (path: String)
    ensures
        path@ == spec_segment_path(contract@, range),
{
    let mut path: String = contract_directory_name(contract);
    path.append("/");
    push_padded(&mut path, range.start.0, 20);
    path.append("-");
    push_padded(&mut path, range.end.0, 20);
    path.append(".artifacts");
    path
}

/// Whether a file was left by a publication that never finished.
pub fn is_orphan_partial(name: &str) -> (orphan: bool)
    ensures
        orphan == (ends_with(name@, ".artifacts.partial"@) || ends_with(
            name@,
            ".artifacts.directory.partial"@,
        )),
{
    strip_suffix(name, ".artifacts.partial").is_some() || strip_suffix(
        name,
        ".artifacts.directory.partial",
    ).is_some()
}

/// Whether a file is a closed segment: something before `.artifacts`.
pub fn is_segment_file(name: &str) -> (closed: bool)
    ensures
        closed == (ends_with(name@, ".artifacts"@) && name@.len() > ".artifacts"@.len()),
{
    match strip_suffix(name, ".artifacts") {
        Some(stem) => stem.unicode_len() > 0,
        None => false,
    }
}

/// A closed segment that is there when the sink opens.
#[derive(Debug)]
pub struct FoundSegment {
    pub path: String,
    pub inspection: ArtifactSegmentInspection,
}

impl FoundSegment {
    /// The entry of a segment that was found.
    pub open spec fn entry(self) -> EntryView {
        EntryView {
            instance: self.inspection.metadata.descriptor.contract.instance@,
            range: self.inspection.metadata.descriptor.range,
            path: self.path@,
            artifacts: self.inspection.metadata.artifacts,
            logical_bytes: self.inspection.metadata.logical_bytes,
            physical_bytes: self.inspection.metadata.physical_bytes,
            first_hash: self.inspection.first_block_hash,
            last_hash: self.inspection.last_block_hash,
            records_checksum: self.inspection.metadata.records_checksum,
        }
    }

    fn to_entry(&self) -> (entry: SegmentEntry)
        ensures
            entry@ == self.entry(),
    {
        SegmentEntry {
            instance: self.inspection.metadata.descriptor.contract.instance.clone(),
            range: self.inspection.metadata.descriptor.range,
            path: self.path.clone(),
            artifacts: self.inspection.metadata.artifacts,
            logical_bytes: self.inspection.metadata.logical_bytes,
            physical_bytes: self.inspection.metadata.physical_bytes,
            first_hash: self.inspection.first_block_hash,
            last_hash: self.inspection.last_block_hash,
            records_checksum: self.inspection.metadata.records_checksum,
        }
    }
}

/// The segments and their footprint with those found from `from` on, or the
/// first range that shares a block with an earlier one.
pub open spec fn discovered(
    found: Seq<FoundSegment>,
    from: int,
    entries: Seq<EntryView>,
    stats: ArtifactSegmentSinkStats,
) -> Result<(Seq<EntryView>, ArtifactSegmentSinkStats), ArtifactSinkError>
    decreases found.len() - from,
{
    if from >= found.len() {
        Ok((entries, stats))
    } else {
        let entry = found[from].entry();
        if sharing_from(entries, entry.instance, entry.range, 0) is Some {
            Err(ArtifactSinkError::Conflict(entry.range))
        } else {
            discovered(found, from + 1, inserted(entries, entry), stats.with(entry))
        }
    }
}

/// Everything a sink stands for.
#[verifier::ext_equal]
pub struct SinkView {
    pub config: ArtifactSegmentSinkConfig,
    pub entries: Seq<EntryView>,
    pub stats: ArtifactSegmentSinkStats,
    pub directory_physical_bytes: u64,
}

/// A segment that can join the sink: its entry, the bytes then in the
/// directory, and the file to publish where there is none yet.
#[derive(Debug)]
pub struct PreparedSegment {
    pub entry: SegmentEntry,
    pub directory_physical_bytes: u64,
    pub file: Option<Vec<u8>>,
}

/// What retaining a batch comes to.
#[derive(Debug)]
pub enum Retention {
    Held(ArtifactBatchReceipt),
    Fresh(PreparedSegment),
}

impl SinkView {
    pub open spec fn wf(self) -> bool {
        self.config.wf() && disjoint(self.entries)
    }

    /// The limits of a segment that is about to be written: the aggregate
    /// limit leaves so much.
    pub open spec fn writing_limits(self) -> ArtifactSegmentLimits {
        let remaining = floored(
            self.config.maximum_retained_physical_bytes - self.directory_physical_bytes,
        );
        ArtifactSegmentLimits {
            maximum_segment_physical_bytes: if self.config.limits.maximum_segment_physical_bytes
                < remaining {
                self.config.limits.maximum_segment_physical_bytes
            } else {
                remaining
            },
            ..self.config.limits
        }
    }

    /// The entry of a batch in a segment.
    pub open spec fn batch_entry(
        contract: ContractView,
        batch: ValidatedBatch,
        metadata: MetadataView,
    ) -> EntryView {
        EntryView {
            instance: contract.instance,
            range: batch.range,
            path: spec_segment_path(contract, batch.range),
            artifacts: metadata.artifacts,
            logical_bytes: metadata.logical_bytes,
            physical_bytes: metadata.physical_bytes,
            first_hash: batch.first_hash,
            last_hash: batch.last_hash,
            records_checksum: batch.records_checksum,
        }
    }
}

/// The segment that takes a batch, with its file where that is new: the one
/// that is there already, fully verified, or one that is written.
pub open spec fn batch_segment(
    sink: SinkView,
    contract: ContractView,
    deltas: Seq<BatchDelta>,
    existing: Option<Result<ArtifactSegmentMetadata, ArtifactSegmentError>>,
) -> Result<(MetadataView, Option<Seq<u8>>), ArtifactSegmentError> {
    let batch = summary(deltas);
    match existing {
        Some(Err(error)) => Err(error),
        Some(Ok(metadata)) => if metadata.records_checksum != batch.records_checksum {
            Err(ArtifactSegmentError::RecordsChecksum)
        } else {
            Ok((metadata@, None))
        },
        None => match written_batch(
            DescriptorView { contract, chain_id: batch.chain_id, range: batch.range },
            sink.config.compression,
            sink.writing_limits(),
            deltas,
        ) {
            Err(error) => Err(error),
            Ok(view) => Ok((written_metadata(view), Some(artifact_file(view)))),
        },
    }
}

/// The bytes in the directory once a segment is in it.
pub open spec fn admitted(used: u64, metadata: MetadataView, file: Option<Seq<u8>>) -> u64 {
    if file is Some {
        sat(used + metadata.physical_bytes)
    } else {
        used
    }
}

impl SinkView {
    /// What retaining a batch answers, given the segment that is on disk for
    /// its range already. It changes nothing.
    pub open spec fn retention_answers(
        self,
        contract: ContractView,
        deltas: Seq<BatchDelta>,
        existing: Option<Result<ArtifactSegmentMetadata, ArtifactSegmentError>>,
        outcome: Result<Retention, ArtifactSinkError>,
    ) -> bool {
        let batch = summary(deltas);
        let exact = exact_from(self.entries, contract.instance, batch.range, 0);
        let sharing = sharing_from(self.entries, contract.instance, batch.range, 0);
        let used = self.directory_physical_bytes;
        let limit = self.config.maximum_retained_physical_bytes;
        if batch_problem(deltas) is Some {
            outcome == Err::<Retention, ArtifactSinkError>(
                batch_refusal(batch_problem(deltas)->0),
            )
        } else if exact is Some {
            let entry = self.entries[exact->0];
            if entry.is_identical(batch) {
                match outcome {
                    Ok(Retention::Held(receipt)) => receipt@ == entry.receipt(false),
                    _ => false,
                }
            } else {
                outcome == Err::<Retention, ArtifactSinkError>(
                    ArtifactSinkError::Conflict(entry.range),
                )
            }
        } else if sharing is Some {
            outcome == Err::<Retention, ArtifactSinkError>(
                ArtifactSinkError::Conflict(self.entries[sharing->0].range),
            )
        } else if existing is None && used >= limit {
            outcome == Err::<Retention, ArtifactSinkError>(
                ArtifactSinkError::AggregatePhysicalLimit {
                    projected: sat(used + 1),
                    limit,
                },
            )
        } else {
            match batch_segment(self, contract, deltas, existing) {
                Err(error) => outcome == Err::<Retention, ArtifactSinkError>(
                    ArtifactSinkError::Segment(error),
                ),
                Ok((metadata, file)) => {
                    let projected = admitted(used, metadata, file);
                    if projected > limit {
                        outcome == Err::<Retention, ArtifactSinkError>(
                            ArtifactSinkError::AggregatePhysicalLimit { projected, limit },
                        )
                    } else {
                        match outcome {
                            Ok(Retention::Fresh(prepared)) => {
                                &&& prepared.entry@ == SinkView::batch_entry(
                                    contract,
                                    batch,
                                    metadata,
                                )
                                &&& prepared.directory_physical_bytes == projected
                                &&& bytes_view(prepared.file) == file
                            },
                            _ => false,
                        }
                    }
                },
            }
        }
    }

    /// What recording a prepared segment answers and makes of the sink.
    pub open spec fn record_answers(
        self,
        after: SinkView,
        prepared: PreparedSegment,
        outcome: Result<ArtifactBatchReceipt, ArtifactSinkError>,
    ) -> bool {
        let entry = prepared.entry@;
        match sharing_from(self.entries, entry.instance, entry.range, 0) {
            Some(at) => {
                &&& outcome == Err::<ArtifactBatchReceipt, ArtifactSinkError>(
                    ArtifactSinkError::Conflict(self.entries[at].range),
                )
                &&& after == self
            },
            None => {
                &&& outcome is Ok
                &&& outcome->Ok_0@ == entry.receipt(prepared.file is Some)
                &&& after == (SinkView {
                    config: self.config,
                    entries: inserted(self.entries, entry),
                    stats: self.stats.with(entry),
                    directory_physical_bytes: prepared.directory_physical_bytes,
                })
            },
        }
    }
}

/// Direct immutable-segment sink. It holds what the directory's segments
/// stand for; the files themselves stay with the caller.
#[derive(Debug)]
pub struct ArtifactSegmentSink {
    config: ArtifactSegmentSinkConfig,
    entries: Vec<SegmentEntry>,
    stats: ArtifactSegmentSinkStats,
    directory_physical_bytes: u64,
}

impl View for ArtifactSegmentSink {
    type V = SinkView;

    closed spec fn view(&self) -> SinkView {
        SinkView {
            config: self.config,
            entries: views(self.entries@),
            stats: self.stats,
            directory_physical_bytes: self.directory_physical_bytes,
        }
    }
}

fn find_exact(entries: &Vec<SegmentEntry>, instance: &str, range: BlockRange) -> (found: Option<
    usize,
>)
    ensures
        match (found, exact_from(views(entries@), instance@, range, 0)) {
            (Some(found), Some(at)) => found == at && found < entries@.len(),
            (None, None) => true,
            _ => false,
        },
{
    let mut index: usize = 0;
    while index < entries.len()
        invariant
            index <= entries@.len(),
            exact_from(views(entries@), instance@, range, 0) == exact_from(
                views(entries@),
                instance@,
                range,
                index as int,
            ),
        decreases entries@.len() - index,
    {
        assert(views(entries@)[index as int] == entries@[index as int]@);
        if entries[index].is_exact(instance, range) {
            return Some(index);
        }
        index += 1;
    }
    None
}

fn find_sharing(entries: &Vec<SegmentEntry>, instance: &str, range: BlockRange) -> (found: Option<
    usize,
>)
    ensures
        match (found, sharing_from(views(entries@), instance@, range, 0)) {
            (Some(found), Some(at)) => found == at && found < entries@.len(),
            (None, None) => true,
            _ => false,
        },
{
    let mut index: usize = 0;
    while index < entries.len()
        invariant
            index <= entries@.len(),
            sharing_from(views(entries@), instance@, range, 0) == sharing_from(
                views(entries@),
                instance@,
                range,
                index as int,
            ),
        decreases entries@.len() - index,
    {
        assert(views(entries@)[index as int] == entries@[index as int]@);
        if entries[index].shares(instance, range) {
            return Some(index);
        }
        index += 1;
    }
    None
}

fn insert_entry(entries: &mut Vec<SegmentEntry>, entry: SegmentEntry)
    ensures
        views(final(entries)@) == inserted(views(old(entries)@), entry@),
{
    let mut index: usize = 0;
    let ghost before = entries@;
    while index < entries.len() && !(same_text(
        entries[index].instance.as_str(),
        entry.instance.as_str(),
    ) && entries[index].range.start.0 > entry.range.start.0)
        invariant
            index <= entries@.len(),
            entries@ == before,
            place_from(views(before), entry@.instance, entry.range.start, 0) == place_from(
                views(before),
                entry@.instance,
                entry.range.start,
                index as int,
            ),
        decreases entries@.len() - index,
    {
        assert(views(before)[index as int] == before[index as int]@);
        index += 1;
    }
    proof {
        if index < before.len() {
            assert(views(before)[index as int] == before[index as int]@);
        }
        assert(place_from(views(before), entry@.instance, entry.range.start, 0) == index);
    }
    let ghost added = entry@;
    entries.insert(index, entry);
    assert(views(entries@) =~= inserted(views(before), added));
}

impl ArtifactSegmentSink {
    /// Opens a sink over a directory of which the orphan partial publications
    /// have been removed: so many bytes are in it, and these closed segments,
    /// each inspected. Rejects an invalid policy, a directory over the
    /// aggregate limit, and segments that share a block.
    pub fn open(
        config: ArtifactSegmentSinkConfig,
        directory_physical_bytes: u64,
        found: &Vec<FoundSegment>,
    ) -> (outcome: Result<ArtifactSegmentSink, ArtifactSinkError>)
        requires
            forall|i: int|
                0 <= i < found@.len() ==> (
                #[trigger] found@[i]).inspection.metadata.descriptor.range.wf(),
        ensures
            match outcome {
                Ok(sink) => {
                    &&& sink@.wf()
                    &&& sink@.config == config
                    &&& sink@.directory_physical_bytes == directory_physical_bytes
                    &&& directory_physical_bytes <= config.maximum_retained_physical_bytes
                    &&& discovered(found@, 0, Seq::empty(), no_segments()) == Ok::<
                        (Seq<EntryView>, ArtifactSegmentSinkStats),
                        ArtifactSinkError,
                    >((sink@.entries, sink@.stats))
                },
                Err(error) => if !config.wf() {
                    error == ArtifactSinkError::InvalidConfig
                } else if directory_physical_bytes > config.maximum_retained_physical_bytes {
                    error == (ArtifactSinkError::AggregatePhysicalLimit {
                        projected: directory_physical_bytes,
                        limit: config.maximum_retained_physical_bytes,
                    })
                } else {
                    discovered(found@, 0, Seq::empty(), no_segments()) == Err::<
                        (Seq<EntryView>, ArtifactSegmentSinkStats),
                        ArtifactSinkError,
                    >(error)
                },
            },
    {
        config.validate()?;
        if directory_physical_bytes > config.maximum_retained_physical_bytes {
            return Err(
                ArtifactSinkError::AggregatePhysicalLimit {
                    projected: directory_physical_bytes,
                    limit: config.maximum_retained_physical_bytes,
                },
            );
        }
        let mut entries: Vec<SegmentEntry> = Vec::new();
        let mut stats = ArtifactSegmentSinkStats::default();
        let mut index: usize = 0;
        assert(views(entries@) =~= Seq::empty());
        while index < found.len()
            invariant
                index <= found@.len(),
                config.wf(),
                directory_physical_bytes <= config.maximum_retained_physical_bytes,
                disjoint(views(entries@)),
                forall|i: int|
                    0 <= i < found@.len() ==> (
                    #[trigger] found@[i]).inspection.metadata.descriptor.range.wf(),
                discovered(found@, 0, Seq::empty(), no_segments()) == discovered(
                    found@,
                    index as int,
                    views(entries@),
                    stats,
                ),
            decreases found@.len() - index,
        {
            let entry = found[index].to_entry();
            if find_sharing(&entries, entry.instance.as_str(), entry.range).is_some() {
                return Err(ArtifactSinkError::Conflict(entry.range));
            }
            proof {
                law_retained_segments_stay_disjoint(views(entries@), entry@);
            }
            stats = stats.joined(&entry);
            insert_entry(&mut entries, entry);
            index += 1;
        }
        Ok(ArtifactSegmentSink { config, entries, stats, directory_physical_bytes })
    }

    /// Current footprint of the catalogued segments.
    pub fn stats(&self) -> (stats: ArtifactSegmentSinkStats)
        ensures
            stats == self@.stats,
    {
        self.stats
    }

    /// One exact retained batch.
    pub fn retained_batch(&self, instance: &str, range: BlockRange) -> (receipt: Option<
        ArtifactBatchReceipt,
    >)
        ensures
            match (receipt, exact_from(self@.entries, instance@, range, 0)) {
                (Some(receipt), Some(at)) => receipt@ == self@.entries[at].receipt(false),
                (None, None) => true,
                _ => false,
            },
    {
        match find_exact(&self.entries, instance, range) {
            Some(at) => {
                assert(views(self.entries@)[at as int] == self.entries@[at as int]@);
                Some(self.entries[at].receipt(false))
            },
            None => None,
        }
    }

    /// Drops one exact segment from the catalog after its file has been
    /// deleted. A segment that is not there is no fault.
    pub fn remove_exact(&mut self, instance: &str, range: BlockRange) -> (removed: bool)
        requires
            old(self)@.wf(),
        ensures
            final(self)@.wf(),
            match exact_from(old(self)@.entries, instance@, range, 0) {
                Some(at) => {
                    let entry = old(self)@.entries[at];
                    &&& removed
                    &&& final(self)@ == (SinkView {
                        config: old(self)@.config,
                        entries: old(self)@.entries.remove(at),
                        stats: old(self)@.stats.without(entry),
                        directory_physical_bytes: floored(
                            old(self)@.directory_physical_bytes - entry.physical_bytes,
                        ),
                    })
                },
                None => !removed && final(self)@ == old(self)@,
            },
    {
        match find_exact(&self.entries, instance, range) {
            Some(at) => {
                let ghost before = self.entries@;
                let entry = self.entries.remove(at);
                self.stats = self.stats.left(&entry);
                self.directory_physical_bytes =
                self.directory_physical_bytes.saturating_sub(entry.physical_bytes);
                proof {
                    assert(views(before)[at as int] == entry@);
                    assert(views(self.entries@) =~= views(before).remove(at as int));
                    let after = views(before).remove(at as int);
                    assert forall|i: int|
                        #![trigger after[i]]
                        0 <= i < after.len() implies after[i] == views(before)[if i < at {
                        i
                    } else {
                        i + 1
                    }] by {}
                    assert(disjoint(after));
                }
                true
            },
            None => false,
        }
    }

    /// Takes a new measure of the bytes in the directory, after a write failed.
    pub fn remeasure(&mut self, directory_physical_bytes: u64)
        ensures
            final(self)@ == (SinkView { directory_physical_bytes, ..old(self)@ }),
    {
        self.directory_physical_bytes = directory_physical_bytes;
    }

    /// Decides what retaining one contiguous finalized batch comes to. A batch
    /// that is retained already is answered with its receipt; one that
    /// contradicts what is retained, or that does not fit, is refused; any
    /// other is given the segment that takes it. `existing` is what stands at
    /// the batch's path: the metadata of a segment that was opened under the
    /// contract and fully verified, or why that failed.
    pub fn retain_finalized_batch(
        &self,
        contract: &ProcessorContract,
        deltas: &[BatchDelta],
        existing: Option<Result<ArtifactSegmentMetadata, ArtifactSegmentError>>,
    ) -> (outcome: Result<Retention, ArtifactSinkError>)
        requires
            self@.wf(),
        ensures
            self@.retention_answers(contract@, deltas@, existing, outcome),
    {
        let batch = match validate_batch(deltas) {
            Ok(batch) => batch,
            Err(problem) => {
                return match problem {
                    BatchProblem::Empty => Err(ArtifactSinkError::EmptyBatch),
                    _ => Err(ArtifactSinkError::Batch(problem)),
                };
            },
        };
        let instance = contract.instance.as_str();
        if let Some(at) = find_exact(&self.entries, instance, batch.range) {
            assert(views(self.entries@)[at as int] == self.entries@[at as int]@);
            self.entries[at].validate_identity(&batch)?;
            return Ok(Retention::Held(self.entries[at].receipt(false)));
        }
        if let Some(at) = find_sharing(&self.entries, instance, batch.range) {
            assert(views(self.entries@)[at as int] == self.entries@[at as int]@);
            return Err(ArtifactSinkError::Conflict(self.entries[at].range));
        }
        let used: u64 = self.directory_physical_bytes;
        let limit: u64 = self.config.maximum_retained_physical_bytes;
        let mut file: Option<Vec<u8>> = None;
        let mut projected: u64 = used;
        let metadata: ArtifactSegmentMetadata = match existing {
            Some(Ok(metadata)) => {
                if !same_array(&metadata.records_checksum, &batch.records_checksum) {
                    return Err(ArtifactSinkError::Segment(ArtifactSegmentError::RecordsChecksum));
                }
                metadata
            },
            Some(Err(error)) => {
                return Err(ArtifactSinkError::Segment(error));
            },
            None => {
                let remaining: u64 = limit.saturating_sub(used);
                if remaining == 0 {
                    return Err(
                        ArtifactSinkError::AggregatePhysicalLimit {
                            projected: used.saturating_add(1),
                            limit,
                        },
                    );
                }
                let mut limits = self.config.limits;
                if limits.maximum_segment_physical_bytes >= remaining {
                    limits.maximum_segment_physical_bytes = remaining;
                }
                assert(limits == self@.writing_limits());
                let written = match write_segment(
                    contract,
                    &batch,
                    deltas,
                    self.config.compression,
                    limits,
                ) {
                    Ok(written) => written,
                    Err(error) => {
                        return Err(ArtifactSinkError::Segment(error));
                    },
                };
                projected = used.saturating_add(written.metadata.physical_bytes);
                file = Some(written.file);
                written.metadata
            },
        };
        proof {
            assert(batch_segment(self@, contract@, deltas@, existing) == Ok::<
                (MetadataView, Option<Seq<u8>>),
                ArtifactSegmentError,
            >((metadata@, bytes_view(file))));
        }
        if projected > limit {
            return Err(ArtifactSinkError::AggregatePhysicalLimit { projected, limit });
        }
        let entry = SegmentEntry {
            instance: contract.instance.clone(),
            range: batch.range,
            path: segment_path(contract, batch.range),
            artifacts: metadata.artifacts,
            logical_bytes: metadata.logical_bytes,
            physical_bytes: metadata.physical_bytes,
            first_hash: batch.first_hash,
            last_hash: batch.last_hash,
            records_checksum: batch.records_checksum,
        };
        Ok(Retention::Fresh(PreparedSegment { entry, directory_physical_bytes: projected, file }))
    }

    /// Records a segment once its file is durable. Refuses one that shares a
    /// block with a segment that was recorded since.
    pub fn record(&mut self, prepared: PreparedSegment) -> (outcome: Result<
        ArtifactBatchReceipt,
        ArtifactSinkError,
    >)
        requires
            old(self)@.wf(),
            prepared.entry.range.wf(),
        ensures
            final(self)@.wf(),
            old(self)@.record_answers(final(self)@, prepared, outcome),
    {
        let entry = prepared.entry;
        if let Some(at) = find_sharing(&self.entries, entry.instance.as_str(), entry.range) {
            assert(views(self.entries@)[at as int] == self.entries@[at as int]@);
            return Err(ArtifactSinkError::Conflict(self.entries[at].range));
        }
        proof {
            law_retained_segments_stay_disjoint(views(self.entries@), entry@);
        }
        let receipt = entry.receipt(prepared.file.is_some());
        self.directory_physical_bytes = prepared.directory_physical_bytes;
        self.stats = self.stats.joined(&entry);
        insert_entry(&mut self.entries, entry);
        Ok(receipt)
    }

    /// The segments of a processor instance, in block order.
    pub fn segments_of(&self, instance: &str) -> (segments: Vec<SegmentEntry>)
        ensures
            views(segments@) == self@.entries.filter(
                |entry: EntryView| entry.instance == instance@,
            ),
    {
        let mut segments: Vec<SegmentEntry> = Vec::new();
        let ghost keep = |entry: EntryView| entry.instance == instance@;
        let ghost all = views(self.entries@);
        let mut index: usize = 0;
        proof {
            reveal(Seq::filter);
            assert(views(segments@) =~= all.take(0).filter(keep));
        }
        while index < self.entries.len()
            invariant
                index <= self.entries@.len(),
                all == views(self.entries@),
                keep == (|entry: EntryView| entry.instance == instance@),
                views(segments@) == all.take(index as int).filter(keep),
            decreases self.entries@.len() - index,
        {
            let ghost before = segments@;
            proof {
                reveal(Seq::filter);
                assert(all.take(index + 1).drop_last() =~= all.take(index as int));
                assert(all.take(index + 1).last() == self.entries@[index as int]@);
            }
            if same_text(self.entries[index].instance.as_str(), instance) {
                segments.push(self.entries[index].clone());
                assert(views(segments@) =~= views(before).push(self.entries@[index as int]@));
            }
            index += 1;
        }
        assert(all.take(all.len() as int) =~= all);
        segments
    }
}

} // verus!
