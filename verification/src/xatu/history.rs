//! The public dataset as a source of history: planning, slicing and opening.

use crate::bytes::push_bytes;
use crate::primitives::{BlockNumber, BlockRange, Capability, CapabilitySet, ChainId, TrustModel};
use crate::request::{
    chunk_ranges, exact_cover, DataRequest, FinalityModel, Partitioning, PhysicalPlanOperation,
    PhysicalReader, SourceBudget, SourceChunk, SourceDescriptor, SourceError, SourceKind,
    SourcePlan, TopicFilter, VerificationPolicy,
};
use crate::text::{decimal_digits, joined, push_decimal, quoted, same_text, texts};
use crate::xatu::catalog::{
    is_network_name, public_location, url_parsed, XatuCatalog, XatuCatalogConfig, XatuTable,
};
use crate::xatu::error::XatuError;
use crate::xatu::generic_projection::{GenericRun, GenericStage};
use crate::xatu::identity::{
    are_valid, decode_partition, encode_partition, identity_decoded, identity_encoded,
    is_identity, lemma_alike_parts, parts_of, request_parts, IdentityParts, PartitionIdentity, ProjectionMode,
    IDENTITY_VERSION,
};
use crate::xatu::projection::{start_problem, BlobsRun, BlobsStage, XatuBlobsProjector};
use crate::xatu::reading::{generic_log_columns, log_columns, ProjectionMetrics};
use crate::xatu::sizes::capped;
use vstd::prelude::*;

verus! {

pub const SCHEMA_VERSION: &'static str = "xatu.history.v3";

pub const PHYSICAL_PARTITION_BLOCKS: u64 = 1000;

/// The first block with a beacon payload, which tells execution parents.
pub const MAINNET_MERGE_BLOCK: u64 = 15537394;

/// Planner and chunking settings for public history.
#[derive(Debug)]
pub struct XatuHistoryConfig {
    pub catalog: XatuCatalogConfig,
    pub range: Option<BlockRange>,
    pub chunk_blocks: u64,
    pub blobs_chunk_blocks: u64,
    pub batch_rows: usize,
    pub priority: u16,
}

impl XatuHistoryConfig {
    /// Public defaults with 1,000-block independently retryable chunks.
    pub fn public(network: String) -> (outcome: Result<XatuHistoryConfig, XatuError>)
        ensures
            if !is_network_name(network@) {
                outcome == Err::<XatuHistoryConfig, XatuError>(XatuError::Network(network))
            } else {
                match (outcome, url_parsed(public_location(network@))) {
                    (Ok(config), Ok(url)) => {
                        &&& config.catalog.base_url@ == url
                        &&& config.catalog.network == network
                        &&& config.range is None
                        &&& config.chunk_blocks == 1000
                        &&& config.blobs_chunk_blocks == 8000
                        &&& config.batch_rows == 8192
                        &&& config.priority == 10
                    },
                    (Err(error), Err(words)) => error.is_url_error(words),
                    _ => false,
                }
            },
    {
        let catalog: XatuCatalogConfig = XatuCatalogConfig::public(network)?;
        Ok(
            XatuHistoryConfig {
                catalog,
                range: None,
                chunk_blocks: PHYSICAL_PARTITION_BLOCKS,
                blobs_chunk_blocks: 8000,
                batch_rows: 8192,
                priority: 10,
            },
        )
    }

    /// Chunks are whole partitions, and there is something to read.
    pub open spec fn sound(self) -> bool {
        &&& self.chunk_blocks > 0 && self.chunk_blocks % 1000 == 0
        &&& self.blobs_chunk_blocks > 0 && self.blobs_chunk_blocks % 1000 == 0
        &&& self.batch_rows > 0
        &&& self.range matches Some(range) ==> range.end.0 >= MAINNET_MERGE_BLOCK
    }

    /// The part of the configured range that has beacon payloads.
    pub open spec fn supported(self) -> BlockRange {
        match self.range {
            Some(range) => BlockRange {
                start: if range.start.0 >= MAINNET_MERGE_BLOCK {
                    range.start
                } else {
                    BlockNumber(MAINNET_MERGE_BLOCK)
                },
                end: range.end,
            },
            None => BlockRange {
                start: BlockNumber(MAINNET_MERGE_BLOCK),
                end: BlockNumber(u64::MAX),
            },
        }
    }
}

/// What acquiring from a source took.
#[derive(Debug)]
pub struct SourceAcquisitionMetrics {
    pub opened_chunks: u64,
    pub opened_ranges: Vec<BlockRange>,
    pub acquired_frames: u64,
    pub normalized_bytes: u64,
    pub source_objects: Option<u64>,
    pub source_object_bytes: Option<u64>,
    pub projected_compressed_bytes: Option<u64>,
    pub logical_range_requests: Option<u64>,
    pub fetched_bytes: Option<u64>,
    pub rows_scanned: Option<u64>,
    pub rows_selected: Option<u64>,
    pub operation_elapsed_ms: u64,
}

/// A count that need not have started, and more.
pub open spec fn added(target: Option<u64>, value: u64) -> Option<u64> {
    match target {
        Some(total) => Some(capped(total + value)),
        None => Some(value),
    }
}

fn add_optional(target: Option<u64>, value: u64) -> (total: Option<u64>)
    ensures
        total == added(target, value),
{
    match target {
        Some(total) => Some(total.saturating_add(value)),
        None => Some(value),
    }
}

/// The sum of sizes, as far as it can be counted.
pub open spec fn size_sum(sizes: Seq<u64>) -> int
    decreases sizes.len(),
{
    if sizes.len() == 0 {
        0
    } else {
        size_sum(sizes.drop_last()) + sizes.last()
    }
}

fn sum_sizes(sizes: &Vec<u64>) -> (total: u64)
    ensures
        total == capped(size_sum(sizes@)),
{
    let mut total: u64 = 0;
    let mut index: usize = 0;
    while index < sizes.len()
        invariant
            index <= sizes@.len(),
            size_sum(sizes@.take(index as int)) >= 0,
            total == capped(size_sum(sizes@.take(index as int))),
        decreases sizes@.len() - index,
    {
        proof {
            let longer = sizes@.take(index + 1);
            assert(longer.drop_last() =~= sizes@.take(index as int));
            assert(longer.last() == sizes@[index as int]);
        }
        total = total.saturating_add(sizes[index]);
        index += 1;
    }
    assert(sizes@.take(index as int) =~= sizes@);
    total
}

impl SourceAcquisitionMetrics {
    /// Nothing was opened yet.
    pub open spec fn is_unused(self) -> bool {
        &&& self.opened_chunks == 0
        &&& self.opened_ranges@.len() == 0
        &&& self.acquired_frames == 0
        &&& self.normalized_bytes == 0
        &&& self.source_objects is None
        &&& self.source_object_bytes is None
        &&& self.projected_compressed_bytes is None
        &&& self.logical_range_requests is None
        &&& self.fetched_bytes is None
        &&& self.rows_scanned is None
        &&& self.rows_selected is None
        &&& self.operation_elapsed_ms == 0
    }

    pub fn new() -> (metrics: SourceAcquisitionMetrics)
        ensures
            metrics.is_unused(),
    {
        SourceAcquisitionMetrics {
            opened_chunks: 0,
            opened_ranges: Vec::new(),
            acquired_frames: 0,
            normalized_bytes: 0,
            source_objects: None,
            source_object_bytes: None,
            projected_compressed_bytes: None,
            logical_range_requests: None,
            fetched_bytes: None,
            rows_scanned: None,
            rows_selected: None,
            operation_elapsed_ms: 0,
        }
    }

    /// Counts a chunk that was opened.
    pub fn opened(&mut self, range: BlockRange)
        ensures
            *final(self) == (SourceAcquisitionMetrics {
                opened_chunks: capped(old(self).opened_chunks + 1),
                opened_ranges: final(self).opened_ranges,
                ..*old(self)
            }),
            final(self).opened_ranges@ == old(self).opened_ranges@.push(range),
    {
        self.opened_chunks = self.opened_chunks.saturating_add(1);
        self.opened_ranges.push(range);
    }

    /// Counts the frames of a chunk, given what each takes.
    pub fn acquired(&mut self, metrics: &ProjectionMetrics, sizes: &Vec<u64>)
        ensures
            *final(self) == (SourceAcquisitionMetrics {
                acquired_frames: capped(old(self).acquired_frames + metrics.frames),
                normalized_bytes: capped(old(self).normalized_bytes + size_sum(sizes@)),
                source_objects: added(old(self).source_objects, metrics.objects@.len() as u64),
                source_object_bytes: added(old(self).source_object_bytes, metrics.object_bytes),
                projected_compressed_bytes: added(
                    old(self).projected_compressed_bytes,
                    metrics.projected_compressed_bytes,
                ),
                logical_range_requests: added(
                    old(self).logical_range_requests,
                    metrics.logical_range_requests,
                ),
                fetched_bytes: added(old(self).fetched_bytes, metrics.fetched_bytes),
                rows_scanned: added(old(self).rows_scanned, metrics.rows_scanned),
                rows_selected: added(old(self).rows_selected, metrics.rows_selected),
                operation_elapsed_ms: capped(
                    old(self).operation_elapsed_ms + metrics.elapsed_ms,
                ),
                ..*old(self)
            }),
    {
        proof {
            lemma_size_sum(sizes@);
        }
        self.acquired_frames = self.acquired_frames.saturating_add(metrics.frames);
        self.normalized_bytes = self.normalized_bytes.saturating_add(sum_sizes(sizes));
        self.source_objects = add_optional(self.source_objects, metrics.objects.len() as u64);
        self.source_object_bytes = add_optional(self.source_object_bytes, metrics.object_bytes);
        self.projected_compressed_bytes = add_optional(
            self.projected_compressed_bytes,
            metrics.projected_compressed_bytes,
        );
        self.logical_range_requests = add_optional(
            self.logical_range_requests,
            metrics.logical_range_requests,
        );
        self.fetched_bytes = add_optional(self.fetched_bytes, metrics.fetched_bytes);
        self.rows_scanned = add_optional(self.rows_scanned, metrics.rows_scanned);
        self.rows_selected = add_optional(self.rows_selected, metrics.rows_selected);
        self.operation_elapsed_ms = self.operation_elapsed_ms.saturating_add(metrics.elapsed_ms);
    }
}

proof fn lemma_size_sum(sizes: Seq<u64>)
    ensures
        size_sum(sizes) >= 0,
    decreases sizes.len(),
{
    if sizes.len() > 0 {
        lemma_size_sum(sizes.drop_last());
    }
}

/// A set of capabilities.
pub open spec fn three(first: Capability, second: Capability, third: Capability) -> CapabilitySet {
    CapabilitySet::spec_of(first).spec_with(second).spec_with(third)
}

/// A request that only blob transactions serve.
pub open spec fn asks_for_blobs(request: DataRequest) -> bool {
    &&& three(Capability::Header, Capability::Transactions, Capability::Receipts).has_all(
        request.required,
    )
    &&& request.filters.scope.transaction_types@ == seq![3u8]
    &&& request.filters.scope.addresses@.len() == 0
    &&& request.filters.scope.topics@.len() == 0
    &&& request.filters.senders@.len() == 0
    &&& request.filters.recipients@.len() == 0
}

/// The projection that serves a request, or why there is none.
pub open spec fn mode_of(request: DataRequest) -> Result<ProjectionMode, &'static str> {
    let required = request.required;
    if required.has(Capability::Receipts) {
        if asks_for_blobs(request) {
            Ok(ProjectionMode::Blobs)
        } else {
            Err("Xatu receipt projection supports only blobs/type-3 transaction material")
        }
    } else if required.has(Capability::Logs) {
        if CapabilitySet::spec_of(Capability::Header).spec_with(Capability::Logs).has_all(
            required,
        ) {
            Ok(ProjectionMode::Logs)
        } else {
            Err("Xatu log projection cannot be combined with transaction or receipt material")
        }
    } else if required.has(Capability::Transactions) || required.has(Capability::Body)
        || required.has(Capability::Calldata) {
        if three(Capability::Header, Capability::Body, Capability::Transactions).spec_with(
            Capability::Calldata,
        ).has_all(required) {
            Ok(ProjectionMode::Transactions)
        } else {
            Err("Xatu transaction projection lacks requested capabilities")
        }
    } else if required == CapabilitySet::spec_of(Capability::Header) {
        Ok(ProjectionMode::Headers)
    } else {
        Err("Xatu has no physical projection for the requested capability combination")
    }
}

/// Chooses the projection that serves a request.
pub fn projection_mode(request: &DataRequest) -> (outcome: Result<ProjectionMode, SourceError>)
    ensures
        outcome == (match mode_of(*request) {
            Ok(mode) => Ok::<ProjectionMode, SourceError>(mode),
            Err(reason) => Err(SourceError::InvalidPlan(reason)),
        }),
{
    let required: CapabilitySet = request.required;
    if required.contains(Capability::Receipts) {
        let allowed: CapabilitySet = CapabilitySet::of(Capability::Header).with(
            Capability::Transactions,
        ).with(Capability::Receipts);
        let types: &Vec<u8> = &request.filters.scope.transaction_types;
        let only_blobs = types.len() == 1 && types[0] == 3;
        proof {
            if only_blobs {
                assert(types@ =~= seq![3u8]);
            }
        }
        if !allowed.contains_all(required) || !only_blobs || request.filters.scope.addresses.len()
            > 0 || request.filters.scope.topics.len() > 0 || request.filters.senders.len() > 0
            || request.filters.recipients.len() > 0 {
            return Err(
                SourceError::InvalidPlan(
                    "Xatu receipt projection supports only blobs/type-3 transaction material",
                ),
            );
        }
        return Ok(ProjectionMode::Blobs);
    }
    if required.contains(Capability::Logs) {
        let allowed: CapabilitySet = CapabilitySet::of(Capability::Header).with(Capability::Logs);
        if !allowed.contains_all(required) {
            return Err(
                SourceError::InvalidPlan(
                    "Xatu log projection cannot be combined with transaction or receipt material",
                ),
            );
        }
        return Ok(ProjectionMode::Logs);
    }
    if required.contains(Capability::Transactions) || required.contains(Capability::Body)
        || required.contains(Capability::Calldata) {
        let allowed: CapabilitySet = CapabilitySet::of(Capability::Header).with(
            Capability::Body,
        ).with(Capability::Transactions).with(Capability::Calldata);
        if !allowed.contains_all(required) {
            return Err(
                SourceError::InvalidPlan("Xatu transaction projection lacks requested capabilities"),
            );
        }
        return Ok(ProjectionMode::Transactions);
    }
    if required == CapabilitySet::of(Capability::Header) {
        return Ok(ProjectionMode::Headers);
    }
    Err(
        SourceError::InvalidPlan(
            "Xatu has no physical projection for the requested capability combination",
        ),
    )
}

/// The last height of the partition that a height is in, or of the request.
pub open spec fn span_end(start: u64, end: u64, span: u64) -> u64 {
    let last = start as int / (span as int) * span + span - 1;
    if last <= end {
        last as u64
    } else {
        end
    }
}

/// The parts of a range that end with its partitions.
pub open spec fn aligned_ranges(start: u64, end: u64, span: u64) -> Seq<BlockRange>
    decreases end - start,
{
    if start > end {
        Seq::empty()
    } else {
        let last = span_end(start, end, span);
        let first = BlockRange { start: BlockNumber(start), end: BlockNumber(last) };
        if start <= last < end {
            seq![first] + aligned_ranges((last + 1) as u64, end, span)
        } else {
            seq![first]
        }
    }
}

proof fn lemma_span_end(start: u64, end: u64, span: u64)
    requires
        start <= end,
        span > 0,
    ensures
        start <= span_end(start, end, span) <= end,
{
    assert(start as int / (span as int) * span <= start < start as int / (span as int) * span
        + span) by (nonlinear_arith)
        requires
            span > 0,
    ;
}

proof fn lemma_next_partition(start: u64, end: u64, span: u64)
    requires
        start <= end,
        span > 0,
        span_end(start, end, span) < end,
    ensures
        (span_end(start, end, span) + 1) % (span as int) == 0,
{
    let whole = start as int / (span as int);
    assert((whole * span + span) % (span as int) == 0) by (nonlinear_arith)
        requires
            span > 0,
    ;
}

/// The parts of a range follow one another and cover it exactly. Every part
/// after the first starts with a partition, and no part touches two.
pub proof fn law_aligned_ranges_cover_exactly(start: u64, end: u64, span: u64)
    requires
        start <= end,
        span > 0,
    ensures
        exact_cover(
            BlockRange { start: BlockNumber(start), end: BlockNumber(end) },
            aligned_ranges(start, end, span),
        ),
        forall|i: int|
            0 < i < aligned_ranges(start, end, span).len() ==> (
            #[trigger] aligned_ranges(start, end, span)[i]).start.0 % span == 0,
        forall|i: int|
            0 <= i < aligned_ranges(start, end, span).len() ==> (
            #[trigger] aligned_ranges(start, end, span)[i]).start.0 / span == aligned_ranges(
                start,
                end,
                span,
            )[i].end.0 / span,
    decreases end - start,
{
    lemma_span_end(start, end, span);
    let last = span_end(start, end, span);
    let parts = aligned_ranges(start, end, span);
    let whole = start as int / (span as int);
    assert(last / span == start / span) by {
        assert(whole * span <= start <= last <= whole * span + span - 1) by (nonlinear_arith)
            requires
                span > 0,
                start <= last,
                last <= whole * span + span - 1,
                whole == start as int / (span as int),
        ;
        assert(last as int / (span as int) == whole) by (nonlinear_arith)
            requires
                span > 0,
                whole * span <= last <= whole * span + span - 1,
        ;
    }
    if last < end {
        let next = (last + 1) as u64;
        law_aligned_ranges_cover_exactly(next, end, span);
        lemma_next_partition(start, end, span);
        let rest = aligned_ranges(next, end, span);
        assert(parts =~= seq![BlockRange { start: BlockNumber(start), end: BlockNumber(last) }]
            + rest);
        assert forall|i: int| 0 < i < parts.len() implies (#[trigger] parts[i]).start.0 % span
            == 0 by {
            assert(parts[i] == rest[i - 1]);
            if i == 1 {
                assert(rest[0].start.0 == next);
            }
        }
        assert forall|i: int| 0 <= i < parts.len() implies (#[trigger] parts[i]).start.0 / span
            == parts[i].end.0 / span by {
            if i > 0 {
                assert(parts[i] == rest[i - 1]);
            }
        }
        assert(exact_cover(
            BlockRange { start: BlockNumber(start), end: BlockNumber(end) },
            parts,
        )) by {
            assert forall|i: int| 0 <= i < parts.len() implies (#[trigger] parts[i]).wf() by {
                if i > 0 {
                    assert(parts[i] == rest[i - 1]);
                }
            }
            assert forall|i: int| 0 < i < parts.len() implies (#[trigger] parts[i]).start.0
                == parts[i - 1].end.0 + 1 by {
                assert(parts[i] == rest[i - 1]);
                if i > 1 {
                    assert(parts[i - 1] == rest[i - 2]);
                }
            }
            assert(parts.last() == rest.last());
        }
    } else {
        assert(parts =~= seq![BlockRange { start: BlockNumber(start), end: BlockNumber(last) }]);
    }
}

/// One physical operation by value.
pub struct OperationView {
    pub reader: PhysicalReader,
    pub table: Seq<char>,
    pub columns: Seq<Seq<char>>,
    pub predicates: Seq<Seq<char>>,
}

/// An operation on the dataset.
pub open spec fn is_operation(operation: PhysicalPlanOperation, view: OperationView) -> bool {
    &&& operation.reader == view.reader
    &&& operation.table@ == view.table
    &&& texts(operation.columns@) == view.columns
    &&& texts(operation.predicates@) == view.predicates
    &&& operation.estimated_bytes is None
    &&& operation.trust == TrustModel::TrustedDataset
    &&& operation.completeness == "dataset_declared"
    &&& operation.derived
}

/// The names of columns.
pub open spec fn column_names(columns: Seq<&'static str>) -> Seq<Seq<char>> {
    columns.map_values(|column: &'static str| column@)
}

fn operation(
    reader: PhysicalReader,
    table: XatuTable,
    columns: &'static [&'static str],
    predicates: Vec<String>,
) -> (made: PhysicalPlanOperation)
    ensures
        is_operation(
            made,
            OperationView {
                reader,
                table: table.spec_name()@,
                columns: column_names(columns@),
                predicates: texts(predicates@),
            },
        ),
{
    let mut names: Vec<String> = Vec::new();
    let mut index: usize = 0;
    while index < columns.len()
        invariant
            index <= columns@.len(),
            names@.len() == index,
            forall|i: int| 0 <= i < index ==> (#[trigger] names@[i])@ == columns@[i]@,
        decreases columns@.len() - index,
    {
        names.push(columns[index].to_owned());
        index += 1;
    }
    assert(texts(names@) =~= column_names(columns@));
    PhysicalPlanOperation {
        reader,
        table: table.name().to_owned(),
        columns: names,
        predicates,
        estimated_bytes: None,
        trust: TrustModel::TrustedDataset,
        completeness: "dataset_declared",
        derived: true,
    }
}

/// The predicate of a range.
pub open spec fn range_predicate(range: BlockRange) -> Seq<char> {
    "block_number BETWEEN "@ + decimal_digits(range.start.0 as nat) + " AND "@ + decimal_digits(
        range.end.0 as nat,
    )
}

fn range_text(range: BlockRange) -> (text: String)
    ensures
        text@ == range_predicate(range),
{
    let mut text: String = "block_number BETWEEN ".to_owned();
    push_decimal(&mut text, range.start.0);
    text.append(" AND ");
    push_decimal(&mut text, range.end.0);
    text
}

/// A predicate on a number of values.
pub open spec fn count_predicate(column: Seq<char>, count: nat) -> Seq<char> {
    column + " IN ("@ + decimal_digits(count) + " values)"@
}

fn count_text(column: &str, count: usize) -> (text: String)
    ensures
        text@ == count_predicate(column@, count as nat),
{
    let mut text: String = joined(column, " IN (");
    push_decimal(&mut text, count as u64);
    text.append(" values)");
    text
}

/// Numbers with a comma and a space between.
pub open spec fn listed(values: Seq<u8>) -> Seq<char>
    decreases values.len(),
{
    if values.len() == 0 {
        Seq::empty()
    } else if values.len() == 1 {
        decimal_digits(values[0] as nat)
    } else {
        listed(values.drop_last()) + ", "@ + decimal_digits(values.last() as nat)
    }
}

fn push_listed(text: &mut String, values: &Vec<u8>)
    ensures
        final(text)@ == old(text)@ + listed(values@),
{
    let ghost before = text@;
    let mut index: usize = 0;
    assert(before + listed(values@.take(0)) =~= before);
    while index < values.len()
        invariant
            index <= values@.len(),
            text@ == before + listed(values@.take(index as int)),
        decreases values@.len() - index,
    {
        proof {
            let longer = values@.take(index + 1);
            assert(longer.drop_last() =~= values@.take(index as int));
            assert(longer.last() == values@[index as int]);
        }
        if index > 0 {
            text.append(", ");
        }
        push_decimal(text, values[index] as u64);
        assert(text@ =~= before + listed(values@.take(index + 1)));
        index += 1;
    }
    assert(values@.take(index as int) =~= values@);
}

/// The predicates on transactions.
pub open spec fn transaction_predicates(request: DataRequest) -> Seq<Seq<char>> {
    let senders = if request.filters.senders@.len() > 0 {
        seq![count_predicate("from_address"@, request.filters.senders@.len())]
    } else {
        Seq::empty()
    };
    let recipients = if request.filters.recipients@.len() > 0 {
        seq![count_predicate("to_address"@, request.filters.recipients@.len())]
    } else {
        Seq::empty()
    };
    let types = if request.filters.scope.transaction_types@.len() > 0 {
        seq![
            "transaction_type IN ["@ + listed(request.filters.scope.transaction_types@) + "]"@,
        ]
    } else {
        Seq::empty()
    };
    seq![range_predicate(request.range)] + senders + recipients + types
}

proof fn lemma_texts_push(values: Seq<String>, value: String)
    ensures
        texts(values.push(value)) == texts(values).push(value@),
{
    assert(texts(values.push(value)) =~= texts(values).push(value@));
}

fn transaction_predicate_list(request: &DataRequest) -> (predicates: Vec<String>)
    ensures
        texts(predicates@) == transaction_predicates(*request),
{
    let mut predicates: Vec<String> = Vec::new();
    predicates.push(range_text(request.range));
    let ghost mut expected = seq![range_predicate(request.range)];
    assert(texts(predicates@) =~= expected);
    if request.filters.senders.len() > 0 {
        let text: String = count_text("from_address", request.filters.senders.len());
        proof {
            lemma_texts_push(predicates@, text);
            expected = expected.push(text@);
        }
        predicates.push(text);
    }
    if request.filters.recipients.len() > 0 {
        let text: String = count_text("to_address", request.filters.recipients.len());
        proof {
            lemma_texts_push(predicates@, text);
            expected = expected.push(text@);
        }
        predicates.push(text);
    }
    if request.filters.scope.transaction_types.len() > 0 {
        let mut text: String = "transaction_type IN [".to_owned();
        push_listed(&mut text, &request.filters.scope.transaction_types);
        text.append("]");
        proof {
            lemma_texts_push(predicates@, text);
            expected = expected.push(text@);
        }
        predicates.push(text);
    }
    assert(expected =~= transaction_predicates(*request));
    predicates
}

/// The predicate of a topic filter.
pub open spec fn topic_predicate(filter: TopicFilter) -> Seq<char> {
    count_predicate(
        "topic"@ + decimal_digits(filter.position as nat),
        filter.alternatives@.len(),
    )
}

/// The predicates on logs.
pub open spec fn log_predicates(request: DataRequest) -> Seq<Seq<char>> {
    let addresses = if request.filters.scope.addresses@.len() > 0 {
        seq![count_predicate("address"@, request.filters.scope.addresses@.len())]
    } else {
        Seq::empty()
    };
    seq![range_predicate(request.range)] + addresses
        + request.filters.scope.topics@.map_values(|filter: TopicFilter| topic_predicate(filter))
}

fn log_predicate_list(request: &DataRequest) -> (predicates: Vec<String>)
    ensures
        texts(predicates@) == log_predicates(*request),
{
    let mut predicates: Vec<String> = Vec::new();
    predicates.push(range_text(request.range));
    assert(texts(predicates@) =~= seq![range_predicate(request.range)]);
    if request.filters.scope.addresses.len() > 0 {
        let text: String = count_text("address", request.filters.scope.addresses.len());
        proof {
            lemma_texts_push(predicates@, text);
        }
        predicates.push(text);
    }
    let topics: &Vec<TopicFilter> = &request.filters.scope.topics;
    let ghost before = texts(predicates@);
    let ghost wanted = topics@.map_values(|filter: TopicFilter| topic_predicate(filter));
    let mut index: usize = 0;
    assert(before + wanted.take(0) =~= before);
    while index < topics.len()
        invariant
            index <= topics@.len(),
            wanted == topics@.map_values(|filter: TopicFilter| topic_predicate(filter)),
            texts(predicates@) == before + wanted.take(index as int),
        decreases topics@.len() - index,
    {
        let mut name: String = "topic".to_owned();
        push_decimal(&mut name, topics[index].position as u64);
        let text: String = count_text(name.as_str(), topics[index].alternatives.len());
        proof {
            lemma_texts_push(predicates@, text);
            assert(text@ == topic_predicate(topics@[index as int]));
            assert((before + wanted.take(index as int)).push(text@) =~= before + wanted.take(
                index + 1,
            ));
        }
        predicates.push(text);
        index += 1;
    }
    assert(wanted.take(index as int) =~= wanted);
    assert(before + wanted =~= log_predicates(*request));
    predicates
}

/// The operations that serve a request.
pub open spec fn operations(mode: ProjectionMode, request: DataRequest) -> Seq<OperationView> {
    let range = seq![range_predicate(request.range)];
    let days = seq!["UTC date partitions derived from selected execution blocks"@];
    if mode == ProjectionMode::Blobs {
        seq![
            OperationView {
                reader: PhysicalReader::Block,
                table: "canonical_execution_block"@,
                columns: column_names(BlobsStage::ExecutionBlocks.spec_columns()),
                predicates: range,
            },
            OperationView {
                reader: PhysicalReader::Block,
                table: "canonical_beacon_block"@,
                columns: column_names(BlobsStage::BeaconBlocks.spec_columns()),
                predicates: days,
            },
            OperationView {
                reader: PhysicalReader::Transaction,
                table: "canonical_beacon_block_execution_transaction"@,
                columns: column_names(BlobsStage::BeaconTransactions.spec_columns()),
                predicates: seq!["type = 3"@],
            },
            OperationView {
                reader: PhysicalReader::Receipt,
                table: "canonical_execution_transaction"@,
                columns: column_names(BlobsStage::ExecutionTransactions.spec_columns()),
                predicates: range.push("transaction_type = 3"@),
            },
            OperationView {
                reader: PhysicalReader::Block,
                table: "canonical_beacon_block_withdrawal"@,
                columns: column_names(BlobsStage::Withdrawals.spec_columns()),
                predicates: seq!["slots selected by canonical beacon blocks"@],
            },
        ]
    } else {
        let blocks = seq![
            OperationView {
                reader: PhysicalReader::Block,
                table: "canonical_execution_block"@,
                columns: column_names(GenericStage::ExecutionBlocks.fixed_columns()),
                predicates: range,
            },
            OperationView {
                reader: PhysicalReader::Block,
                table: "canonical_beacon_block"@,
                columns: column_names(GenericStage::BeaconBlocks.fixed_columns()),
                predicates: days,
            },
        ];
        match mode {
            ProjectionMode::Transactions => blocks.push(
                OperationView {
                    reader: PhysicalReader::Transaction,
                    table: "canonical_execution_transaction"@,
                    columns: column_names(GenericStage::Transactions.fixed_columns()),
                    predicates: transaction_predicates(request),
                },
            ),
            ProjectionMode::Logs => blocks.push(
                OperationView {
                    reader: PhysicalReader::Log,
                    table: "canonical_execution_logs"@,
                    columns: column_names(log_columns(request.log_fields, request.filters)),
                    predicates: log_predicates(request),
                },
            ),
            _ => blocks,
        }
    }
}

/// The operations of a plan are these, in order.
pub open spec fn are_operations(
    plan: Seq<PhysicalPlanOperation>,
    expected: Seq<OperationView>,
) -> bool {
    &&& plan.len() == expected.len()
    &&& forall|i: int| 0 <= i < plan.len() ==> is_operation(#[trigger] plan[i], expected[i])
}

fn single(text: &'static str) -> (list: Vec<String>)
    ensures
        texts(list@) == seq![text@],
{
    let mut list: Vec<String> = Vec::new();
    list.push(text.to_owned());
    assert(texts(list@) =~= seq![text@]);
    list
}

fn range_list(range: BlockRange) -> (list: Vec<String>)
    ensures
        texts(list@) == seq![range_predicate(range)],
{
    let mut list: Vec<String> = Vec::new();
    list.push(range_text(range));
    assert(texts(list@) =~= seq![range_predicate(range)]);
    list
}

/// Tells the physical operations that serve a request.
pub fn physical_plan(mode: ProjectionMode, request: &DataRequest) -> (plan: Vec<
    PhysicalPlanOperation,
>)
    ensures
        are_operations(plan@, operations(mode, *request)),
{
    let mut plan: Vec<PhysicalPlanOperation> = Vec::new();
    if mode == ProjectionMode::Blobs {
        plan.push(
            operation(
                PhysicalReader::Block,
                XatuTable::CanonicalExecutionBlock,
                BlobsStage::ExecutionBlocks.columns(),
                range_list(request.range),
            ),
        );
        plan.push(
            operation(
                PhysicalReader::Block,
                XatuTable::CanonicalBeaconBlock,
                BlobsStage::BeaconBlocks.columns(),
                single("UTC date partitions derived from selected execution blocks"),
            ),
        );
        plan.push(
            operation(
                PhysicalReader::Transaction,
                XatuTable::CanonicalBeaconBlockExecutionTransaction,
                BlobsStage::BeaconTransactions.columns(),
                single("type = 3"),
            ),
        );
        let mut receipts: Vec<String> = range_list(request.range);
        let text: String = "transaction_type = 3".to_owned();
        proof {
            lemma_texts_push(receipts@, text);
        }
        receipts.push(text);
        plan.push(
            operation(
                PhysicalReader::Receipt,
                XatuTable::CanonicalExecutionTransaction,
                BlobsStage::ExecutionTransactions.columns(),
                receipts,
            ),
        );
        plan.push(
            operation(
                PhysicalReader::Block,
                XatuTable::CanonicalBeaconBlockWithdrawal,
                BlobsStage::Withdrawals.columns(),
                single("slots selected by canonical beacon blocks"),
            ),
        );
        return plan;
    }
    plan.push(
        operation(
            PhysicalReader::Block,
            XatuTable::CanonicalExecutionBlock,
            GenericStage::ExecutionBlocks.columns(),
            range_list(request.range),
        ),
    );
    plan.push(
        operation(
            PhysicalReader::Block,
            XatuTable::CanonicalBeaconBlock,
            GenericStage::BeaconBlocks.columns(),
            single("UTC date partitions derived from selected execution blocks"),
        ),
    );
    match mode {
        ProjectionMode::Transactions => {
            plan.push(
                operation(
                    PhysicalReader::Transaction,
                    XatuTable::CanonicalExecutionTransaction,
                    GenericStage::Transactions.columns(),
                    transaction_predicate_list(request),
                ),
            );
        },
        ProjectionMode::Logs => {
            plan.push(
                operation(
                    PhysicalReader::Log,
                    XatuTable::CanonicalExecutionLogs,
                    generic_log_columns(request.log_fields, &request.filters),
                    log_predicate_list(request),
                ),
            );
        },
        _ => {},
    }
    plan
}

/// The public dataset as a source of history.
#[derive(Debug)]
pub struct XatuHistorySource {
    pub descriptor: SourceDescriptor,
    pub projector: XatuBlobsProjector,
    pub chunk_blocks: u64,
    pub blobs_chunk_blocks: u64,
    pub batch_rows: usize,
    pub acquisition_metrics: SourceAcquisitionMetrics,
}

/// A projection that serves a chunk.
#[derive(Debug)]
pub enum OpenedProjection {
    Blobs(BlobsRun),
    Generic(GenericRun),
}

/// What the dataset offers.
pub open spec fn offered() -> CapabilitySet {
    three(Capability::Header, Capability::Transactions, Capability::Receipts).spec_with(
        Capability::Logs,
    )
}

/// The history source under the name it has in the blobs projection.
pub type XatuBlobsHistorySource = XatuHistorySource;

impl XatuHistorySource {
    /// Chunks are whole partitions.
    pub open spec fn wf(self) -> bool {
        &&& self.chunk_blocks > 0
        &&& self.blobs_chunk_blocks > 0
        &&& self.batch_rows > 0
    }

    /// Configures a read-only public history source.
    pub fn new(config: XatuHistoryConfig) -> (outcome: Result<XatuHistorySource, XatuError>)
        requires
            config.range matches Some(range) ==> range.wf(),
        ensures
            match outcome {
                Ok(source) => {
                    &&& config.sound()
                    &&& source.wf()
                    &&& source.descriptor.id@ == "xatu-"@ + config.catalog.network@
                    &&& source.descriptor.kind == SourceKind::PublicDataset
                    &&& source.descriptor.chain_id == ChainId(1)
                    &&& source.descriptor.range == Some(config.supported())
                    &&& source.descriptor.capabilities == offered()
                    &&& source.descriptor.complete_capabilities == CapabilitySet::spec_none()
                    &&& source.descriptor.trust == TrustModel::TrustedDataset
                    &&& source.descriptor.finality == FinalityModel::Finalized
                    &&& source.descriptor.partitioning matches Partitioning::SourceDefined(name)
                        && name@ == "xatu-projection-aware-block-span"@
                    &&& source.descriptor.expected_lag_millis == 900000
                    &&& source.descriptor.schema_version@ == SCHEMA_VERSION@
                    &&& source.descriptor.priority == config.priority
                    &&& source.projector.catalog.config == config.catalog
                    &&& source.chunk_blocks == config.chunk_blocks
                    &&& source.blobs_chunk_blocks == config.blobs_chunk_blocks
                    &&& source.batch_rows == config.batch_rows
                    &&& source.acquisition_metrics.is_unused()
                },
                Err(error) => !config.sound() && error == XatuError::BlockRange,
            },
    {
        if config.chunk_blocks == 0 || config.chunk_blocks % PHYSICAL_PARTITION_BLOCKS != 0
            || config.blobs_chunk_blocks == 0 || config.blobs_chunk_blocks
            % PHYSICAL_PARTITION_BLOCKS != 0 || config.batch_rows == 0 {
            return Err(XatuError::BlockRange);
        }
        let range: BlockRange = match config.range {
            Some(requested) => {
                if requested.end.0 < MAINNET_MERGE_BLOCK {
                    return Err(XatuError::BlockRange);
                }
                let start: BlockNumber = if requested.start.0 >= MAINNET_MERGE_BLOCK {
                    requested.start
                } else {
                    BlockNumber(MAINNET_MERGE_BLOCK)
                };
                BlockRange { start, end: requested.end }
            },
            None => BlockRange {
                start: BlockNumber(MAINNET_MERGE_BLOCK),
                end: BlockNumber(u64::MAX),
            },
        };
        let id: String = joined("xatu-", config.catalog.network.as_str());
        Ok(
            XatuHistorySource {
                descriptor: SourceDescriptor {
                    id,
                    kind: SourceKind::PublicDataset,
                    chain_id: ChainId(1),
                    range: Some(range),
                    capabilities: CapabilitySet::of(Capability::Header).with(
                        Capability::Transactions,
                    ).with(Capability::Receipts).with(Capability::Logs),
                    complete_capabilities: CapabilitySet::none(),
                    trust: TrustModel::TrustedDataset,
                    finality: FinalityModel::Finalized,
                    partitioning: Partitioning::SourceDefined(
                        "xatu-projection-aware-block-span".to_owned(),
                    ),
                    expected_lag_millis: 900000,
                    schema_version: SCHEMA_VERSION.to_owned(),
                    priority: config.priority,
                },
                projector: XatuBlobsProjector::new(XatuCatalog::new(config.catalog)),
                chunk_blocks: config.chunk_blocks,
                blobs_chunk_blocks: config.blobs_chunk_blocks,
                batch_rows: config.batch_rows,
                acquisition_metrics: SourceAcquisitionMetrics::new(),
            },
        )
    }

    pub fn descriptor(&self) -> (descriptor: &SourceDescriptor)
        ensures
            *descriptor == self.descriptor,
    {
        &self.descriptor
    }

    /// Why a request is not planned.
    pub open spec fn plan_problem(self, request: DataRequest) -> Option<SourceError> {
        if request.chain_id != self.descriptor.chain_id {
            Some(
                SourceError::InvalidPlan("Xatu history currently supports Ethereum mainnet only"),
            )
        } else if request.range.start.0 < MAINNET_MERGE_BLOCK {
            Some(
                SourceError::InvalidPlan(
                    "Xatu execution projections require Beacon parent hashes; request blocks from 15537394 (the Merge) onward, or select a source supporting pre-Merge history",
                ),
            )
        } else if self.descriptor.range matches Some(available) && (available.start.0
            > request.range.start.0 || available.end.0 < request.range.end.0) {
            Some(SourceError::MissingRange(request.range))
        } else if !request.allow_filtered {
            Some(
                SourceError::InvalidPlan("Xatu history is a dataset-declared predicate projection"),
            )
        } else if request.verification_policy == VerificationPolicy::CompleteCryptographic {
            Some(
                SourceError::InvalidPlan(
                    "Xatu filtered rows require trusted-dataset verification policy",
                ),
            )
        } else {
            match mode_of(request) {
                Err(reason) => Some(SourceError::InvalidPlan(reason)),
                Ok(_) => None,
            }
        }
    }

    /// Blocks of a chunk that serves a request.
    pub open spec fn span_of(self, mode: ProjectionMode) -> u64 {
        if mode == ProjectionMode::Blobs {
            self.blobs_chunk_blocks
        } else {
            self.chunk_blocks
        }
    }

    /// A chunk of a plan.
    pub open spec fn is_chunk(
        self,
        chunk: SourceChunk,
        mode: ProjectionMode,
        range: BlockRange,
        request: DataRequest,
    ) -> bool {
        &&& chunk.source_id == self.descriptor.id
        &&& chunk.range == range
        &&& chunk.partition@ == identity_encoded(request_parts(mode, range, request))
        &&& identity_decoded(chunk.partition@) == Ok::<IdentityParts, Seq<char>>(
            request_parts(mode, range, request),
        )
        &&& chunk.schema_version == self.descriptor.schema_version
        &&& chunk.expected_parent is None
        &&& chunk.estimated_bytes is None
    }

    /// The plan that serves a request.
    pub open spec fn is_plan(self, request: DataRequest, plan: SourcePlan) -> bool {
        let mode = mode_of(request)->Ok_0;
        let ranges = aligned_ranges(
            request.range.start.0,
            request.range.end.0,
            self.span_of(mode),
        );
        &&& plan.source_id == self.descriptor.id
        &&& plan.request.alike(request)
        &&& plan.chunks@.len() == ranges.len()
        &&& forall|i: int|
            0 <= i < ranges.len() ==> self.is_chunk(
                #[trigger] plan.chunks@[i],
                mode,
                ranges[i],
                request,
            )
        &&& plan.estimated_bytes is None
        &&& plan.estimated_lag_millis == self.descriptor.expected_lag_millis
        &&& plan.supplied == request.required
        &&& plan.complete == self.descriptor.complete_capabilities
        &&& plan.trust == self.descriptor.trust
        &&& plan.schema_version == self.descriptor.schema_version
        &&& are_operations(plan.physical_plan@, operations(mode, request))
    }

    fn plan_chunks(&self, mode: ProjectionMode, request: &DataRequest) -> (chunks: Vec<SourceChunk>)
        requires
            self.wf(),
            request.range.wf(),
        ensures
            ({
                let ranges = aligned_ranges(
                    request.range.start.0,
                    request.range.end.0,
                    self.span_of(mode),
                );
                &&& chunks@.len() == ranges.len()
                &&& forall|i: int|
                    0 <= i < ranges.len() ==> self.is_chunk(
                        #[trigger] chunks@[i],
                        mode,
                        ranges[i],
                        *request,
                    )
            }),
    {
        let span: u64 = if mode == ProjectionMode::Blobs {
            self.blobs_chunk_blocks
        } else {
            self.chunk_blocks
        };
        let limit: u64 = request.range.end.0;
        let mut chunks: Vec<SourceChunk> = Vec::new();
        let mut start: u64 = request.range.start.0;
        let ghost ranges = aligned_ranges(start, limit, span);
        assert(ranges.skip(0) =~= ranges);
        loop
            invariant
                span > 0,
                span == self.span_of(mode),
                limit == request.range.end.0,
                start <= limit,
                ranges == aligned_ranges(request.range.start.0, limit, span),
                chunks@.len() <= ranges.len(),
                ranges.skip(chunks@.len() as int) == aligned_ranges(start, limit, span),
                forall|i: int|
                    0 <= i < chunks@.len() ==> self.is_chunk(
                        #[trigger] chunks@[i],
                        mode,
                        ranges[i],
                        *request,
                    ),
            decreases limit - start,
        {
            proof {
                lemma_span_end(start, limit, span);
            }
            // Boundaries lie on physical partitions: a fixed span from an
            // arbitrary start would read every interior object twice.
            let whole: u64 = start / span;
            assert(whole * span <= start) by (nonlinear_arith)
                requires
                    whole == start / span,
                    span > 0,
            ;
            let partition_start: u64 = whole * span;
            let last: u64 = partition_start.saturating_add(span - 1);
            let end: u64 = if last <= limit {
                last
            } else {
                limit
            };
            assert(end == span_end(start, limit, span));
            let range: BlockRange = BlockRange {
                start: BlockNumber(start),
                end: BlockNumber(end),
            };
            let ghost place = chunks@.len() as int;
            proof {
                let tail = aligned_ranges(start, limit, span);
                assert(tail[0] == range);
                assert(tail.len() >= 1);
                assert(ranges.skip(place).len() == ranges.len() - place);
                assert(ranges[place] == ranges.skip(place)[0]);
            }
            chunks.push(
                SourceChunk {
                    source_id: self.descriptor.id.clone(),
                    range,
                    partition: encode_partition(mode, range, request),
                    schema_version: self.descriptor.schema_version.clone(),
                    expected_parent: None,
                    estimated_bytes: None,
                },
            );
            if end == limit {
                assert(ranges.skip(place).len() == 1);
                return chunks;
            }
            proof {
                let tail = aligned_ranges(start, limit, span);
                let rest = aligned_ranges((end + 1) as u64, limit, span);
                assert(tail =~= seq![range] + rest);
                assert(ranges.skip(place + 1) =~= ranges.skip(place).skip(1));
                assert((seq![range] + rest).skip(1) =~= rest);
            }
            start = end + 1;
        }
    }

    /// Plans a request.
    pub fn plan(&self, request: &DataRequest) -> (outcome: Result<SourcePlan, SourceError>)
        requires
            self.wf(),
            request.range.wf(),
        ensures
            match self.plan_problem(*request) {
                Some(problem) => outcome == Err::<SourcePlan, SourceError>(problem),
                None => outcome matches Ok(plan) && self.is_plan(*request, plan),
            },
    {
        if request.chain_id != self.descriptor.chain_id {
            return Err(
                SourceError::InvalidPlan("Xatu history currently supports Ethereum mainnet only"),
            );
        }
        if request.range.start.0 < MAINNET_MERGE_BLOCK {
            return Err(
                SourceError::InvalidPlan(
                    "Xatu execution projections require Beacon parent hashes; request blocks from 15537394 (the Merge) onward, or select a source supporting pre-Merge history",
                ),
            );
        }
        if let Some(available) = self.descriptor.range {
            if available.start.0 > request.range.start.0 || available.end.0
                < request.range.end.0 {
                return Err(SourceError::MissingRange(request.range));
            }
        }
        if !request.allow_filtered {
            return Err(
                SourceError::InvalidPlan("Xatu history is a dataset-declared predicate projection"),
            );
        }
        if request.verification_policy == VerificationPolicy::CompleteCryptographic {
            return Err(
                SourceError::InvalidPlan(
                    "Xatu filtered rows require trusted-dataset verification policy",
                ),
            );
        }
        let mode: ProjectionMode = projection_mode(request)?;
        let chunks: Vec<SourceChunk> = self.plan_chunks(mode, request);
        Ok(
            SourcePlan {
                source_id: self.descriptor.id.clone(),
                request: request.clone(),
                chunks,
                estimated_bytes: None,
                estimated_lag_millis: self.descriptor.expected_lag_millis,
                supplied: request.required,
                complete: self.descriptor.complete_capabilities,
                trust: self.descriptor.trust,
                schema_version: self.descriptor.schema_version.clone(),
                physical_plan: physical_plan(mode, request),
            },
        )
    }

    /// What chunks have in common that can be read together: their identity
    /// without its range.
    pub fn coalescing_partition_identity(&self, chunk: &SourceChunk) -> (identity: Vec<u8>)
        ensures
            identity@ == coalescing_of(chunk.partition@),
    {
        match decode_partition(chunk.partition.as_slice()) {
            Ok(identity) => {
                let mut identity: PartitionIdentity = identity;
                identity.range = BlockRange { start: BlockNumber(0), end: BlockNumber(0) };
                identity.encode()
            },
            Err(_) => {
                let mut identity: Vec<u8> = Vec::new();
                push_bytes(&mut identity, chunk.partition.as_slice());
                assert(identity@ =~= chunk.partition@);
                identity
            },
        }
    }

    /// Narrows a planned chunk to a part of its range.
    pub fn slice_chunk(&self, chunk: &SourceChunk, range: BlockRange) -> (outcome: Result<
        SourceChunk,
        SourceError,
    >)
        ensures
            if range.start.0 < chunk.range.start.0 || range.end.0 > chunk.range.end.0 {
                outcome == Err::<SourceChunk, SourceError>(
                    SourceError::InvalidPlan("coalesced Xatu subrange exceeds its planned chunk"),
                )
            } else {
                match identity_decoded(chunk.partition@) {
                    Ok(parts) if are_valid(parts) && parts.version == IDENTITY_VERSION => {
                        let narrowed = IdentityParts {
                            range: (range.start.0, range.end.0),
                            ..parts
                        };
                        &&& outcome is Ok
                        &&& outcome->Ok_0.source_id == chunk.source_id
                        &&& outcome->Ok_0.range == range
                        &&& outcome->Ok_0.partition@ == identity_encoded(narrowed)
                        &&& identity_decoded(outcome->Ok_0.partition@) == Ok::<
                            IdentityParts,
                            Seq<char>,
                        >(narrowed)
                        &&& outcome->Ok_0.schema_version == chunk.schema_version
                        &&& outcome->Ok_0.expected_parent is None
                        &&& outcome->Ok_0.estimated_bytes is None
                    },
                    _ => outcome matches Err(error) && is_identity(
                        chunk.partition@,
                        Err::<PartitionIdentity, SourceError>(error),
                    ),
                }
            },
    {
        if range.start.0 < chunk.range.start.0 || range.end.0 > chunk.range.end.0 {
            return Err(
                SourceError::InvalidPlan("coalesced Xatu subrange exceeds its planned chunk"),
            );
        }
        let mut identity: PartitionIdentity = decode_partition(chunk.partition.as_slice())?;
        identity.range = range;
        Ok(
            SourceChunk {
                source_id: chunk.source_id.clone(),
                range,
                partition: identity.encode(),
                schema_version: chunk.schema_version.clone(),
                expected_parent: None,
                estimated_bytes: None,
            },
        )
    }

    /// A chunk that this source planned.
    pub open spec fn owns(self, chunk: SourceChunk, parts: IdentityParts) -> bool {
        &&& chunk.source_id@ == self.descriptor.id@
        &&& chunk.schema_version@ == self.descriptor.schema_version@
        &&& parts.range == (chunk.range.start.0, chunk.range.end.0)
    }

    /// Opens a chunk: counts it, and starts the projection that serves it.
    pub fn open(&mut self, chunk: &SourceChunk, budget: SourceBudget) -> (outcome: Result<
        OpenedProjection,
        SourceError,
    >)
        requires
            old(self).wf(),
        ensures
            final(self).wf(),
            match identity_decoded(chunk.partition@) {
                Ok(parts) if are_valid(parts) && parts.version == IDENTITY_VERSION => if !old(
                    self,
                ).owns(*chunk, parts) {
                    &&& *final(self) == *old(self)
                    &&& outcome == Err::<OpenedProjection, SourceError>(
                        SourceError::InvalidPlan("Xatu chunk identity does not match this source"),
                    )
                } else {
                    &&& *final(self) == (XatuHistorySource {
                        acquisition_metrics: SourceAcquisitionMetrics {
                            opened_chunks: capped(
                                old(self).acquisition_metrics.opened_chunks + 1,
                            ),
                            opened_ranges: final(self).acquisition_metrics.opened_ranges,
                            ..old(self).acquisition_metrics
                        },
                        ..*old(self)
                    })
                    &&& final(self).acquisition_metrics.opened_ranges@ == old(
                        self,
                    ).acquisition_metrics.opened_ranges@.push(chunk.range)
                    &&& match outcome {
                        Ok(OpenedProjection::Blobs(run)) => {
                            &&& ProjectionMode::spec_from_tag(parts.mode) == Some(
                                ProjectionMode::Blobs,
                            )
                            &&& BlobsRun::is_started(
                                old(self).projector.catalog,
                                chunk.range,
                                None,
                                budget,
                                old(self).batch_rows,
                                Ok(run),
                            )
                        },
                        Ok(OpenedProjection::Generic(run)) => {
                            &&& ProjectionMode::spec_from_tag(parts.mode) matches Some(mode)
                                && mode.spec_generic_kind() == Some(run.kind)
                            &&& start_problem(budget, old(self).batch_rows) is None
                            &&& old(self).projector.catalog.chunks_resolve(
                                XatuTable::CanonicalExecutionBlock,
                                chunk.range,
                            )
                            &&& run.is_begun(
                                old(self).projector.catalog,
                                chunk.range,
                                run.kind,
                                budget,
                            )
                            &&& parts_of(
                                IDENTITY_VERSION,
                                ProjectionMode::spec_from_tag(parts.mode)->0,
                                chunk.range,
                                run.filters,
                                run.log_fields,
                                run.include_header,
                            ) == parts
                        },
                        Err(error) => {
                            ||| start_problem(budget, old(self).batch_rows) matches Some(problem)
                                && is_source_error(problem, error)
                            ||| start_problem(budget, old(self).batch_rows) is None && exists|
                                problem: XatuError,
                            | #[trigger]
                                is_source_error(problem, error)
                                    && old(self).projector.catalog.is_chunk_problem(
                                    XatuTable::CanonicalExecutionBlock,
                                    chunk.range,
                                    problem,
                                )
                        },
                    }
                },
                _ => {
                    &&& *final(self) == *old(self)
                    &&& outcome matches Err(error) && is_identity(
                        chunk.partition@,
                        Err::<PartitionIdentity, SourceError>(error),
                    )
                },
            },
    {
        let identity: PartitionIdentity = decode_partition(chunk.partition.as_slice())?;
        if !same_text(chunk.source_id.as_str(), self.descriptor.id.as_str()) || !same_text(
            chunk.schema_version.as_str(),
            self.descriptor.schema_version.as_str(),
        ) || identity.range != chunk.range {
            return Err(
                SourceError::InvalidPlan("Xatu chunk identity does not match this source"),
            );
        }
        self.acquisition_metrics.opened(chunk.range);
        match identity.mode.generic_kind() {
            None => match self.projector.project_auto_dates(chunk.range, budget, self.batch_rows) {
                Ok(run) => Ok(OpenedProjection::Blobs(run)),
                Err(error) => Err(source_error(error)),
            },
            Some(kind) => match self.projector.project_generic(
                chunk.range,
                kind,
                &identity.filters,
                identity.log_fields,
                identity.include_header,
                budget,
                self.batch_rows,
            ) {
                Ok(run) => {
                    proof {
                        lemma_alike_parts(
                            IDENTITY_VERSION,
                            identity.mode,
                            chunk.range,
                            run.filters,
                            identity.filters,
                            identity.log_fields,
                            identity.include_header,
                        );
                    }
                    Ok(OpenedProjection::Generic(run))
                },
                Err(error) => Err(source_error(error)),
            },
        }
    }
}

/// An identity without its range, where there is one.
pub open spec fn coalescing_of(partition: Seq<u8>) -> Seq<u8> {
    match identity_decoded(partition) {
        Ok(parts) if are_valid(parts) && parts.version == IDENTITY_VERSION => identity_encoded(
            (IdentityParts { range: (0, 0), ..parts }),
        ),
        _ => partition,
    }
}

/// A part of a chunk can be read together with what the chunk can be read
/// together with.
pub proof fn law_slices_coalesce(
    chunk: Seq<u8>,
    sliced: Seq<u8>,
    parts: IdentityParts,
    range: BlockRange,
)
    requires
        range.wf(),
        identity_decoded(chunk) == Ok::<IdentityParts, Seq<char>>(parts),
        are_valid(parts),
        parts.version == IDENTITY_VERSION,
        identity_decoded(sliced) == Ok::<IdentityParts, Seq<char>>(
            (IdentityParts { range: (range.start.0, range.end.0), ..parts }),
        ),
    ensures
        coalescing_of(sliced) == coalescing_of(chunk),
{
}

/// A list of texts in brackets, each in quotation marks, but for the closing
/// bracket.
pub open spec fn quoted_list(values: Seq<Seq<char>>) -> Seq<char>
    decreases values.len(),
{
    if values.len() == 0 {
        "["@
    } else if values.len() == 1 {
        "["@ + quoted(values[0])
    } else {
        quoted_list(values.drop_last()) + ", "@ + quoted(values.last())
    }
}

/// Appends a list of texts in brackets, but for the closing one.
pub fn push_quoted_list(text: &mut String, values: &Vec<String>)
    ensures
        final(text)@ == old(text)@ + quoted_list(texts(values@)),
{
    let ghost before = text@;
    let ghost all = texts(values@);
    text.append("[");
    let mut index: usize = 0;
    assert(all.take(0) =~= Seq::<Seq<char>>::empty());
    while index < values.len()
        invariant
            index <= values@.len(),
            all == texts(values@),
            text@ == before + quoted_list(all.take(index as int)),
        decreases values@.len() - index,
    {
        proof {
            let longer = all.take(index + 1);
            assert(longer.drop_last() =~= all.take(index as int));
            assert(longer.last() == values@[index as int]@);
        }
        if index > 0 {
            text.append(", ");
        }
        text.append("\"");
        text.append(values[index].as_str());
        text.append("\"");
        assert(text@ =~= before + quoted_list(all.take(index + 1)));
        index += 1;
    }
    assert(all.take(index as int) =~= all);
}

/// How a coverage problem is told.
pub open spec fn coverage_text(
    table: XatuTable,
    range: BlockRange,
    expected: usize,
    actual: usize,
) -> Seq<char> {
    "Xatu table "@ + table.spec_name()@
        + " does not completely cover BlockRange { start: BlockNumber("@ + decimal_digits(
        range.start.0 as nat,
    ) + "), end: BlockNumber("@ + decimal_digits(range.end.0 as nat) + ") }: expected "@
        + decimal_digits(expected as nat) + " rows, received "@ + decimal_digits(actual as nat)
}

/// What an error of the dataset means for a source. A location that cannot be
/// parsed is told in the words of the parser.
pub open spec fn is_source_error(error: XatuError, result: SourceError) -> bool {
    match error {
        XatuError::Cancelled => result == SourceError::Cancelled,
        XatuError::Budget { resource, actual, limit } => result == SourceError::BudgetExceeded {
            resource,
            limit,
            observed: actual,
        },
        XatuError::ObjectStore(detail) => result == SourceError::Unavailable(detail),
        XatuError::IncompleteRange { table, range, expected, actual } => {
            result matches SourceError::IncompleteRange { range: missing, detail } && missing
                == range && detail@ == coverage_text(table, range, expected, actual)
        },
        XatuError::Data(problem) => result == SourceError::CorruptRows(problem),
        XatuError::UnexpectedType { column, data_type } => result == SourceError::CorruptColumn {
            column,
            data_type,
        },
        XatuError::NotBinary { data_type } => result == SourceError::CorruptValues { data_type },
        XatuError::UnsupportedVersion(version) => result == SourceError::UnsupportedBlockVersion(
            version,
        ),
        XatuError::Schema { table, missing } => {
            result matches SourceError::Protocol(detail) && detail@ == "Xatu "@
                + table.spec_name()@ + " schema is missing "@ + quoted_list(texts(missing@))
                + "]"@
        },
        XatuError::PartitionKind => is_protocol(
            result,
            "Xatu table uses another partition kind"@,
        ),
        XatuError::Date => is_protocol(result, "invalid Xatu date"@),
        XatuError::Network(name) => is_protocol(result, "invalid Xatu network name: "@ + name@),
        XatuError::BlockRange => is_protocol(
            result,
            "invalid block range for Xatu partitioning"@,
        ),
        XatuError::Concurrency => is_protocol(
            result,
            "catalog concurrency must be greater than zero"@,
        ),
        XatuError::Parquet(detail) => is_protocol(result, "Xatu Parquet error: "@ + detail@),
        XatuError::Url(words) => is_protocol(result, "Xatu URL error: "@ + words@),
    }
}

pub open spec fn is_protocol(result: SourceError, text: Seq<char>) -> bool {
    result matches SourceError::Protocol(detail) && detail@ == text
}

/// Tells what an error of the dataset means for a source.
pub fn source_error(error: XatuError) -> (result: SourceError)
    ensures
        is_source_error(error, result),
{
    match error {
        XatuError::Cancelled => SourceError::Cancelled,
        XatuError::Budget { resource, actual, limit } => SourceError::BudgetExceeded {
            resource,
            limit,
            observed: actual,
        },
        XatuError::ObjectStore(detail) => SourceError::Unavailable(detail),
        XatuError::IncompleteRange { table, range, expected, actual } => {
            let mut detail: String = joined("Xatu table ", table.name());
            detail.append(" does not completely cover BlockRange { start: BlockNumber(");
            push_decimal(&mut detail, range.start.0);
            detail.append("), end: BlockNumber(");
            push_decimal(&mut detail, range.end.0);
            detail.append(") }: expected ");
            push_decimal(&mut detail, expected as u64);
            detail.append(" rows, received ");
            push_decimal(&mut detail, actual as u64);
            SourceError::IncompleteRange { range, detail }
        },
        XatuError::Data(problem) => SourceError::CorruptRows(problem),
        XatuError::UnexpectedType { column, data_type } => SourceError::CorruptColumn {
            column,
            data_type,
        },
        XatuError::NotBinary { data_type } => SourceError::CorruptValues { data_type },
        XatuError::UnsupportedVersion(version) => SourceError::UnsupportedBlockVersion(version),
        XatuError::Schema { table, missing } => {
            let mut detail: String = joined("Xatu ", table.name());
            detail.append(" schema is missing ");
            push_quoted_list(&mut detail, &missing);
            detail.append("]");
            SourceError::Protocol(detail)
        },
        XatuError::PartitionKind => SourceError::Protocol(
            "Xatu table uses another partition kind".to_owned(),
        ),
        XatuError::Date => SourceError::Protocol("invalid Xatu date".to_owned()),
        XatuError::Network(name) => SourceError::Protocol(
            joined("invalid Xatu network name: ", name.as_str()),
        ),
        XatuError::BlockRange => SourceError::Protocol(
            "invalid block range for Xatu partitioning".to_owned(),
        ),
        XatuError::Concurrency => SourceError::Protocol(
            "catalog concurrency must be greater than zero".to_owned(),
        ),
        XatuError::Parquet(detail) => SourceError::Protocol(
            joined("Xatu Parquet error: ", detail.as_str()),
        ),
        XatuError::Url(words) => SourceError::Protocol(
            joined("Xatu URL error: ", words.as_str()),
        ),
    }
}

/// The chunks of a plan cover the request exactly.
pub proof fn law_dataset_plans_cover_exactly(
    source: XatuHistorySource,
    request: DataRequest,
    plan: SourcePlan,
)
    requires
        source.wf(),
        request.range.wf(),
        source.plan_problem(request) is None,
        source.is_plan(request, plan),
    ensures
        exact_cover(request.range, chunk_ranges(plan.chunks@)),
{
    let mode = mode_of(request)->Ok_0;
    let ranges = aligned_ranges(request.range.start.0, request.range.end.0, source.span_of(mode));
    law_aligned_ranges_cover_exactly(
        request.range.start.0,
        request.range.end.0,
        source.span_of(mode),
    );
    assert(chunk_ranges(plan.chunks@) =~= ranges) by {
        assert forall|i: int| 0 <= i < ranges.len() implies chunk_ranges(plan.chunks@)[i]
            == ranges[i] by {
            assert(source.is_chunk(plan.chunks@[i], mode, ranges[i], request));
        }
    }
}

} // verus!
