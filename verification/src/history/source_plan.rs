//! Planning and streaming of retained history, and lookups in it.

use crate::cover::{
    furthest, is_selection, law_covered_requests_are_selected, lemma_furthest, select_cover,
    selected_ranges, Selected,
};
use crate::history::job::{normal_list, RawHistoryMaterialProfile};
use crate::history::layout::{is_segment_id, MaterialShapeId, SegmentDescriptor, SegmentId};
use crate::history::rows::SegmentRecord;
use crate::history::source::{
    candidate_ranges, retained_schema_version, Candidate, RetainedHistorySource,
};
use crate::primitives::{BlockNumber, BlockRange, CapabilitySet, TrustModel};
use crate::ranges::{coverage_gaps, covers, is_gaps};
use crate::request::{
    chunk_ranges, exact_cover, DataRequest, PhysicalPlanOperation, PhysicalReader, SourceChunk,
    SourceError, SourcePlan,
};
use crate::text::{decimal_digits, push_decimal};
use vstd::prelude::*;

verus! {

/// The bytes that postcard writes for a segment's name and a range.
pub uninterp spec fn partition_encoded(segment: Seq<char>, start: u64, end: u64) -> Seq<u8>;

/// The name and range that postcard reads from the start of these bytes.
pub uninterp spec fn partition_decoded(bytes: Seq<u8>) -> Option<(Seq<char>, u64, u64)>;

/// The bytes that postcard writes for a text.
pub uninterp spec fn text_encoded(text: Seq<char>) -> Seq<u8>;

/// Calls `postcard::to_allocvec` on a name and the two ends of a range.
/// Claims that the bytes are a function of them, that there are always bytes,
/// and that `from_bytes` reads the same name and range back from them.
#[verifier::external_body]
pub(crate) fn encode_partition(segment: &str, start: u64, end: u64) -> (bytes: Vec<u8>)
    ensures
        bytes@ == partition_encoded(segment@, start, end),
        partition_decoded(bytes@) == Some((segment@, start, end)),
{
    postcard::to_allocvec(&(segment, start, end)).expect("a text and two numbers always encode")
}

/// Calls `postcard::from_bytes` for a name and the two ends of a range.
/// Claims that what it reads, or that it reads nothing, is a function of the
/// bytes.
#[verifier::external_body]
fn decode_partition(bytes: &[u8]) -> (partition: Option<(String, u64, u64)>)
    ensures
        match partition {
            Some(parts) => partition_decoded(bytes@) == Some((parts.0@, parts.1, parts.2)),
            None => partition_decoded(bytes@) is None,
        },
{
    postcard::from_bytes::<(String, u64, u64)>(bytes).ok()
}

/// Calls `postcard::to_allocvec` on a text. Claims that the bytes are a
/// function of the text, and that there are always bytes.
#[verifier::external_body]
pub(crate) fn encode_text(text: &str) -> (bytes: Vec<u8>)
    ensures
        bytes@ == text_encoded(text@),
{
    postcard::to_allocvec(text).expect("a text always encodes")
}

/// A part of one segment.
pub struct PartitionView {
    pub segment: Seq<char>,
    pub range: BlockRange,
}

/// The part of a segment that a chunk stands for.
pub open spec fn parse_partition(bytes: Seq<u8>) -> Option<PartitionView> {
    match partition_decoded(bytes) {
        Some((segment, start, end)) => if is_segment_id(segment) && start <= end {
            Some(
                PartitionView {
                    segment,
                    range: BlockRange { start: BlockNumber(start), end: BlockNumber(end) },
                },
            )
        } else {
            None
        },
        None => None,
    }
}

/// A part of one segment.
#[derive(Debug)]
pub struct RetainedPartition {
    pub segment_id: SegmentId,
    pub range: BlockRange,
}

/// Reads the part of a segment that a chunk stands for.
pub fn read_partition(bytes: &[u8]) -> (partition: Option<RetainedPartition>)
    ensures
        match partition {
            Some(partition) => parse_partition(bytes@) == Some(
                PartitionView { segment: partition.segment_id@, range: partition.range },
            ) && partition.range.wf(),
            None => parse_partition(bytes@) is None,
        },
{
    match decode_partition(bytes) {
        Some((segment, start, end)) => {
            match (
                SegmentId::new(segment),
                BlockRange::new(BlockNumber(start), BlockNumber(end)),
            ) {
                (Ok(segment_id), Ok(range)) => Some(RetainedPartition { segment_id, range }),
                _ => None,
            }
        },
        None => None,
    }
}

/// The bytes that a part of a segment is expected to take: its share of the
/// file, rounded up, unless that cannot be computed.
pub open spec fn spec_estimate(physical_bytes: u64, blocks: u64, segment_blocks: u64) -> Option<
    u64,
> {
    let product = physical_bytes * blocks;
    if product > u64::MAX {
        None
    } else if product % (segment_blocks as int) == 0 {
        Some((product / (segment_blocks as int)) as u64)
    } else {
        Some((product / (segment_blocks as int) + 1) as u64)
    }
}

/// The bytes that a part of a segment is expected to take.
pub fn estimate_bytes(physical_bytes: u64, blocks: u64, segment_blocks: u64) -> (estimate: Option<
    u64,
>)
    requires
        segment_blocks > 0,
    ensures
        estimate == spec_estimate(physical_bytes, blocks, segment_blocks),
{
    match physical_bytes.checked_mul(blocks) {
        Some(product) => {
            let quotient: u64 = product / segment_blocks;
            let remainder: u64 = product % segment_blocks;
            if remainder == 0 {
                Some(quotient)
            } else {
                assert(quotient < u64::MAX) by (nonlinear_arith)
                    requires
                        quotient == product / segment_blocks,
                        remainder == product % segment_blocks,
                        remainder != 0,
                        segment_blocks > 0,
                        product <= u64::MAX,
                ;
                Some(quotient + 1)
            }
        },
        None => None,
    }
}

/// A sum of estimates, unless one is missing or the sum cannot be computed.
pub open spec fn estimate_sum(total: Option<u64>, estimate: Option<u64>) -> Option<u64> {
    match (total, estimate) {
        (Some(total), Some(estimate)) => if total + estimate <= u64::MAX {
            Some((total + estimate) as u64)
        } else {
            None
        },
        _ => None,
    }
}

pub(crate) fn add_estimates(total: Option<u64>, estimate: Option<u64>) -> (sum: Option<u64>)
    ensures
        sum == estimate_sum(total, estimate),
{
    match (total, estimate) {
        (Some(total), Some(estimate)) => total.checked_add(estimate),
        _ => None,
    }
}

/// The share of a chosen segment.
pub open spec fn part_estimate(candidates: Seq<Candidate>, part: Selected) -> Option<u64> {
    let metadata = candidates[part.at as int].record.metadata;
    spec_estimate(
        metadata.physical_bytes,
        part.range.spec_len(),
        metadata.descriptor.range.spec_len(),
    )
}

/// The sum over the first `count` parts.
pub open spec fn total_estimate(
    candidates: Seq<Candidate>,
    parts: Seq<Selected>,
    count: int,
) -> Option<u64>
    decreases count,
{
    if count <= 0 {
        Some(0)
    } else {
        estimate_sum(
            total_estimate(candidates, parts, count - 1),
            part_estimate(candidates, parts[count - 1]),
        )
    }
}

/// What all of the first `count` parts have completely.
pub open spec fn common_capabilities(
    candidates: Seq<Candidate>,
    parts: Seq<Selected>,
    count: int,
) -> CapabilitySet
    decreases count,
{
    if count <= 0 {
        CapabilitySet::spec_all()
    } else {
        CapabilitySet {
            bits: common_capabilities(candidates, parts, count - 1).bits & candidates[parts[count
                - 1].at as int].record.metadata.descriptor.complete_capabilities.derivable().bits,
        }
    }
}

/// The weaker of two levels of trust.
pub open spec fn weaker_trust(left: TrustModel, right: TrustModel) -> TrustModel {
    if right.spec_rank() < left.spec_rank() {
        right
    } else {
        left
    }
}

fn weaken(left: TrustModel, right: TrustModel) -> (trust: TrustModel)
    ensures
        trust == weaker_trust(left, right),
{
    if right.rank() < left.rank() {
        right
    } else {
        left
    }
}

/// The weakest trust of the first `count` parts and the source.
pub open spec fn common_trust(
    own: TrustModel,
    candidates: Seq<Candidate>,
    parts: Seq<Selected>,
    count: int,
) -> TrustModel
    decreases count,
{
    if count <= 0 {
        own
    } else {
        weaker_trust(
            common_trust(own, candidates, parts, count - 1),
            candidates[parts[count - 1].at as int].record.metadata.descriptor.trust,
        )
    }
}

/// The chunk of a part.
pub open spec fn is_chunk(
    source: RetainedHistorySource,
    candidates: Seq<Candidate>,
    part: Selected,
    chunk: SourceChunk,
) -> bool {
    let metadata = candidates[part.at as int].record.metadata;
    &&& chunk.source_id@ == source.descriptor.id@
    &&& chunk.range == part.range
    &&& chunk.partition@ == partition_encoded(
        metadata.id@,
        part.range.start.0,
        part.range.end.0,
    )
    &&& partition_decoded(chunk.partition@) == Some(
        (metadata.id@, part.range.start.0, part.range.end.0),
    )
    &&& chunk.schema_version@ == retained_schema_version()@
    &&& chunk.expected_parent == (if part.range.start == metadata.descriptor.range.start {
        Some(metadata.first_parent_hash)
    } else {
        None
    })
    &&& chunk.estimated_bytes == part_estimate(candidates, part)
}

/// The physical operation of a part.
pub open spec fn is_operation(
    candidates: Seq<Candidate>,
    part: Selected,
    operation: PhysicalPlanOperation,
) -> bool {
    let metadata = candidates[part.at as int].record.metadata;
    &&& operation.reader == PhysicalReader::Block
    &&& operation.table@ == metadata.id@
    &&& operation.columns@.len() == 1 && operation.columns@[0]@ == "durable_block_frame"@
    &&& operation.predicates@.len() == 1 && operation.predicates@[0]@ == "block_number BETWEEN "@
        + decimal_digits(part.range.start.0 as nat) + " AND "@ + decimal_digits(
        part.range.end.0 as nat,
    )
    &&& operation.estimated_bytes == part_estimate(candidates, part)
    &&& operation.trust == metadata.descriptor.trust
    &&& operation.completeness == "complete retained frame"
    &&& !operation.derived
}

fn make_chunk(
    source: &RetainedHistorySource,
    record: &SegmentRecord,
    range: BlockRange,
    estimate: Option<u64>,
) -> (chunk: SourceChunk)
    ensures
        chunk.source_id == source.descriptor.id,
        chunk.range == range,
        chunk.partition@ == partition_encoded(
            record.metadata.id@,
            range.start.0,
            range.end.0,
        ),
        partition_decoded(chunk.partition@) == Some(
            (record.metadata.id@, range.start.0, range.end.0),
        ),
        chunk.schema_version@ == retained_schema_version()@,
        chunk.expected_parent == (if range.start == record.metadata.descriptor.range.start {
            Some(record.metadata.first_parent_hash)
        } else {
            None
        }),
        chunk.estimated_bytes == estimate,
{
    SourceChunk {
        source_id: source.descriptor.id.clone(),
        range,
        partition: encode_partition(record.metadata.id.as_str(), range.start.0, range.end.0),
        schema_version: "retained-raw-segment.v1".to_owned(),
        expected_parent: if range.start == record.metadata.descriptor.range.start {
            Some(record.metadata.first_parent_hash)
        } else {
            None
        },
        estimated_bytes: estimate,
    }
}

fn make_operation(record: &SegmentRecord, range: BlockRange, estimate: Option<u64>) -> (operation:
    PhysicalPlanOperation)
    ensures
        operation.reader == PhysicalReader::Block,
        operation.table@ == record.metadata.id@,
        operation.columns@.len() == 1 && operation.columns@[0]@ == "durable_block_frame"@,
        operation.predicates@.len() == 1 && operation.predicates@[0]@ == "block_number BETWEEN "@
            + decimal_digits(range.start.0 as nat) + " AND "@ + decimal_digits(
            range.end.0 as nat,
        ),
        operation.estimated_bytes == estimate,
        operation.trust == record.metadata.descriptor.trust,
        operation.completeness == "complete retained frame",
        !operation.derived,
{
    let mut columns: Vec<String> = Vec::new();
    columns.push("durable_block_frame".to_owned());
    let mut predicate: String = "block_number BETWEEN ".to_owned();
    push_decimal(&mut predicate, range.start.0);
    predicate.append(" AND ");
    push_decimal(&mut predicate, range.end.0);
    let mut predicates: Vec<String> = Vec::new();
    predicates.push(predicate);
    PhysicalPlanOperation {
        reader: PhysicalReader::Block,
        table: record.metadata.id.as_str().to_owned(),
        columns,
        predicates,
        estimated_bytes: estimate,
        trust: record.metadata.descriptor.trust,
        completeness: "complete retained frame",
        derived: false,
    }
}

fn ranges_of(candidates: &Vec<Candidate>) -> (ranges: Vec<BlockRange>)
    ensures
        ranges@ == candidate_ranges(candidates@),
{
    let mut ranges: Vec<BlockRange> = Vec::new();
    let mut index: usize = 0;
    while index < candidates.len()
        invariant
            index <= candidates@.len(),
            ranges@ == candidate_ranges(candidates@.take(index as int)),
        decreases candidates@.len() - index,
    {
        ranges.push(candidates[index].record.metadata.descriptor.range);
        index += 1;
        assert(ranges@ =~= candidate_ranges(candidates@.take(index as int)));
    }
    assert(candidates@.take(index as int) =~= candidates@);
    ranges
}

/// The plan for a request that the candidates cover.
pub open spec fn is_plan(
    source: RetainedHistorySource,
    request: DataRequest,
    candidates: Seq<Candidate>,
    parts: Seq<Selected>,
    plan: SourcePlan,
) -> bool {
    let count = parts.len() as int;
    &&& is_selection(request.range, candidate_ranges(candidates), parts)
    &&& plan.source_id@ == source.descriptor.id@
    &&& plan.request.alike(request)
    &&& plan.chunks@.len() == count
    &&& forall|i: int|
        0 <= i < count ==> is_chunk(source, candidates, parts[i], #[trigger] plan.chunks@[i])
    &&& plan.physical_plan@.len() == count
    &&& forall|i: int|
        0 <= i < count ==> is_operation(candidates, parts[i], #[trigger] plan.physical_plan@[i])
    &&& plan.estimated_bytes == total_estimate(candidates, parts, count)
    &&& plan.estimated_lag_millis == 0
    &&& plan.supplied == common_capabilities(candidates, parts, count)
    &&& plan.complete == plan.supplied
    &&& plan.trust == common_trust(source.config.trust, candidates, parts, count)
    &&& plan.schema_version@ == retained_schema_version()@
}

/// The plan covers its request exactly: its chunks follow one another from
/// the first to the last height, and each is served by one segment that holds
/// all of it.
pub proof fn law_plans_cover_exactly(
    source: RetainedHistorySource,
    request: DataRequest,
    candidates: Seq<Candidate>,
    parts: Seq<Selected>,
    plan: SourcePlan,
)
    requires
        is_plan(source, request, candidates, parts, plan),
    ensures
        exact_cover(request.range, chunk_ranges(plan.chunks@)),
        forall|i: int|
            0 <= i < plan.chunks@.len() ==> {
                let range = candidates[parts[i].at as int].record.metadata.descriptor.range;
                &&& 0 <= parts[i].at < candidates.len()
                &&& range.start.0 <= (#[trigger] plan.chunks@[i]).range.start.0
                &&& plan.chunks@[i].range.end.0 <= range.end.0
            },
{
    let ranges = candidate_ranges(candidates);
    assert(chunk_ranges(plan.chunks@) =~= selected_ranges(parts)) by {
        assert forall|i: int| 0 <= i < parts.len() implies chunk_ranges(plan.chunks@)[i]
            == selected_ranges(parts)[i] by {
            assert(is_chunk(source, candidates, parts[i], plan.chunks@[i]));
        }
    }
    assert forall|i: int| 0 <= i < plan.chunks@.len() implies {
        let range = candidates[parts[i].at as int].record.metadata.descriptor.range;
        &&& 0 <= parts[i].at < candidates.len()
        &&& range.start.0 <= (#[trigger] plan.chunks@[i]).range.start.0
        &&& plan.chunks@[i].range.end.0 <= range.end.0
    } by {
        assert(is_chunk(source, candidates, parts[i], plan.chunks@[i]));
        assert(furthest(ranges, parts[i].range.start.0 as int, ranges.len() as int) == Some(
            parts[i].at as int,
        ));
        lemma_furthest(ranges, parts[i].range.start.0 as int, ranges.len() as int);
        assert(ranges[parts[i].at as int]
            == candidates[parts[i].at as int].record.metadata.descriptor.range);
    }
}

fn one_range(range: BlockRange) -> (ranges: Vec<BlockRange>)
    ensures
        ranges@ == seq![range],
{
    let mut ranges: Vec<BlockRange> = Vec::new();
    ranges.push(range);
    assert(ranges@ =~= seq![range]);
    ranges
}

impl RetainedHistorySource {
    /// Plans the part of a request that the candidates cover.
    fn plan_parts(&self, request: &DataRequest, candidates: &Vec<Candidate>, parts: &Vec<
        Selected,
    >) -> (plan: SourcePlan)
        requires
            is_selection(request.range, candidate_ranges(candidates@), parts@),
            forall|i: int|
                0 <= i < candidates@.len() ==> (
                #[trigger] candidates@[i]).record.metadata.descriptor.range.wf(),
        ensures
            is_plan(*self, *request, candidates@, parts@, plan),
    {
        let mut chunks: Vec<SourceChunk> = Vec::new();
        let mut operations: Vec<PhysicalPlanOperation> = Vec::new();
        let mut estimated_bytes: Option<u64> = Some(0);
        let mut complete: CapabilitySet = CapabilitySet::all();
        let mut trust: TrustModel = self.config.trust;
        let mut index: usize = 0;
        while index < parts.len()
            invariant
                index <= parts@.len(),
                is_selection(request.range, candidate_ranges(candidates@), parts@),
                forall|i: int|
                    0 <= i < candidates@.len() ==> (
                    #[trigger] candidates@[i]).record.metadata.descriptor.range.wf(),
                chunks@.len() == index,
                operations@.len() == index,
                forall|i: int|
                    0 <= i < index ==> is_chunk(
                        *self,
                        candidates@,
                        parts@[i],
                        #[trigger] chunks@[i],
                    ),
                forall|i: int|
                    0 <= i < index ==> is_operation(
                        candidates@,
                        parts@[i],
                        #[trigger] operations@[i],
                    ),
                estimated_bytes == total_estimate(candidates@, parts@, index as int),
                complete == common_capabilities(candidates@, parts@, index as int),
                trust == common_trust(self.config.trust, candidates@, parts@, index as int),
            decreases parts@.len() - index,
        {
            let part: Selected = parts[index];
            proof {
                let ranges = candidate_ranges(candidates@);
                assert(parts@[index as int] == part);
                lemma_furthest(ranges, part.range.start.0 as int, ranges.len() as int);
                assert(candidates@[part.at as int].record.metadata.descriptor.range.wf());
                assert(selected_ranges(parts@)[index as int] == part.range);
            }
            let record: &SegmentRecord = &candidates[part.at].record;
            let descriptor: &SegmentDescriptor = &record.metadata.descriptor;
            complete = complete.intersection(descriptor.complete_capabilities.with_derivable());
            trust = weaken(trust, descriptor.trust);
            let estimate: Option<u64> = estimate_bytes(
                record.metadata.physical_bytes,
                part.range.len(),
                descriptor.range.len(),
            );
            estimated_bytes = add_estimates(estimated_bytes, estimate);
            operations.push(make_operation(record, part.range, estimate));
            chunks.push(make_chunk(self, record, part.range, estimate));
            index += 1;
        }
        SourcePlan {
            source_id: self.descriptor.id.clone(),
            request: request.clone(),
            chunks,
            estimated_bytes,
            estimated_lag_millis: 0,
            supplied: complete,
            complete,
            trust,
            schema_version: "retained-raw-segment.v1".to_owned(),
            physical_plan: operations,
        }
    }

    /// What is missing whatever the catalog holds, and what there is instead.
    pub open spec fn unserved(self, request: DataRequest) -> Option<u16> {
        if !self.config.capabilities.derivable().has_all(request.required) {
            Some(self.config.capabilities.derivable().bits)
        } else if self.config.material_shape != MaterialShapeId::spec_complete()
            && request_shape(request) != self.config.material_shape {
            Some(0)
        } else {
            None
        }
    }

    /// Plans a request exactly: every height comes from a segment that meets
    /// the request, or the plan is refused with what is missing.
    pub fn plan(&self, records: &Vec<SegmentRecord>, request: &DataRequest) -> (outcome: Result<
        SourcePlan,
        SourceError,
    >)
        requires
            request.range.wf(),
            forall|i: int|
                0 <= i < records@.len() ==> (
                #[trigger] records@[i]).metadata.descriptor.range.wf(),
        ensures
            if request.chain_id != self.config.chain_id {
                outcome == Err::<SourcePlan, SourceError>(SourceError::MissingRange(request.range))
            } else if self.unserved(*request) is Some {
                outcome matches Err(error) && is_missing_material(
                    error,
                    seq![request.range],
                    request.required.bits,
                    self.unserved(*request)->0,
                )
            } else {
                exists|candidates: Seq<Candidate>, available: CapabilitySet|
                    #[trigger] self.finds(records@, *request, candidates, available)
                        && match outcome {
                        Ok(plan) => is_gaps(
                            request.range,
                            candidate_ranges(candidates),
                            Seq::empty(),
                        ) && exists|parts: Seq<Selected>| #[trigger]
                            is_plan(*self, *request, candidates, parts, plan),
                        Err(error) => exists|gaps: Seq<BlockRange>|
                            #[trigger] is_gaps(
                                request.range,
                                candidate_ranges(candidates),
                                gaps,
                            ) && gaps.len() > 0 && is_missing_material(
                                error,
                                gaps,
                                request.required.bits,
                                available.bits,
                            ),
                    }
            },
    {
        if request.chain_id != self.config.chain_id {
            return Err(SourceError::MissingRange(request.range));
        }
        let own: CapabilitySet = self.config.capabilities.with_derivable();
        if !own.contains_all(request.required) {
            return Err(
                SourceError::MissingMaterial {
                    gaps: one_range(request.range),
                    required: request.required.bits(),
                    available: own.bits(),
                },
            );
        }
        if self.config.material_shape != MaterialShapeId::complete_execution() {
            let material = RawHistoryMaterialProfile::from_request(request);
            proof {
                lemma_request_shape(*request, material);
            }
            if material.shape_id() != self.config.material_shape {
                return Err(
                    SourceError::MissingMaterial {
                        gaps: one_range(request.range),
                        required: request.required.bits(),
                        available: 0,
                    },
                );
            }
        }
        let (candidates, available) = self.compatible_segments(records, request);
        let ranges: Vec<BlockRange> = ranges_of(&candidates);
        proof {
            assert(self.finds(records@, *request, candidates@, available));
            assert forall|i: int| 0 <= i < candidates@.len() implies (
            #[trigger] candidates@[i]).record.metadata.descriptor.range.wf() by {
                assert(records@.contains(candidates@[i].record));
                let r = choose|r: int|
                    0 <= r < records@.len() && records@[r] == candidates@[i].record;
                assert(records@[r].metadata.descriptor.range.wf());
            }
            assert forall|i: int| 0 <= i < ranges@.len() implies (#[trigger] ranges@[i]).wf() by {
                assert(ranges@[i] == candidates@[i].record.metadata.descriptor.range);
            }
        }
        let gaps: Vec<BlockRange> = coverage_gaps(request.range, ranges.as_slice());
        if gaps.len() > 0 {
            return Err(
                SourceError::MissingMaterial {
                    gaps,
                    required: request.required.bits(),
                    available: available.bits(),
                },
            );
        }
        proof {
            assert(gaps@ =~= Seq::<BlockRange>::empty());
            assert(is_gaps(request.range, ranges@, gaps@));
            assert forall|h: int| request.range.has(h) implies #[trigger] covers(ranges@, h) by {
                if !covers(ranges@, h) {
                    assert(covers(gaps@, h));
                }
            }
        }
        match select_cover(request.range, &ranges) {
            Ok(parts) => {
                let plan: SourcePlan = self.plan_parts(request, &candidates, &parts);
                proof {
                    law_plans_cover_exactly(*self, *request, candidates@, parts@, plan);
                }
                plan.validate()?;
                Ok(plan)
            },
            Err(error) => {
                proof {
                    let missing = error->MissingRange_0;
                    law_covered_requests_are_selected(
                        request.range,
                        ranges@,
                        missing.start.0,
                    );
                }
                Err(error)
            },
        }
    }

    /// What the catalog's records offer for a request.
    pub open spec fn finds(
        self,
        records: Seq<SegmentRecord>,
        request: DataRequest,
        candidates: Seq<Candidate>,
        available: CapabilitySet,
    ) -> bool {
        if self.config.log_fields.has_all(request.log_fields) {
            &&& normal_list(
                self.candidates(records, request, records.len() as int),
                candidates,
            )
            &&& available == self.available(records, request, records.len() as int)
        } else {
            candidates.len() == 0 && available == CapabilitySet::spec_none()
        }
    }
}

/// The material shape of a request.
pub open spec fn request_shape(request: DataRequest) -> MaterialShapeId {
    RawHistoryMaterialProfile {
        allow_filtered: request.allow_filtered,
        projection: request.projection,
        log_fields: request.log_fields,
        filters: request.filters,
    }.spec_shape_id()
}

proof fn lemma_request_shape(request: DataRequest, material: RawHistoryMaterialProfile)
    requires
        material.allow_filtered == request.allow_filtered,
        material.projection.alike(request.projection),
        material.log_fields == request.log_fields,
        material.filters.alike(request.filters),
    ensures
        material.spec_shape_id() == request_shape(request),
{
    let given = RawHistoryMaterialProfile {
        allow_filtered: request.allow_filtered,
        projection: request.projection,
        log_fields: request.log_fields,
        filters: request.filters,
    };
    crate::history::job::lemma_alike_shape(material, given);
}

/// The refusal of a request for want of material.
pub open spec fn is_missing_material(
    error: SourceError,
    gaps: Seq<BlockRange>,
    required: u16,
    available: u16,
) -> bool {
    match error {
        SourceError::MissingMaterial { gaps: found, required: asked, available: offered } => {
            found@ == gaps && asked == required && offered == available
        },
        _ => false,
    }
}

} // verus!
