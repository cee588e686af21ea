//! Deterministic scripted source implementations with cancellation and budgets.

use crate::bytes::{be64, from_be64, push_u64, same_array, u64_at};
use crate::history::source_plan::{add_estimates, estimate_sum};
use crate::primitives::{BlockHash, BlockNumber, BlockRange};
use crate::ranges::{all_wf, coverage_gaps, covers, is_gaps};
use crate::request::{
    chunk_ranges, exact_cover, DataRequest, PhysicalPlanOperation, SourceBudget, SourceChunk,
    SourceDescriptor, SourceError, SourcePlan,
};
use crate::testkit::scripts::{EventScript, EventStep, HistoryScript, HistoryStep, ScriptedFrame};
use crate::testkit::selection::{policy_of, select_source, selection_problem};
use crate::text::same_text;
use vstd::prelude::*;

verus! {

/// One scripted partition.
#[derive(Debug)]
pub struct ScriptedChunk {
    pub range: BlockRange,
    pub schema_version: String,
    pub estimated_bytes: Option<u64>,
    pub steps: Vec<HistoryStep>,
}

/// The ranges of scripted partitions.
pub open spec fn scripted_ranges(chunks: Seq<ScriptedChunk>) -> Seq<BlockRange> {
    chunks.map_values(|chunk: ScriptedChunk| chunk.range)
}

/// Which of the first `upto` partitions serves a block: of those that hold it
/// the one that starts first, and of those the first.
pub open spec fn serving(chunks: Seq<ScriptedChunk>, height: int, upto: int) -> Option<int>
    decreases upto,
{
    if upto <= 0 {
        None
    } else {
        let before = serving(chunks, height, upto - 1);
        let range = chunks[upto - 1].range;
        if range.has(height) && (before is None || range.start.0
            < chunks[before->0].range.start.0) {
            Some(upto - 1)
        } else {
            before
        }
    }
}

proof fn lemma_serving(chunks: Seq<ScriptedChunk>, height: int, upto: int)
    requires
        0 <= upto <= chunks.len(),
    ensures
        match serving(chunks, height, upto) {
            Some(at) => 0 <= at < upto && chunks[at].range.has(height),
            None => forall|i: int| 0 <= i < upto ==> !(#[trigger] chunks[i]).range.has(height),
        },
    decreases upto,
{
    if upto > 0 {
        lemma_serving(chunks, height, upto - 1);
    }
}

/// A covered block is served.
proof fn lemma_covered_is_served(chunks: Seq<ScriptedChunk>, height: int)
    requires
        covers(scripted_ranges(chunks), height),
    ensures
        serving(chunks, height, chunks.len() as int) is Some,
{
    lemma_serving(chunks, height, chunks.len() as int);
    let ranges = scripted_ranges(chunks);
    let at = choose|i: int| 0 <= i < ranges.len() && (#[trigger] ranges[i]).has(height);
    assert(chunks[at].range == ranges[at]);
}

/// One planned part: a partition, and what is read of it.
pub struct PlannedPart {
    pub partition: int,
    pub range: BlockRange,
}

/// The part that starts at `next`.
pub open spec fn part_at(chunks: Seq<ScriptedChunk>, next: int, end: int) -> PlannedPart {
    let at = serving(chunks, next, chunks.len() as int)->0;
    let last = if chunks[at].range.end.0 < end {
        chunks[at].range.end.0 as int
    } else {
        end
    };
    PlannedPart {
        partition: at,
        range: BlockRange { start: BlockNumber(next as u64), end: BlockNumber(last as u64) },
    }
}

/// The parts from `next` to `end`, or the first partition whose schema is not
/// the expected one.
pub open spec fn parts_from(
    chunks: Seq<ScriptedChunk>,
    schema: Seq<char>,
    next: int,
    end: int,
) -> Result<Seq<PlannedPart>, int>
    decreases end - next + 1,
    when 0 <= next && end <= u64::MAX && serving(chunks, next, chunks.len() as int) is Some
        && chunks[serving(chunks, next, chunks.len() as int)->0].range.has(next)
{
    if next > end {
        Ok(Seq::empty())
    } else {
        let part = part_at(chunks, next, end);
        if chunks[part.partition].schema_version@ != schema {
            Err(part.partition)
        } else if part.range.end.0 >= end {
            Ok(seq![part])
        } else {
            match parts_from(chunks, schema, part.range.end.0 + 1, end) {
                Err(at) => Err(at),
                Ok(rest) => Ok(seq![part] + rest),
            }
        }
    }
}

/// The sum of the estimates of planned parts.
pub open spec fn estimate_of(chunks: Seq<ScriptedChunk>, parts: Seq<PlannedPart>) -> Option<u64>
    decreases parts.len(),
{
    if parts.len() == 0 {
        Some(0)
    } else {
        estimate_sum(
            estimate_of(chunks, parts.drop_last()),
            chunks[parts.last().partition].estimated_bytes,
        )
    }
}

/// A history source that plays scripts.
#[derive(Debug)]
pub struct ScriptedHistorySource {
    pub descriptor: SourceDescriptor,
    pub chunks: Vec<ScriptedChunk>,
    pub plan_calls: usize,
    pub open_calls: usize,
}

/// The partition of a scripted chunk.
pub open spec fn partition_of(partition: Seq<u8>) -> Result<usize, &'static str> {
    if partition.len() != 8 {
        Err("fixture partition must be 8 bytes")
    } else if from_be64(partition) > usize::MAX {
        Err("fixture partition is too large")
    } else {
        Ok(from_be64(partition) as usize)
    }
}

/// Reads the partition of a scripted chunk.
pub fn decode_partition(partition: &[u8]) -> (outcome: Result<usize, SourceError>)
    ensures
        outcome == (match partition_of(partition@) {
            Ok(index) => Ok::<usize, SourceError>(index),
            Err(problem) => Err(SourceError::InvalidPlan(problem)),
        }),
{
    if partition.len() != 8 {
        return Err(SourceError::InvalidPlan("fixture partition must be 8 bytes"));
    }
    let index: u64 = u64_at(partition, 0);
    assert(partition@.subrange(0, 8) =~= partition@);
    if index > usize::MAX as u64 {
        return Err(SourceError::InvalidPlan("fixture partition is too large"));
    }
    Ok(index as usize)
}

/// One more call, around the end of the counter.
pub open spec fn counted(calls: usize) -> usize {
    if calls == usize::MAX {
        0
    } else {
        (calls + 1) as usize
    }
}

fn count_call(calls: usize) -> (counted_calls: usize)
    ensures
        counted_calls == counted(calls),
{
    if calls == usize::MAX {
        0
    } else {
        calls + 1
    }
}

impl ScriptedHistorySource {
    pub open spec fn wf(self) -> bool {
        all_wf(scripted_ranges(self.chunks@))
    }

    pub fn new(descriptor: SourceDescriptor, chunks: Vec<ScriptedChunk>) -> (source:
        ScriptedHistorySource)
        ensures
            source.descriptor == descriptor,
            source.chunks == chunks,
            source.plan_calls == 0,
            source.open_calls == 0,
    {
        ScriptedHistorySource { descriptor, chunks, plan_calls: 0, open_calls: 0 }
    }

    /// Builds one scripted partition from ordered frames, or an empty one over
    /// the range that the descriptor declares.
    pub fn from_frames(descriptor: SourceDescriptor, frames: Vec<ScriptedFrame>) -> (source:
        ScriptedHistorySource)
        requires
            frames@.len() > 0 ==> frames@[0].frame.block.number.0
                <= frames@.last().frame.block.number.0,
            frames@.len() == 0 ==> descriptor.range is Some,
        ensures
            source.descriptor == descriptor,
            source.plan_calls == 0,
            source.open_calls == 0,
            source.chunks@.len() == 1,
            source.chunks@[0].range == (if frames@.len() > 0 {
                BlockRange {
                    start: frames@[0].frame.block.number,
                    end: frames@.last().frame.block.number,
                }
            } else {
                descriptor.range->0
            }),
            source.chunks@[0].schema_version@ == descriptor.schema_version@,
            source.chunks@[0].estimated_bytes is None,
            source.chunks@[0].steps@.len() == frames@.len(),
            forall|i: int|
                0 <= i < frames@.len() ==> (#[trigger] source.chunks@[0].steps@[i])
                    == HistoryStep::Frame(Box::new(frames@[i])),
    {
        let ghost all = frames@;
        let range: BlockRange = if frames.len() > 0 {
            BlockRange {
                start: frames[0].frame.block.number,
                end: frames[frames.len() - 1].frame.block.number,
            }
        } else {
            match descriptor.range {
                Some(range) => range,
                None => BlockRange { start: BlockNumber(0), end: BlockNumber(0) },
            }
        };
        let mut rest: Vec<ScriptedFrame> = frames;
        let mut reversed: Vec<HistoryStep> = Vec::new();
        while rest.len() > 0
            invariant
                rest@.len() <= all.len(),
                rest@ == all.take(rest@.len() as int),
                reversed@.len() == all.len() - rest@.len(),
                forall|i: int|
                    0 <= i < reversed@.len() ==> (#[trigger] reversed@[i]) == HistoryStep::Frame(
                        Box::new(all[all.len() - 1 - i]),
                    ),
            decreases rest@.len(),
        {
            if let Some(scripted) = rest.pop() {
                reversed.push(HistoryStep::Frame(Box::new(scripted)));
                assert(rest@ =~= all.take(rest@.len() as int));
            }
        }
        let steps: Vec<HistoryStep> = crate::stable::reversed(reversed);
        let schema_version = descriptor.schema_version.clone();
        let mut chunks: Vec<ScriptedChunk> = Vec::new();
        chunks.push(ScriptedChunk { range, schema_version, estimated_bytes: None, steps });
        ScriptedHistorySource { descriptor, chunks, plan_calls: 0, open_calls: 0 }
    }

    pub fn plan_calls(&self) -> (calls: usize)
        ensures
            calls == self.plan_calls,
    {
        self.plan_calls
    }

    pub fn open_calls(&self) -> (calls: usize)
        ensures
            calls == self.open_calls,
    {
        self.open_calls
    }

    /// A chunk of a plan plays one part of one partition.
    pub open spec fn is_chunk(self, chunk: SourceChunk, part: PlannedPart) -> bool {
        let scripted = self.chunks@[part.partition];
        &&& chunk.source_id@ == self.descriptor.id@
        &&& chunk.range == part.range
        &&& chunk.partition@ == be64(part.partition as u64)
        &&& chunk.schema_version@ == scripted.schema_version@
        &&& chunk.expected_parent is None
        &&& chunk.estimated_bytes == scripted.estimated_bytes
    }

    fn pick(&self, height: u64) -> (found: Option<usize>)
        ensures
            match (found, serving(self.chunks@, height as int, self.chunks@.len() as int)) {
                (Some(found), Some(at)) => found == at && found < self.chunks@.len()
                    && self.chunks@[at].range.has(height as int),
                (None, None) => true,
                _ => false,
            },
    {
        let mut found: Option<usize> = None;
        let mut index: usize = 0;
        while index < self.chunks.len()
            invariant
                index <= self.chunks@.len(),
                match (found, serving(self.chunks@, height as int, index as int)) {
                    (Some(found), Some(at)) => found == at && found < index
                        && self.chunks@[at].range.has(height as int),
                    (None, None) => true,
                    _ => false,
                },
            decreases self.chunks@.len() - index,
        {
            let range = self.chunks[index].range;
            if range.contains(BlockNumber(height)) {
                let earlier = match found {
                    Some(best) => range.start.0 < self.chunks[best].range.start.0,
                    None => true,
                };
                if earlier {
                    found = Some(index);
                }
            }
            index += 1;
        }
        found
    }

    fn ranges(&self) -> (ranges: Vec<BlockRange>)
        ensures
            ranges@ == scripted_ranges(self.chunks@),
    {
        let mut ranges: Vec<BlockRange> = Vec::new();
        let mut index: usize = 0;
        while index < self.chunks.len()
            invariant
                index <= self.chunks@.len(),
                ranges@ == scripted_ranges(self.chunks@).take(index as int),
            decreases self.chunks@.len() - index,
        {
            ranges.push(self.chunks[index].range);
            index += 1;
            assert(ranges@ =~= scripted_ranges(self.chunks@).take(index as int));
        }
        assert(ranges@ =~= scripted_ranges(self.chunks@));
        ranges
    }
}

/// Parts already planned, before the rest.
pub open spec fn behind(done: Seq<PlannedPart>, rest: Result<Seq<PlannedPart>, int>) -> Result<
    Seq<PlannedPart>,
    int,
> {
    match rest {
        Err(at) => Err(at),
        Ok(rest) => Ok(done + rest),
    }
}

/// The ranges of parts.
pub open spec fn part_ranges(parts: Seq<PlannedPart>) -> Seq<BlockRange> {
    parts.map_values(|part: PlannedPart| part.range)
}

/// Every block from `next` to `end` is held by a partition.
pub open spec fn all_served(chunks: Seq<ScriptedChunk>, next: int, end: int) -> bool {
    forall|height: int|
        next <= height <= end ==> #[trigger] covers(scripted_ranges(chunks), height)
}

/// Planned parts cover a request exactly: without a gap, without an overlap,
/// from its first block to its last.
pub proof fn law_scripted_parts_cover_exactly(
    chunks: Seq<ScriptedChunk>,
    schema: Seq<char>,
    next: u64,
    end: u64,
)
    requires
        next <= end,
        all_served(chunks, next as int, end as int),
        parts_from(chunks, schema, next as int, end as int) is Ok,
    ensures
        exact_cover(
            BlockRange { start: BlockNumber(next), end: BlockNumber(end) },
            part_ranges(parts_from(chunks, schema, next as int, end as int)->Ok_0),
        ),
    decreases end - next,
{
    assert(covers(scripted_ranges(chunks), next as int));
    lemma_covered_is_served(chunks, next as int);
    lemma_serving(chunks, next as int, chunks.len() as int);
    let part = part_at(chunks, next as int, end as int);
    let parts = parts_from(chunks, schema, next as int, end as int)->Ok_0;
    let all = part_ranges(parts);
    assert(all[0] == part.range);
    if part.range.end.0 < end {
        let after = (part.range.end.0 + 1) as u64;
        assert(covers(scripted_ranges(chunks), after as int));
        lemma_covered_is_served(chunks, after as int);
        lemma_serving(chunks, after as int, chunks.len() as int);
        law_scripted_parts_cover_exactly(chunks, schema, after, end);
        let tail = parts_from(chunks, schema, after as int, end as int)->Ok_0;
        let rest = part_ranges(tail);
        assert(parts == seq![part] + tail);
        assert(all =~= seq![part.range] + rest);
        assert(all.last() == rest.last());
        assert forall|i: int| 0 <= i < all.len() implies (#[trigger] all[i]).wf() by {
            if i > 0 {
                assert(all[i] == rest[i - 1]);
            }
        }
        assert forall|i: int| 0 < i < all.len() implies (#[trigger] all[i]).start.0 == all[i
            - 1].end.0 + 1 by {
            assert(all[i] == rest[i - 1]);
            if i > 1 {
                assert(all[i - 1] == rest[i - 2]);
            }
        }
    } else {
        assert(all =~= seq![part.range]);
    }
}

impl ScriptedHistorySource {
    /// Plans a request over the partitions. Refuses one that the descriptor
    /// cannot serve, one that the partitions do not cover, and a partition of
    /// another schema.
    pub fn plan(&mut self, request: &DataRequest) -> (outcome: Result<SourcePlan, SourceError>)
        requires
            old(self).wf(),
            request.range.wf(),
        ensures
            final(self).descriptor == old(self).descriptor,
            final(self).chunks == old(self).chunks,
            final(self).open_calls == old(self).open_calls,
            final(self).plan_calls == counted(old(self).plan_calls),
            ({
                let source = *old(self);
                let ranges = scripted_ranges(source.chunks@);
                let problem = selection_problem(
                    source.descriptor,
                    *request,
                    policy_of(*request),
                );
                let start = request.range.start.0 as int;
                let end = request.range.end.0 as int;
                let planned = parts_from(
                    source.chunks@,
                    source.descriptor.schema_version@,
                    start,
                    end,
                );
                match outcome {
                    Err(SourceError::InvalidPlan(refusal)) => problem == Some(refusal),
                    Err(SourceError::MissingRange(gap)) => {
                        &&& problem is None
                        &&& exists|gaps: Seq<BlockRange>|
                            {
                                &&& #[trigger] is_gaps(request.range, ranges, gaps)
                                &&& gaps.len() > 0
                                &&& gaps[0] == gap
                            }
                    },
                    Err(SourceError::SchemaDrift { expected, observed }) => {
                        &&& problem is None
                        &&& all_served(source.chunks@, start, end)
                        &&& planned is Err
                        &&& expected@ == source.descriptor.schema_version@
                        &&& observed@ == source.chunks@[planned->Err_0].schema_version@
                    },
                    Err(_) => false,
                    Ok(plan) => {
                        let parts = planned->Ok_0;
                        &&& problem is None
                        &&& all_served(source.chunks@, start, end)
                        &&& planned is Ok
                        &&& plan.source_id@ == source.descriptor.id@
                        &&& plan.request.alike(*request)
                        &&& plan.chunks@.len() == parts.len()
                        &&& forall|i: int|
                            0 <= i < parts.len() ==> source.is_chunk(
                                #[trigger] plan.chunks@[i],
                                parts[i],
                            )
                        &&& exact_cover(request.range, chunk_ranges(plan.chunks@))
                        &&& plan.estimated_bytes == estimate_of(source.chunks@, parts)
                        &&& plan.estimated_lag_millis == source.descriptor.expected_lag_millis
                        &&& plan.supplied == source.descriptor.capabilities
                        &&& plan.complete == source.descriptor.complete_capabilities
                        &&& plan.trust == source.descriptor.trust
                        &&& plan.schema_version@ == source.descriptor.schema_version@
                        &&& plan.physical_plan@.len() == 0
                    },
                }
            }),
    {
        self.plan_calls = count_call(self.plan_calls);
        select_source(&self.descriptor, request)?;
        let ranges: Vec<BlockRange> = self.ranges();
        let gaps: Vec<BlockRange> = coverage_gaps(request.range, ranges.as_slice());
        if gaps.len() > 0 {
            return Err(SourceError::MissingRange(gaps[0]));
        }
        let first: u64 = request.range.start.0;
        let end: u64 = request.range.end.0;
        let ghost schema = self.descriptor.schema_version@;
        let ghost mut done: Seq<PlannedPart> = Seq::empty();
        proof {
            assert forall|height: int| first <= height <= end implies #[trigger] covers(
                scripted_ranges(self.chunks@),
                height,
            ) by {
                assert(!covers(gaps@, height));
            }
            assert(behind(done, parts_from(self.chunks@, schema, first as int, end as int))
                == parts_from(self.chunks@, schema, first as int, end as int)) by {
                match parts_from(self.chunks@, schema, first as int, end as int) {
                    Ok(parts) => {
                        assert(done + parts =~= parts);
                    },
                    Err(_) => {},
                }
            }
        }
        let mut chunks: Vec<SourceChunk> = Vec::new();
        let mut estimated_bytes: Option<u64> = Some(0);
        let mut next: u64 = first;
        let mut finished = false;
        while !finished
            invariant
                first == request.range.start.0,
                end == request.range.end.0,
                first <= next,
                !finished ==> next <= end,
                self.chunks == old(self).chunks,
                self.descriptor == old(self).descriptor,
                self.open_calls == old(self).open_calls,
                self.plan_calls == counted(old(self).plan_calls),
                selection_problem(
                    old(self).descriptor,
                    *request,
                    policy_of(*request),
                ) is None,
                schema == self.descriptor.schema_version@,
                all_served(self.chunks@, first as int, end as int),
                finished ==> parts_from(self.chunks@, schema, first as int, end as int) == Ok::<
                    Seq<PlannedPart>,
                    int,
                >(done),
                !finished ==> parts_from(self.chunks@, schema, first as int, end as int) == behind(
                    done,
                    parts_from(self.chunks@, schema, next as int, end as int),
                ),
                chunks@.len() == done.len(),
                estimated_bytes == estimate_of(self.chunks@, done),
                forall|i: int|
                    0 <= i < done.len() ==> self.is_chunk(#[trigger] chunks@[i], done[i]),
            decreases end - next, !finished as int,
        {
            let ghost rest = parts_from(self.chunks@, schema, next as int, end as int);
            proof {
                assert(covers(scripted_ranges(self.chunks@), next as int));
                lemma_covered_is_served(self.chunks@, next as int);
            }
            let at: usize = match self.pick(next) {
                Some(at) => at,
                None => {
                    return Err(
                        SourceError::MissingRange(
                            BlockRange { start: BlockNumber(next), end: BlockNumber(end) },
                        ),
                    );
                },
            };
            let scripted = &self.chunks[at];
            if !same_text(
                scripted.schema_version.as_str(),
                self.descriptor.schema_version.as_str(),
            ) {
                assert(rest == Err::<Seq<PlannedPart>, int>(at as int));
                return Err(
                    SourceError::SchemaDrift {
                        expected: self.descriptor.schema_version.clone(),
                        observed: scripted.schema_version.clone(),
                    },
                );
            }
            let last: u64 = if scripted.range.end.0 < end {
                scripted.range.end.0
            } else {
                end
            };
            let range = BlockRange { start: BlockNumber(next), end: BlockNumber(last) };
            let mut partition: Vec<u8> = Vec::new();
            push_u64(&mut partition, at as u64);
            assert(partition@ =~= be64(at as u64));
            chunks.push(
                SourceChunk {
                    source_id: self.descriptor.id.clone(),
                    range,
                    partition,
                    schema_version: scripted.schema_version.clone(),
                    expected_parent: None,
                    estimated_bytes: scripted.estimated_bytes,
                },
            );
            estimated_bytes = add_estimates(estimated_bytes, scripted.estimated_bytes);
            proof {
                let part = part_at(self.chunks@, next as int, end as int);
                assert(part.range == range && part.partition == at);
                assert(done.push(part).drop_last() =~= done);
                if last >= end {
                    assert(rest == Ok::<Seq<PlannedPart>, int>(seq![part]));
                    assert(done + seq![part] =~= done.push(part));
                } else {
                    assert(covers(scripted_ranges(self.chunks@), last + 1));
                    lemma_covered_is_served(self.chunks@, last + 1);
                    lemma_serving(self.chunks@, last + 1, self.chunks@.len() as int);
                    match parts_from(self.chunks@, schema, last + 1, end as int) {
                        Ok(tail) => {
                            assert(rest == Ok::<Seq<PlannedPart>, int>(seq![part] + tail));
                            assert(done + (seq![part] + tail) =~= done.push(part) + tail);
                        },
                        Err(_) => {},
                    }
                }
                done = done.push(part);
            }
            if last == end {
                finished = true;
            } else {
                next = last + 1;
            }
        }
        let physical_plan: Vec<PhysicalPlanOperation> = Vec::new();
        let plan = SourcePlan {
            source_id: self.descriptor.id.clone(),
            request: request.clone(),
            chunks,
            estimated_bytes,
            estimated_lag_millis: self.descriptor.expected_lag_millis,
            supplied: self.descriptor.capabilities,
            complete: self.descriptor.complete_capabilities,
            trust: self.descriptor.trust,
            schema_version: self.descriptor.schema_version.clone(),
            physical_plan,
        };
        proof {
            law_scripted_parts_cover_exactly(self.chunks@, schema, first, end);
            assert(chunk_ranges(plan.chunks@) =~= part_ranges(done));
        }
        plan.validate()?;
        Ok(plan)
    }

    /// Why a chunk cannot be opened, if it cannot; a drifted schema apart.
    pub open spec fn open_problem(self, chunk: SourceChunk, budget: SourceBudget) -> Option<
        &'static str,
    > {
        if !budget.wf() {
            Some("source budget limits must be non-zero")
        } else if chunk.source_id@ != self.descriptor.id@ {
            Some("chunk belongs to another source")
        } else {
            None
        }
    }

    /// Why the partition of a chunk cannot be played, if it cannot.
    pub open spec fn partition_problem(self, chunk: SourceChunk) -> Option<&'static str> {
        match partition_of(chunk.partition@) {
            Err(problem) => Some(problem),
            Ok(index) => if index >= self.chunks@.len() {
                Some("unknown fixture partition")
            } else if chunk.range.start.0 < self.chunks@[index as int].range.start.0
                || chunk.range.end.0 > self.chunks@[index as int].range.end.0 {
                Some("chunk exceeds fixture partition")
            } else {
                None
            },
        }
    }

    /// Starts to play a chunk.
    pub fn open(&mut self, chunk: &SourceChunk, budget: SourceBudget) -> (outcome: Result<
        HistoryScript,
        SourceError,
    >)
        ensures
            final(self).descriptor == old(self).descriptor,
            final(self).chunks == old(self).chunks,
            final(self).plan_calls == old(self).plan_calls,
            final(self).open_calls == counted(old(self).open_calls),
            ({
                let source = *old(self);
                let drifted = chunk.schema_version@ != source.descriptor.schema_version@;
                if source.open_problem(*chunk, budget) is Some {
                    outcome == Err::<HistoryScript, SourceError>(
                        SourceError::InvalidPlan(source.open_problem(*chunk, budget)->0),
                    )
                } else if drifted {
                    match outcome {
                        Err(SourceError::SchemaDrift { expected, observed }) => {
                            &&& expected@ == source.descriptor.schema_version@
                            &&& observed@ == chunk.schema_version@
                        },
                        _ => false,
                    }
                } else if source.partition_problem(*chunk) is Some {
                    outcome == Err::<HistoryScript, SourceError>(
                        SourceError::InvalidPlan(source.partition_problem(*chunk)->0),
                    )
                } else {
                    outcome == Ok::<HistoryScript, SourceError>(
                        HistoryScript {
                            chunk: partition_of(chunk.partition@)->Ok_0,
                            position: 0,
                            range: chunk.range,
                            budget,
                            frames: 0,
                            bytes: 0,
                            terminal: false,
                        },
                    )
                }
            }),
    {
        self.open_calls = count_call(self.open_calls);
        let budget = budget.validate()?;
        if !same_text(chunk.source_id.as_str(), self.descriptor.id.as_str()) {
            return Err(SourceError::InvalidPlan("chunk belongs to another source"));
        }
        if !same_text(chunk.schema_version.as_str(), self.descriptor.schema_version.as_str()) {
            return Err(
                SourceError::SchemaDrift {
                    expected: self.descriptor.schema_version.clone(),
                    observed: chunk.schema_version.clone(),
                },
            );
        }
        let index: usize = decode_partition(chunk.partition.as_slice())?;
        if index >= self.chunks.len() {
            return Err(SourceError::InvalidPlan("unknown fixture partition"));
        }
        let held = self.chunks[index].range;
        if chunk.range.start.0 < held.start.0 || chunk.range.end.0 > held.end.0 {
            return Err(SourceError::InvalidPlan("chunk exceeds fixture partition"));
        }
        Ok(
            HistoryScript {
                chunk: index,
                position: 0,
                range: chunk.range,
                budget,
                frames: 0,
                bytes: 0,
                terminal: false,
            },
        )
    }
}

/// One step of a scripted live subscription.
pub type LiveStep<E> = EventStep<E>;

/// One step of a scripted finality subscription.
pub type FinalityStep<E> = EventStep<E>;

/// A live source that plays a script of events.
#[derive(Debug)]
pub struct ScriptedLiveSource<E> {
    pub descriptor: SourceDescriptor,
    pub steps: Vec<LiveStep<E>>,
}

impl<E> ScriptedLiveSource<E> {
    pub fn new(descriptor: SourceDescriptor, steps: Vec<LiveStep<E>>) -> (source:
        ScriptedLiveSource<E>)
        ensures
            source.descriptor == descriptor,
            source.steps == steps,
    {
        ScriptedLiveSource { descriptor, steps }
    }

    /// Starts to play the script. Refuses an invalid budget.
    pub fn subscribe(&self, budget: SourceBudget) -> (outcome: Result<EventScript, SourceError>)
        ensures
            outcome == (if budget.wf() {
                Ok::<EventScript, SourceError>(EventScript { position: 0, terminal: false })
            } else {
                Err(SourceError::InvalidPlan("source budget limits must be non-zero"))
            }),
    {
        budget.validate()?;
        Ok(EventScript::new())
    }
}

/// A trusted starting point of consensus.
#[derive(Debug)]
pub struct ConsensusCheckpoint {
    pub beacon_slot: u64,
    pub beacon_block_root: [u8; 32],
    pub execution_block_hash: BlockHash,
    pub obtained_at_unix_seconds: u64,
    pub source: String,
}

impl ConsensusCheckpoint {
    /// Two checkpoints agree in every part.
    pub open spec fn alike(self, other: ConsensusCheckpoint) -> bool {
        &&& self.beacon_slot == other.beacon_slot
        &&& self.beacon_block_root == other.beacon_block_root
        &&& self.execution_block_hash == other.execution_block_hash
        &&& self.obtained_at_unix_seconds == other.obtained_at_unix_seconds
        &&& self.source@ == other.source@
    }

    /// Whether two checkpoints agree in every part.
    pub fn same(&self, other: &ConsensusCheckpoint) -> (same: bool)
        ensures
            same == self.alike(*other),
    {
        self.beacon_slot == other.beacon_slot && same_array(
            &self.beacon_block_root,
            &other.beacon_block_root,
        ) && self.execution_block_hash == other.execution_block_hash
            && self.obtained_at_unix_seconds == other.obtained_at_unix_seconds && same_text(
            self.source.as_str(),
            other.source.as_str(),
        )
    }
}

/// A finality source that plays a script of events.
#[derive(Debug)]
pub struct ScriptedFinalitySource<E> {
    pub descriptor: SourceDescriptor,
    pub expected_checkpoint: ConsensusCheckpoint,
    pub steps: Vec<FinalityStep<E>>,
}

impl<E> ScriptedFinalitySource<E> {
    pub fn new(
        descriptor: SourceDescriptor,
        expected_checkpoint: ConsensusCheckpoint,
        steps: Vec<FinalityStep<E>>,
    ) -> (source: ScriptedFinalitySource<E>)
        ensures
            source.descriptor == descriptor,
            source.expected_checkpoint == expected_checkpoint,
            source.steps == steps,
    {
        ScriptedFinalitySource { descriptor, expected_checkpoint, steps }
    }

    /// Starts to play the script. Refuses any checkpoint but the expected one.
    pub fn subscribe(&self, checkpoint: &ConsensusCheckpoint) -> (outcome: Result<
        EventScript,
        SourceError,
    >)
        ensures
            match outcome {
                Ok(script) => {
                    &&& checkpoint.alike(self.expected_checkpoint)
                    &&& script == (EventScript { position: 0, terminal: false })
                },
                Err(SourceError::Protocol(text)) => {
                    &&& !checkpoint.alike(self.expected_checkpoint)
                    &&& text@ == "weak-subjectivity checkpoint mismatch"@
                },
                Err(_) => false,
            },
    {
        if !checkpoint.same(&self.expected_checkpoint) {
            return Err(
                SourceError::Protocol("weak-subjectivity checkpoint mismatch".to_owned()),
            );
        }
        Ok(EventScript::new())
    }
}

} // verus!
