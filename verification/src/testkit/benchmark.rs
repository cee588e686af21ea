//! Constant-memory deterministic history source.

use crate::artifacts::writer::sat;
use crate::bytes::{be64, push_u64};
use crate::frame::BlockFrame;
use crate::history::source::{add_wrapping, wrapped};
use crate::primitives::{BlockNumber, BlockRange, Capability, CapabilitySet, ChainId, TrustModel};
use crate::request::{
    chunk_ranges, exact_cover, DataRequest, FinalityModel, Partitioning, PhysicalPlanOperation,
    SourceBudget, SourceChunk, SourceDescriptor, SourceError, SourceKind, SourcePlan,
};
use crate::testkit::corpus::{
    frame_of, generated_frame, parent_hash, parent_of, SyntheticCorpusKind,
};
use crate::testkit::manifest::{
    manifest_of, synthetic_corpus_manifest, SyntheticCorpusManifest,
};
use crate::testkit::selection::{policy_of, select_source, selection_problem};
use crate::text::{joined, same_text};
use vstd::prelude::*;

verus! {

/// Monotonic physical generation counters sampled by benchmark reports.
#[derive(Clone, Copy, Debug, PartialEq, Eq, Structural)]
pub struct GeneratedSourceStats {
    pub frames: u64,
    pub estimated_bytes: u64,
    pub first_frame_elapsed_milliseconds: Option<u64>,
}

impl Default for GeneratedSourceStats {
    fn default() -> (stats: GeneratedSourceStats)
        ensures
            stats == (GeneratedSourceStats {
                frames: 0,
                estimated_bytes: 0,
                first_frame_elapsed_milliseconds: None,
            }),
    {
        GeneratedSourceStats {
            frames: 0,
            estimated_bytes: 0,
            first_frame_elapsed_milliseconds: None,
        }
    }
}

/// Constant-memory deterministic history source.
#[derive(Debug)]
pub struct GeneratedHistorySource {
    pub descriptor: SourceDescriptor,
    pub kind: SyntheticCorpusKind,
    pub seed: u64,
    pub chunk_blocks: u64,
    pub stats: GeneratedSourceStats,
}

/// Everything that a generated block holds.
pub open spec fn generated_capabilities() -> CapabilitySet {
    CapabilitySet::spec_none().spec_with(Capability::Header).spec_with(
        Capability::Transactions,
    ).spec_with(Capability::Receipts).spec_with(Capability::Logs)
}

/// The last block of a chunk that starts at `start`.
pub open spec fn chunk_end(start: u64, end: u64, blocks: u64) -> u64 {
    if start + blocks - 1 < end {
        (start + blocks - 1) as u64
    } else {
        end
    }
}

/// Ranges of `blocks` blocks, one after the other, from `start` to `end`. The
/// last may be shorter.
pub open spec fn spans(start: u64, end: u64, blocks: u64) -> Seq<BlockRange>
    decreases end - start,
    when blocks > 0
{
    if start > end {
        Seq::empty()
    } else {
        let last = chunk_end(start, end, blocks);
        let range = BlockRange { start: BlockNumber(start), end: BlockNumber(last) };
        if last >= end {
            seq![range]
        } else {
            seq![range] + spans((last + 1) as u64, end, blocks)
        }
    }
}

/// Chunks of a fixed size cover a range exactly: without a gap, without an
/// overlap, from its first block to its last.
pub proof fn law_spans_cover_exactly(start: u64, end: u64, blocks: u64)
    requires
        start <= end,
        blocks > 0,
    ensures
        exact_cover(
            BlockRange { start: BlockNumber(start), end: BlockNumber(end) },
            spans(start, end, blocks),
        ),
    decreases end - start,
{
    let last = chunk_end(start, end, blocks);
    let all = spans(start, end, blocks);
    if last < end {
        let rest = spans((last + 1) as u64, end, blocks);
        law_spans_cover_exactly((last + 1) as u64, end, blocks);
        assert(all[0].end.0 == last);
        assert(all.last() == rest.last());
        assert forall|i: int| 0 <= i < all.len() implies (#[trigger] all[i]).wf() by {
            if i > 0 {
                assert(all[i] == rest[i - 1]);
            }
        }
        assert forall|i: int| 0 < i < all.len() implies (#[trigger] all[i]).start.0 == all[i
            - 1].end.0 + 1 by {
            assert(all[i] == rest[i - 1]);
            if i > 1 {
                assert(all[i - 1] == rest[i - 2]);
            }
        }
    }
}

impl GeneratedHistorySource {
    /// The source has blocks, and its chunks do too.
    pub open spec fn wf(self) -> bool {
        &&& self.chunk_blocks > 0
        &&& self.descriptor.range is Some
        &&& self.descriptor.range->0.wf()
    }

    /// Constructs a generated source plus its immutable expected manifest.
    /// Refuses a block or chunk count of zero.
    pub fn new(kind: SyntheticCorpusKind, blocks: u64, seed: u64, chunk_blocks: u64) -> (outcome:
        Result<(GeneratedHistorySource, SyntheticCorpusManifest), SourceError>)
        ensures
            match outcome {
                Ok((source, manifest)) => {
                    let range = BlockRange { start: BlockNumber(1), end: BlockNumber(blocks) };
                    &&& blocks > 0 && chunk_blocks > 0
                    &&& source.wf()
                    &&& source.kind == kind
                    &&& source.seed == seed
                    &&& source.chunk_blocks == chunk_blocks
                    &&& source.stats.frames == 0
                    &&& source.stats.estimated_bytes == 0
                    &&& source.stats.first_frame_elapsed_milliseconds is None
                    &&& source.descriptor.id@ == "benchmark-"@ + kind.spec_str()@
                    &&& source.descriptor.kind == SourceKind::Synthetic
                    &&& source.descriptor.chain_id == ChainId(1)
                    &&& source.descriptor.range == Some(range)
                    &&& source.descriptor.capabilities == generated_capabilities()
                    &&& source.descriptor.complete_capabilities == generated_capabilities()
                    &&& source.descriptor.trust == TrustModel::ProtocolVerified
                    &&& source.descriptor.finality == FinalityModel::Finalized
                    &&& source.descriptor.partitioning == Partitioning::FixedBlockSpan(
                        chunk_blocks,
                    )
                    &&& source.descriptor.expected_lag_millis == 0
                    &&& source.descriptor.schema_version@ == "synthetic-benchmark-v1"@
                    &&& source.descriptor.priority == 0
                    &&& manifest@ == manifest_of(kind, seed, range, chunk_blocks)
                },
                Err(error) => {
                    &&& blocks == 0 || chunk_blocks == 0
                    &&& error == SourceError::InvalidPlan(
                        "synthetic corpus blocks and chunk size must be non-zero",
                    )
                },
            },
    {
        if blocks == 0 || chunk_blocks == 0 {
            return Err(
                SourceError::InvalidPlan("synthetic corpus blocks and chunk size must be non-zero"),
            );
        }
        let range = BlockRange { start: BlockNumber(1), end: BlockNumber(blocks) };
        let capabilities = CapabilitySet::none().with(Capability::Header).with(
            Capability::Transactions,
        ).with(Capability::Receipts).with(Capability::Logs);
        let descriptor = SourceDescriptor {
            id: joined("benchmark-", kind.as_str()),
            kind: SourceKind::Synthetic,
            chain_id: ChainId(1),
            range: Some(range),
            capabilities,
            complete_capabilities: capabilities,
            trust: TrustModel::ProtocolVerified,
            finality: FinalityModel::Finalized,
            partitioning: Partitioning::FixedBlockSpan(chunk_blocks),
            expected_lag_millis: 0,
            schema_version: "synthetic-benchmark-v1".to_owned(),
            priority: 0,
        };
        let manifest = synthetic_corpus_manifest(kind, seed, range, chunk_blocks);
        Ok(
            (
                GeneratedHistorySource {
                    descriptor,
                    kind,
                    seed,
                    chunk_blocks,
                    stats: GeneratedSourceStats::default(),
                },
                manifest,
            ),
        )
    }

    /// The counters so far.
    pub fn stats(&self) -> (stats: GeneratedSourceStats)
        ensures
            stats == self.stats,
    {
        self.stats
    }

    /// Forgets when the first frame came, as a new measurement starts.
    pub fn start_measurement(&mut self)
        ensures
            *final(self) == (GeneratedHistorySource {
                stats: GeneratedSourceStats {
                    first_frame_elapsed_milliseconds: None,
                    ..old(self).stats
                },
                ..*old(self)
            }),
    {
        self.stats.first_frame_elapsed_milliseconds = None;
    }

    /// Generates one block.
    pub fn frame(&self, number: BlockNumber) -> (frame: BlockFrame)
        ensures
            frame@ == frame_of(self.kind, self.seed, number),
    {
        generated_frame(self.kind, self.seed, number)
    }

    pub open spec fn is_chunk(self, chunk: SourceChunk, ordinal: int, range: BlockRange) -> bool {
        &&& chunk.source_id@ == self.descriptor.id@
        &&& chunk.range == range
        &&& chunk.partition@ == be64(ordinal as u64)
        &&& chunk.schema_version@ == self.descriptor.schema_version@
        &&& chunk.expected_parent == Some(parent_of(self.seed, self.kind, range.start.0))
        &&& chunk.estimated_bytes is None
    }

    /// Why a request cannot be planned, if it cannot.
    pub open spec fn plan_problem(self, request: DataRequest) -> Option<SourceError> {
        let problem = selection_problem(self.descriptor, request, policy_of(request));
        let available = self.descriptor.range->0;
        if problem is Some {
            Some(SourceError::InvalidPlan(problem->0))
        } else if request.range.start.0 < available.start.0 || request.range.end.0
            > available.end.0 {
            Some(SourceError::MissingRange(request.range))
        } else {
            None
        }
    }

    /// Plans a request in chunks of the source's size.
    pub fn plan(&self, request: &DataRequest) -> (outcome: Result<SourcePlan, SourceError>)
        requires
            self.wf(),
            request.range.wf(),
        ensures
            match outcome {
                Ok(plan) => {
                    let ranges = spans(
                        request.range.start.0,
                        request.range.end.0,
                        self.chunk_blocks,
                    );
                    &&& self.plan_problem(*request) is None
                    &&& plan.source_id@ == self.descriptor.id@
                    &&& plan.request.alike(*request)
                    &&& plan.chunks@.len() == ranges.len()
                    &&& forall|i: int|
                        0 <= i < ranges.len() ==> self.is_chunk(
                            #[trigger] plan.chunks@[i],
                            i,
                            ranges[i],
                        )
                    &&& exact_cover(request.range, chunk_ranges(plan.chunks@))
                    &&& plan.estimated_bytes is None
                    &&& plan.estimated_lag_millis == 0
                    &&& plan.supplied == self.descriptor.capabilities
                    &&& plan.complete == self.descriptor.complete_capabilities
                    &&& plan.trust == self.descriptor.trust
                    &&& plan.schema_version@ == self.descriptor.schema_version@
                    &&& plan.physical_plan@.len() == 0
                },
                Err(error) => self.plan_problem(*request) == Some(error),
            },
    {
        select_source(&self.descriptor, request)?;
        let available: BlockRange = match self.descriptor.range {
            Some(available) => available,
            None => {
                return Err(SourceError::InvalidPlan("generated source has no range"));
            },
        };
        if request.range.start.0 < available.start.0 || request.range.end.0 > available.end.0 {
            return Err(SourceError::MissingRange(request.range));
        }
        let end: u64 = request.range.end.0;
        let blocks: u64 = self.chunk_blocks;
        let ghost all = spans(request.range.start.0, end, blocks);
        let mut chunks: Vec<SourceChunk> = Vec::new();
        let mut start: u64 = request.range.start.0;
        let mut finished = false;
        assert(all.skip(0) =~= all);
        proof {
            law_spans_cover_exactly(start, end, blocks);
        }
        while !finished
            invariant
                blocks == self.chunk_blocks,
                blocks > 0,
                end == request.range.end.0,
                all == spans(request.range.start.0, end, blocks),
                chunks@.len() <= all.len(),
                finished ==> chunks@.len() == all.len(),
                !finished ==> start <= end && all.skip(chunks@.len() as int) == spans(
                    start,
                    end,
                    blocks,
                ),
                forall|i: int|
                    0 <= i < chunks@.len() ==> self.is_chunk(#[trigger] chunks@[i], i, all[i]),
            decreases all.len() - chunks@.len(),
        {
            let last: u64 = if end - start < blocks {
                end
            } else {
                start + (blocks - 1)
            };
            let range = BlockRange { start: BlockNumber(start), end: BlockNumber(last) };
            let ordinal: usize = chunks.len();
            let mut partition: Vec<u8> = Vec::new();
            push_u64(&mut partition, ordinal as u64);
            assert(partition@ =~= be64(ordinal as u64));
            proof {
                let rest = all.skip(ordinal as int);
                assert(last == chunk_end(start, end, blocks));
                assert(rest[0] == range);
                assert(rest.len() == all.len() - ordinal);
                assert(all[ordinal as int] == range);
                if last < end {
                    let tail = spans((last + 1) as u64, end, blocks);
                    assert(rest == seq![range] + tail);
                    assert(all.skip(ordinal + 1) =~= rest.skip(1));
                    assert(rest.skip(1) =~= tail);
                } else {
                    assert(rest.len() == 1);
                }
            }
            chunks.push(
                SourceChunk {
                    source_id: self.descriptor.id.clone(),
                    range,
                    partition,
                    schema_version: self.descriptor.schema_version.clone(),
                    expected_parent: Some(parent_hash(self.seed, self.kind, range.start)),
                    estimated_bytes: None,
                },
            );
            if last == end {
                finished = true;
            } else {
                start = last + 1;
            }
        }
        let physical_plan: Vec<PhysicalPlanOperation> = Vec::new();
        let plan = SourcePlan {
            source_id: self.descriptor.id.clone(),
            request: request.clone(),
            chunks,
            estimated_bytes: None,
            estimated_lag_millis: 0,
            supplied: self.descriptor.capabilities,
            complete: self.descriptor.complete_capabilities,
            trust: self.descriptor.trust,
            schema_version: self.descriptor.schema_version.clone(),
            physical_plan,
        };
        proof {
            assert(chunk_ranges(plan.chunks@) =~= all);
        }
        plan.validate()?;
        Ok(plan)
    }

    /// Why a chunk cannot be opened, if it cannot.
    pub open spec fn open_problem(self, chunk: SourceChunk, budget: SourceBudget) -> Option<
        SourceError,
    > {
        let available = self.descriptor.range->0;
        if !budget.wf() {
            Some(SourceError::InvalidPlan("source budget limits must be non-zero"))
        } else if chunk.source_id@ != self.descriptor.id@ || chunk.schema_version@
            != self.descriptor.schema_version@ {
            Some(
                SourceError::InvalidPlan("generated chunk identity does not match its source"),
            )
        } else if chunk.range.start.0 < available.start.0 || chunk.range.end.0 > available.end.0 {
            Some(SourceError::MissingRange(chunk.range))
        } else {
            None
        }
    }

    /// Starts to stream a chunk.
    pub fn open(&self, chunk: &SourceChunk, budget: SourceBudget) -> (outcome: Result<
        GeneratedStream,
        SourceError,
    >)
        requires
            self.wf(),
        ensures
            match outcome {
                Ok(stream) => {
                    &&& self.open_problem(*chunk, budget) is None
                    &&& stream == (GeneratedStream {
                        next: if chunk.range.wf() {
                            Some(chunk.range.start.0)
                        } else {
                            None
                        },
                        end: chunk.range.end.0,
                        budget,
                        frames: 0,
                        bytes: 0,
                    })
                },
                Err(error) => self.open_problem(*chunk, budget) == Some(error),
            },
    {
        let budget = budget.validate()?;
        if !same_text(chunk.source_id.as_str(), self.descriptor.id.as_str()) || !same_text(
            chunk.schema_version.as_str(),
            self.descriptor.schema_version.as_str(),
        ) {
            return Err(
                SourceError::InvalidPlan("generated chunk identity does not match its source"),
            );
        }
        let available: BlockRange = match self.descriptor.range {
            Some(available) => available,
            None => {
                return Err(SourceError::InvalidPlan("generated source has no range"));
            },
        };
        if chunk.range.start.0 < available.start.0 || chunk.range.end.0 > available.end.0 {
            return Err(SourceError::MissingRange(chunk.range));
        }
        Ok(
            GeneratedStream {
                next: if chunk.range.start.0 <= chunk.range.end.0 {
                    Some(chunk.range.start.0)
                } else {
                    None
                },
                end: chunk.range.end.0,
                budget,
                frames: 0,
                bytes: 0,
            },
        )
    }
}

/// A chunk that is being streamed: the block to come, and what has been spent.
#[derive(Clone, Copy, Debug)]
pub struct GeneratedStream {
    pub next: Option<u64>,
    pub end: u64,
    pub budget: SourceBudget,
    pub frames: u64,
    pub bytes: u64,
}

/// What comes next of a stream.
#[derive(Debug)]
pub enum GeneratedStep {
    Finished,
    Failed(SourceError),
    Generate(BlockNumber),
}

/// Which limit one more frame of so many bytes breaks, if it breaks one.
pub open spec fn frame_refusal(
    budget: SourceBudget,
    frames: u64,
    bytes: u64,
    frame_bytes: u64,
) -> Option<SourceError> {
    if frame_bytes > budget.max_frame_bytes {
        Some(
            SourceError::BudgetExceeded {
                resource: "frame_bytes",
                limit: budget.max_frame_bytes,
                observed: frame_bytes,
            },
        )
    } else if sat(frames + 1) > budget.max_frames {
        Some(
            SourceError::BudgetExceeded {
                resource: "frames",
                limit: budget.max_frames,
                observed: sat(frames + 1),
            },
        )
    } else if sat(bytes + frame_bytes) > budget.max_input_bytes {
        Some(
            SourceError::BudgetExceeded {
                resource: "input_bytes",
                limit: budget.max_input_bytes,
                observed: sat(bytes + frame_bytes),
            },
        )
    } else {
        None
    }
}

/// Refuses a frame that breaks a limit.
pub(crate) fn check_frame(budget: SourceBudget, frames: u64, bytes: u64, frame_bytes: u64) -> (
    outcome: Result<(), SourceError>)
    ensures
        outcome == (match frame_refusal(budget, frames, bytes, frame_bytes) {
            Some(error) => Err::<(), SourceError>(error),
            None => Ok(()),
        }),
{
    if frame_bytes > budget.max_frame_bytes {
        return Err(
            SourceError::BudgetExceeded {
                resource: "frame_bytes",
                limit: budget.max_frame_bytes,
                observed: frame_bytes,
            },
        );
    }
    let total_frames: u64 = frames.saturating_add(1);
    if total_frames > budget.max_frames {
        return Err(
            SourceError::BudgetExceeded {
                resource: "frames",
                limit: budget.max_frames,
                observed: total_frames,
            },
        );
    }
    let total_bytes: u64 = bytes.saturating_add(frame_bytes);
    if total_bytes > budget.max_input_bytes {
        return Err(
            SourceError::BudgetExceeded {
                resource: "input_bytes",
                limit: budget.max_input_bytes,
                observed: total_bytes,
            },
        );
    }
    Ok(())
}

impl GeneratedStream {
    /// What comes next. A stream that is cancelled ends with that.
    pub fn step(&mut self, cancelled: bool) -> (step: GeneratedStep)
        ensures
            match old(self).next {
                None => step is Finished && *final(self) == *old(self),
                Some(number) => if cancelled {
                    &&& step == GeneratedStep::Failed(SourceError::Cancelled)
                    &&& *final(self) == (GeneratedStream { next: None, ..*old(self) })
                } else {
                    step == GeneratedStep::Generate(BlockNumber(number)) && *final(self) == *old(
                        self,
                    )
                },
            },
    {
        match self.next {
            None => GeneratedStep::Finished,
            Some(number) => {
                if cancelled {
                    self.next = None;
                    return GeneratedStep::Failed(SourceError::Cancelled);
                }
                GeneratedStep::Generate(BlockNumber(number))
            },
        }
    }

    /// Takes the block that the step asked for, of so many bytes, and counts
    /// it, as well as the milliseconds that a measurement has run. A block that
    /// breaks a limit ends the stream.
    pub fn accept(
        &mut self,
        source: &mut GeneratedHistorySource,
        frame_bytes: u64,
        elapsed_milliseconds: Option<u64>,
    ) -> (outcome: Result<(), SourceError>)
        requires
            old(self).next is Some,
        ensures
            final(source).descriptor == old(source).descriptor,
            final(source).kind == old(source).kind,
            final(source).seed == old(source).seed,
            final(source).chunk_blocks == old(source).chunk_blocks,
            match frame_refusal(
                old(self).budget,
                old(self).frames,
                old(self).bytes,
                frame_bytes,
            ) {
                Some(error) => {
                    &&& outcome == Err::<(), SourceError>(error)
                    &&& *final(self) == (GeneratedStream { next: None, ..*old(self) })
                    &&& final(source).stats == old(source).stats
                },
                None => {
                    &&& outcome == Ok::<(), SourceError>(())
                    &&& *final(self) == (GeneratedStream {
                        next: if old(self).next->0 < old(self).end {
                            Some((old(self).next->0 + 1) as u64)
                        } else {
                            None
                        },
                        frames: sat(old(self).frames + 1),
                        bytes: sat(old(self).bytes + frame_bytes),
                        ..*old(self)
                    })
                    &&& final(source).stats == (GeneratedSourceStats {
                        frames: wrapped(old(source).stats.frames, 1),
                        estimated_bytes: wrapped(old(source).stats.estimated_bytes, frame_bytes),
                        first_frame_elapsed_milliseconds: if old(source).stats.frames == 0
                            && elapsed_milliseconds is Some {
                            elapsed_milliseconds
                        } else {
                            old(source).stats.first_frame_elapsed_milliseconds
                        },
                    })
                },
            },
    {
        if let Err(error) = check_frame(self.budget, self.frames, self.bytes, frame_bytes) {
            self.next = None;
            return Err(error);
        }
        self.frames = self.frames.saturating_add(1);
        self.bytes = self.bytes.saturating_add(frame_bytes);
        if source.stats.frames == 0 && elapsed_milliseconds.is_some() {
            source.stats.first_frame_elapsed_milliseconds = elapsed_milliseconds;
        }
        source.stats.frames = add_wrapping(source.stats.frames, 1);
        source.stats.estimated_bytes = add_wrapping(source.stats.estimated_bytes, frame_bytes);
        match self.next {
            Some(number) => {
                self.next = if number < self.end {
                    Some(number + 1)
                } else {
                    None
                };
            },
            None => {},
        }
        Ok(())
    }
}

} // verus!
