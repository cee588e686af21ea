//! Bounded reads and verification across retained segments.

use crate::artifacts::segment::{
    is_read, parse_artifact_file, scan_fault, scan_window, ArtifactRecord, ArtifactSegmentError,
    ArtifactSegmentReader, DeltaFacts, ProcessorContract,
};
use crate::artifacts::segment_sink::ArtifactSegmentSink;
use crate::artifacts::sink::{ArtifactSinkError, EntryView, SegmentEntry};
use crate::artifacts::writer::sat;
use crate::frame_view::views;
use crate::primitives::{BlockHash, BlockNumber, BlockRange};
use vstd::prelude::*;

verus! {

/// A read across segments, as far as it has come.
#[verifier::ext_equal]
pub struct ScanView {
    pub entries: Seq<EntryView>,
    pub range: BlockRange,
    pub limit: usize,
    pub next: int,
    pub expected: BlockNumber,
    pub taken: int,
}

/// The part of a segment that is read next.
#[derive(Debug)]
pub struct ScanRead {
    pub path: String,
    pub range: BlockRange,
    pub limit: usize,
}

impl ScanView {
    pub open spec fn wf(self) -> bool {
        0 <= self.next <= self.entries.len() && 0 <= self.taken <= self.limit && 0 < self.limit
            <= 10_000
    }

    /// The part of a segment that lies at or behind the expected block.
    pub open spec fn part(self, entry: EntryView) -> BlockRange {
        BlockRange {
            start: if self.expected.0 > entry.range.start.0 {
                self.expected
            } else {
                entry.range.start
            },
            end: if self.range.end.0 < entry.range.end.0 {
                self.range.end
            } else {
                entry.range.end
            },
        }
    }

    /// Which segment is read next, if any, or the block at which coverage has
    /// a gap.
    pub open spec fn settled(self) -> Result<Option<int>, ArtifactSinkError>
        decreases self.entries.len() - self.next,
    {
        if self.next >= self.entries.len() || self.taken == self.limit || self.expected.0
            > self.range.end.0 {
            Ok(None)
        } else {
            let part = self.part(self.entries[self.next]);
            if part.start.0 > part.end.0 {
                (ScanView { next: self.next + 1, ..self }).settled()
            } else if part.start != self.expected {
                Err(ArtifactSinkError::CoverageGap(self.expected))
            } else {
                Ok(Some(self.next))
            }
        }
    }
}

/// A bounded ascending read across the segments of one instance.
#[derive(Debug)]
pub struct ArtifactScan {
    entries: Vec<SegmentEntry>,
    range: BlockRange,
    limit: usize,
    next: usize,
    expected: BlockNumber,
    taken: usize,
}

impl View for ArtifactScan {
    type V = ScanView;

    closed spec fn view(&self) -> ScanView {
        ScanView {
            entries: views(self.entries@),
            range: self.range,
            limit: self.limit,
            next: self.next as int,
            expected: self.expected,
            taken: self.taken as int,
        }
    }
}

impl ArtifactSegmentSink {
    /// Starts a bounded ascending read of a range. Rejects an invalid limit.
    pub fn scan(&self, instance: &str, range: BlockRange, limit: usize) -> (outcome: Result<
        ArtifactScan,
        ArtifactSinkError,
    >)
        ensures
            match outcome {
                Ok(scan) => {
                    &&& 0 < limit <= 10_000
                    &&& scan@.wf()
                    &&& scan@ == (ScanView {
                        entries: self@.entries.filter(
                            |entry: EntryView| entry.instance == instance@,
                        ).filter(
                            |entry: EntryView|
                                entry.range.end.0 >= range.start.0 && entry.range.start.0
                                    <= range.end.0,
                        ),
                        range,
                        limit,
                        next: 0,
                        expected: range.start,
                        taken: 0,
                    })
                },
                Err(error) => {
                    &&& limit == 0 || limit > 10_000
                    &&& error == ArtifactSinkError::InvalidScanLimit(limit)
                },
            },
    {
        if limit == 0 || limit > 10_000 {
            return Err(ArtifactSinkError::InvalidScanLimit(limit));
        }
        let segments: Vec<SegmentEntry> = self.segments_of(instance);
        let mut entries: Vec<SegmentEntry> = Vec::new();
        let ghost keep = |entry: EntryView|
            entry.range.end.0 >= range.start.0 && entry.range.start.0 <= range.end.0;
        let ghost all = views(segments@);
        let mut index: usize = 0;
        proof {
            reveal(Seq::filter);
            assert(views(entries@) =~= all.take(0).filter(keep));
        }
        while index < segments.len()
            invariant
                index <= segments@.len(),
                all == views(segments@),
                keep == (|entry: EntryView|
                    entry.range.end.0 >= range.start.0 && entry.range.start.0 <= range.end.0),
                views(entries@) == all.take(index as int).filter(keep),
            decreases segments@.len() - index,
        {
            let ghost before = entries@;
            proof {
                reveal(Seq::filter);
                assert(all.take(index + 1).drop_last() =~= all.take(index as int));
                assert(all.take(index + 1).last() == segments@[index as int]@);
            }
            let held = segments[index].range;
            if held.end.0 >= range.start.0 && held.start.0 <= range.end.0 {
                entries.push(segments[index].clone());
                assert(views(entries@) =~= views(before).push(segments@[index as int]@));
            }
            index += 1;
        }
        assert(all.take(all.len() as int) =~= all);
        Ok(ArtifactScan { entries, range, limit, next: 0, expected: range.start, taken: 0 })
    }
}

impl ArtifactScan {
    /// Goes on to the next segment that has to be read. Ends when the range or
    /// the limit is exhausted, or with the block at which coverage has a gap.
    pub fn advance(&mut self) -> (outcome: Result<Option<ScanRead>, ArtifactSinkError>)
        requires
            old(self)@.wf(),
        ensures
            final(self)@.wf(),
            final(self)@ == (ScanView { next: final(self)@.next, ..old(self)@ }),
            match (outcome, old(self)@.settled()) {
                (Ok(Some(read)), Ok(Some(at))) => {
                    let entry = old(self)@.entries[at];
                    &&& final(self)@.next == at
                    &&& read.path@ == entry.path
                    &&& read.range == old(self)@.part(entry)
                    &&& read.range.start == old(self)@.expected
                    &&& read.range.wf()
                    &&& read.limit == old(self)@.limit - old(self)@.taken
                },
                (Ok(None), Ok(None)) => true,
                (Err(error), Err(expected)) => error == expected,
                _ => false,
            },
    {
        let ghost start = self@;
        while self.next < self.entries.len() && self.taken != self.limit && self.expected.0
            <= self.range.end.0
            invariant
                self@.wf(),
                self@ == (ScanView { next: self@.next, ..start }),
                start.settled() == self@.settled(),
                start == old(self)@,
            decreases self.entries@.len() - self.next,
        {
            let entry = &self.entries[self.next];
            assert(self@.entries[self.next as int] == entry@);
            let start_block = if self.expected.0 > entry.range.start.0 {
                self.expected
            } else {
                entry.range.start
            };
            let end_block = if self.range.end.0 < entry.range.end.0 {
                self.range.end
            } else {
                entry.range.end
            };
            if start_block.0 <= end_block.0 {
                if start_block != self.expected {
                    return Err(ArtifactSinkError::CoverageGap(self.expected));
                }
                return Ok(
                    Some(
                        ScanRead {
                            path: entry.path.clone(),
                            range: BlockRange { start: start_block, end: end_block },
                            limit: self.limit - self.taken,
                        },
                    ),
                );
            }
            self.next = self.next + 1;
        }
        Ok(None)
    }

    /// Reads the part that `advance` asked for from its segment's file.
    pub fn take(&mut self, contract: &ProcessorContract, read: &ScanRead, file: &[u8]) -> (outcome:
        Result<Vec<ArtifactRecord>, ArtifactSinkError>)
        requires
            old(self)@.wf(),
            old(self)@.next < old(self)@.entries.len(),
            read.limit == old(self)@.limit - old(self)@.taken,
        ensures
            final(self)@.wf(),
            match parse_artifact_file(file@) {
                Err(error) => outcome == Err::<Vec<ArtifactRecord>, ArtifactSinkError>(
                    ArtifactSinkError::Segment(error),
                ),
                Ok(parsed) => {
                    let (start, count) = scan_window(
                        parsed.metadata.descriptor.range,
                        read.range,
                        read.limit,
                    );
                    let fault = scan_fault(
                        parsed.metadata,
                        parsed.directory_offset,
                        file@,
                        start,
                        count,
                    );
                    if parsed.metadata.descriptor.contract != contract@ {
                        outcome == Err::<Vec<ArtifactRecord>, ArtifactSinkError>(
                            ArtifactSinkError::Segment(ArtifactSegmentError::Contract),
                        )
                    } else if read.limit == 0 {
                        outcome == Err::<Vec<ArtifactRecord>, ArtifactSinkError>(
                            ArtifactSinkError::Segment(
                                ArtifactSegmentError::InvalidLimit(read.limit),
                            ),
                        )
                    } else if fault is Some {
                        outcome == Err::<Vec<ArtifactRecord>, ArtifactSinkError>(
                            ArtifactSinkError::Segment(fault->0),
                        )
                    } else if count == 0 {
                        outcome == Err::<Vec<ArtifactRecord>, ArtifactSinkError>(
                            ArtifactSinkError::CoverageGap(old(self)@.expected),
                        )
                    } else {
                        &&& outcome is Ok
                        &&& outcome->Ok_0@.len() == count
                        &&& forall|k: int|
                            0 <= k < count ==> is_read(
                                parsed.metadata,
                                parsed.directory_offset,
                                file@,
                                start + k,
                                #[trigger] outcome->Ok_0@[k],
                            )
                        &&& final(self)@ == (ScanView {
                            next: old(self)@.next + 1,
                            expected: BlockNumber(
                                sat(start + count),
                            ),
                            taken: old(self)@.taken + count,
                            ..old(self)@
                        })
                    }
                },
            },
            outcome is Err ==> final(self)@ == old(self)@,
    {
        let reader = match ArtifactSegmentReader::open(file, contract) {
            Ok(reader) => reader,
            Err(error) => {
                return Err(ArtifactSinkError::Segment(error));
            },
        };
        let records: Vec<ArtifactRecord> = match reader.scan(file, read.range, read.limit) {
            Ok(records) => records,
            Err(error) => {
                return Err(ArtifactSinkError::Segment(error));
            },
        };
        if records.len() == 0 {
            return Err(ArtifactSinkError::CoverageGap(self.expected));
        }
        let last: BlockNumber = records[records.len() - 1].block;
        self.expected = BlockNumber(last.0.saturating_add(1));
        self.taken = self.taken + records.len();
        if self.next < self.entries.len() {
            self.next = self.next + 1;
        }
        Ok(records)
    }
}

/// Verification of an instance's segments in block order, from one to the next.
#[derive(Clone, Copy, Debug)]
pub struct SegmentChain {
    pub previous: Option<(BlockRange, BlockHash)>,
}

/// Whether a segment goes on from the one before: its first and last records
/// are the catalogued ones, it starts right behind, and it is linked by parent.
pub open spec fn goes_on(
    previous: Option<(BlockRange, BlockHash)>,
    entry: EntryView,
    first: DeltaFacts,
    last: DeltaFacts,
) -> bool {
    &&& first.block.hash == entry.first_hash
    &&& last.block.hash == entry.last_hash
    &&& match previous {
        Some((range, hash)) => {
            &&& (if range.end.0 == u64::MAX {
                u64::MAX as int
            } else {
                range.end.0 + 1
            }) == entry.range.start.0
            &&& first.block.parent_hash == hash
        },
        None => true,
    }
}

impl SegmentChain {
    pub fn new() -> (chain: SegmentChain)
        ensures
            chain.previous is None,
    {
        SegmentChain { previous: None }
    }

    /// Takes the next segment with its first and last delta. Refuses one that
    /// does not go on from the one before.
    pub fn step(&mut self, entry: &SegmentEntry, first: &DeltaFacts, last: &DeltaFacts) -> (outcome:
        Result<(), ArtifactSinkError>)
        ensures
            if goes_on(old(self).previous, entry@, *first, *last) {
                &&& outcome == Ok::<(), ArtifactSinkError>(())
                &&& final(self).previous == Some((entry.range, entry.last_hash))
            } else {
                &&& outcome == Err::<(), ArtifactSinkError>(
                    ArtifactSinkError::CoverageGap(entry.range.start),
                )
                &&& final(self).previous == old(self).previous
            },
    {
        let linked = match self.previous {
            Some((range, hash)) => range.end.0.saturating_add(1) == entry.range.start.0
                && first.block.parent_hash == hash,
            None => true,
        };
        if first.block.hash != entry.first_hash || last.block.hash != entry.last_hash || !linked {
            return Err(ArtifactSinkError::CoverageGap(entry.range.start));
        }
        self.previous = Some((entry.range, entry.last_hash));
        Ok(())
    }
}

} // verus!
