//! Direct retention of finalized artifact batches in immutable segments.

use crate::artifacts::batch::{BatchProblem, ValidatedBatch};
use crate::artifacts::segment::{ArtifactCompression, ArtifactSegmentError, ArtifactSegmentLimits};
use crate::artifacts::writer::sat;
use crate::bytes::same_array;
use crate::primitives::{BlockHash, BlockNumber, BlockRange};
use crate::text::same_text;
use vstd::prelude::*;

verus! {

/// Why the sink refuses.
#[derive(Clone, Copy, Debug)]
pub enum ArtifactSinkError {
    InvalidConfig,
    EmptyBatch,
    Batch(BatchProblem),
    Conflict(BlockRange),
    CoverageGap(BlockNumber),
    InvalidScanLimit(usize),
    AggregatePhysicalLimit { projected: u64, limit: u64 },
    Segment(ArtifactSegmentError),
}

/// The refusal of a batch.
pub open spec fn batch_refusal(problem: BatchProblem) -> ArtifactSinkError {
    match problem {
        BatchProblem::Empty => ArtifactSinkError::EmptyBatch,
        _ => ArtifactSinkError::Batch(problem),
    }
}

/// Immutable-segment sink policy.
#[derive(Clone, Copy, Debug)]
pub struct ArtifactSegmentSinkConfig {
    pub compression: ArtifactCompression,
    pub limits: ArtifactSegmentLimits,
    pub maximum_retained_physical_bytes: u64,
}

impl ArtifactSegmentSinkConfig {
    /// One permitted segment fits the aggregate limit.
    pub open spec fn wf(self) -> bool {
        &&& self.limits.wf()
        &&& self.maximum_retained_physical_bytes > 0
        &&& self.limits.maximum_segment_physical_bytes <= self.maximum_retained_physical_bytes
    }

    /// Validates all hard bounds. Rejects invalid segment limits and an
    /// aggregate limit smaller than one permitted segment.
    pub fn validate(self) -> (outcome: Result<ArtifactSegmentSinkConfig, ArtifactSinkError>)
        ensures
            outcome == (if self.wf() {
                Ok::<ArtifactSegmentSinkConfig, ArtifactSinkError>(self)
            } else {
                Err(ArtifactSinkError::InvalidConfig)
            }),
    {
        if self.limits.validate().is_err() || self.maximum_retained_physical_bytes == 0
            || self.limits.maximum_segment_physical_bytes > self.maximum_retained_physical_bytes {
            return Err(ArtifactSinkError::InvalidConfig);
        }
        Ok(self)
    }
}

/// Current immutable-segment footprint.
#[derive(Clone, Copy, Debug, PartialEq, Eq, Structural)]
pub struct ArtifactSegmentSinkStats {
    pub segments: u64,
    pub artifacts: u64,
    pub logical_bytes: u64,
    pub physical_bytes: u64,
}

impl Default for ArtifactSegmentSinkStats {
    fn default() -> (stats: ArtifactSegmentSinkStats)
        ensures
            stats == no_segments(),
    {
        ArtifactSegmentSinkStats { segments: 0, artifacts: 0, logical_bytes: 0, physical_bytes: 0 }
    }
}

/// The footprint of no segments.
pub open spec fn no_segments() -> ArtifactSegmentSinkStats {
    ArtifactSegmentSinkStats { segments: 0, artifacts: 0, logical_bytes: 0, physical_bytes: 0 }
}

/// A difference, at least zero.
pub open spec fn floored(value: int) -> u64 {
    if value < 0 {
        0
    } else {
        value as u64
    }
}

impl ArtifactSegmentSinkStats {
    /// The footprint with one more segment, each figure capped.
    pub open spec fn with(self, entry: EntryView) -> ArtifactSegmentSinkStats {
        ArtifactSegmentSinkStats {
            segments: sat(self.segments + 1),
            artifacts: sat(self.artifacts + entry.artifacts),
            logical_bytes: sat(self.logical_bytes + entry.logical_bytes),
            physical_bytes: sat(self.physical_bytes + entry.physical_bytes),
        }
    }

    /// The footprint with one segment less, each figure at least zero.
    pub open spec fn without(self, entry: EntryView) -> ArtifactSegmentSinkStats {
        ArtifactSegmentSinkStats {
            segments: floored(self.segments - 1),
            artifacts: floored(self.artifacts - entry.artifacts),
            logical_bytes: floored(self.logical_bytes - entry.logical_bytes),
            physical_bytes: floored(self.physical_bytes - entry.physical_bytes),
        }
    }

    /// No figure is capped when a segment joins.
    pub open spec fn has_room(self, entry: EntryView) -> bool {
        &&& self.segments < u64::MAX
        &&& self.artifacts + entry.artifacts <= u64::MAX
        &&& self.logical_bytes + entry.logical_bytes <= u64::MAX
        &&& self.physical_bytes + entry.physical_bytes <= u64::MAX
    }

    pub(crate) fn joined(self, entry: &SegmentEntry) -> (stats: ArtifactSegmentSinkStats)
        ensures
            stats == self.with(entry@),
    {
        ArtifactSegmentSinkStats {
            segments: self.segments.saturating_add(1),
            artifacts: self.artifacts.saturating_add(entry.artifacts),
            logical_bytes: self.logical_bytes.saturating_add(entry.logical_bytes),
            physical_bytes: self.physical_bytes.saturating_add(entry.physical_bytes),
        }
    }

    pub(crate) fn left(self, entry: &SegmentEntry) -> (stats: ArtifactSegmentSinkStats)
        ensures
            stats == self.without(entry@),
    {
        ArtifactSegmentSinkStats {
            segments: self.segments.saturating_sub(1),
            artifacts: self.artifacts.saturating_sub(entry.artifacts),
            logical_bytes: self.logical_bytes.saturating_sub(entry.logical_bytes),
            physical_bytes: self.physical_bytes.saturating_sub(entry.physical_bytes),
        }
    }
}

/// One retained segment: its file below the sink's directory, and what the
/// file holds.
#[derive(Debug)]
pub struct SegmentEntry {
    pub instance: String,
    pub range: BlockRange,
    pub path: String,
    pub artifacts: u64,
    pub logical_bytes: u64,
    pub physical_bytes: u64,
    pub first_hash: BlockHash,
    pub last_hash: BlockHash,
    pub records_checksum: [u8; 32],
}

/// A retained segment by value.
pub struct EntryView {
    pub instance: Seq<char>,
    pub range: BlockRange,
    pub path: Seq<char>,
    pub artifacts: u64,
    pub logical_bytes: u64,
    pub physical_bytes: u64,
    pub first_hash: BlockHash,
    pub last_hash: BlockHash,
    pub records_checksum: [u8; 32],
}

impl View for SegmentEntry {
    type V = EntryView;

    open spec fn view(&self) -> EntryView {
        EntryView {
            instance: self.instance@,
            range: self.range,
            path: self.path@,
            artifacts: self.artifacts,
            logical_bytes: self.logical_bytes,
            physical_bytes: self.physical_bytes,
            first_hash: self.first_hash,
            last_hash: self.last_hash,
            records_checksum: self.records_checksum,
        }
    }
}

impl Clone for SegmentEntry {
    fn clone(&self) -> (copy: SegmentEntry)
        ensures
            copy@ == self@,
    {
        SegmentEntry {
            instance: self.instance.clone(),
            range: self.range,
            path: self.path.clone(),
            artifacts: self.artifacts,
            logical_bytes: self.logical_bytes,
            physical_bytes: self.physical_bytes,
            first_hash: self.first_hash,
            last_hash: self.last_hash,
            records_checksum: self.records_checksum,
        }
    }
}

impl EntryView {
    /// Holds exactly this range of this processor instance.
    pub open spec fn is_exact(self, instance: Seq<char>, range: BlockRange) -> bool {
        self.instance == instance && self.range == range
    }

    /// Shares a block of this processor instance.
    pub open spec fn shares(self, instance: Seq<char>, range: BlockRange) -> bool {
        self.instance == instance && self.range.start.0 <= range.end.0 && self.range.end.0
            >= range.start.0
    }

    /// Holds the very records of a batch.
    pub open spec fn is_identical(self, batch: ValidatedBatch) -> bool {
        &&& self.first_hash == batch.first_hash
        &&& self.last_hash == batch.last_hash
        &&& self.logical_bytes == batch.logical_bytes
        &&& self.records_checksum == batch.records_checksum
    }

    /// What is reported of a retained segment.
    pub open spec fn receipt(self, newly_retained: bool) -> BatchReceiptView {
        BatchReceiptView {
            range: self.range,
            path: self.path,
            artifacts: self.artifacts,
            logical_bytes: self.logical_bytes,
            physical_bytes: self.physical_bytes,
            records_checksum: self.records_checksum,
            newly_retained,
        }
    }
}

impl SegmentEntry {
    pub(crate) fn is_exact(&self, instance: &str, range: BlockRange) -> (exact: bool)
        ensures
            exact == self@.is_exact(instance@, range),
    {
        self.range == range && same_text(self.instance.as_str(), instance)
    }

    pub(crate) fn shares(&self, instance: &str, range: BlockRange) -> (shares: bool)
        ensures
            shares == self@.shares(instance@, range),
    {
        self.range.start.0 <= range.end.0 && self.range.end.0 >= range.start.0 && same_text(
            self.instance.as_str(),
            instance,
        )
    }

    /// Refuses a batch whose records are not the ones retained for its range.
    pub fn validate_identity(&self, batch: &ValidatedBatch) -> (outcome: Result<
        (),
        ArtifactSinkError,
    >)
        ensures
            outcome == (if self@.is_identical(*batch) {
                Ok::<(), ArtifactSinkError>(())
            } else {
                Err(ArtifactSinkError::Conflict(self.range))
            }),
    {
        if self.first_hash != batch.first_hash || self.last_hash != batch.last_hash
            || self.logical_bytes != batch.logical_bytes || !same_array(
            &self.records_checksum,
            &batch.records_checksum,
        ) {
            return Err(ArtifactSinkError::Conflict(self.range));
        }
        Ok(())
    }

    /// The receipt for this segment.
    pub fn receipt(&self, newly_retained: bool) -> (receipt: ArtifactBatchReceipt)
        ensures
            receipt@ == self@.receipt(newly_retained),
    {
        ArtifactBatchReceipt {
            range: self.range,
            path: self.path.clone(),
            artifacts: self.artifacts,
            logical_bytes: self.logical_bytes,
            physical_bytes: self.physical_bytes,
            records_checksum: self.records_checksum,
            newly_retained,
        }
    }
}

/// Result of durably retaining one contiguous finalized artifact batch.
#[derive(Debug)]
pub struct ArtifactBatchReceipt {
    pub range: BlockRange,
    pub path: String,
    pub artifacts: u64,
    pub logical_bytes: u64,
    pub physical_bytes: u64,
    pub records_checksum: [u8; 32],
    pub newly_retained: bool,
}

/// A receipt by value.
pub struct BatchReceiptView {
    pub range: BlockRange,
    pub path: Seq<char>,
    pub artifacts: u64,
    pub logical_bytes: u64,
    pub physical_bytes: u64,
    pub records_checksum: [u8; 32],
    pub newly_retained: bool,
}

impl View for ArtifactBatchReceipt {
    type V = BatchReceiptView;

    open spec fn view(&self) -> BatchReceiptView {
        BatchReceiptView {
            range: self.range,
            path: self.path@,
            artifacts: self.artifacts,
            logical_bytes: self.logical_bytes,
            physical_bytes: self.physical_bytes,
            records_checksum: self.records_checksum,
            newly_retained: self.newly_retained,
        }
    }
}

/// Segments of one processor instance stand in block order and share no block.
pub open spec fn disjoint(entries: Seq<EntryView>) -> bool {
    &&& forall|i: int| 0 <= i < entries.len() ==> (#[trigger] entries[i]).range.wf()
    &&& forall|i: int, j: int|
        #![trigger entries[i], entries[j]]
        0 <= i < j < entries.len() && entries[i].instance == entries[j].instance
            ==> entries[i].range.end.0 < entries[j].range.start.0
}

/// Where the first segment stands, from `from` on, that holds exactly a range.
pub open spec fn exact_from(
    entries: Seq<EntryView>,
    instance: Seq<char>,
    range: BlockRange,
    from: int,
) -> Option<int>
    decreases entries.len() - from,
{
    if from >= entries.len() {
        None
    } else if entries[from].is_exact(instance, range) {
        Some(from)
    } else {
        exact_from(entries, instance, range, from + 1)
    }
}

/// Where the first segment stands, from `from` on, that shares a block.
pub open spec fn sharing_from(
    entries: Seq<EntryView>,
    instance: Seq<char>,
    range: BlockRange,
    from: int,
) -> Option<int>
    decreases entries.len() - from,
{
    if from >= entries.len() {
        None
    } else if entries[from].shares(instance, range) {
        Some(from)
    } else {
        sharing_from(entries, instance, range, from + 1)
    }
}

/// Where a segment of an instance is inserted: before the first one of the
/// same instance that starts later.
pub open spec fn place_from(
    entries: Seq<EntryView>,
    instance: Seq<char>,
    start: BlockNumber,
    from: int,
) -> int
    decreases entries.len() - from,
{
    if from >= entries.len() {
        entries.len() as int
    } else if entries[from].instance == instance && entries[from].range.start.0 > start.0 {
        from
    } else {
        place_from(entries, instance, start, from + 1)
    }
}

/// The segments with one more at its place.
pub open spec fn inserted(entries: Seq<EntryView>, entry: EntryView) -> Seq<EntryView> {
    entries.insert(place_from(entries, entry.instance, entry.range.start, 0), entry)
}

/// What a search for an exact range finds, and what it passes over.
pub proof fn lemma_exact_from(
    entries: Seq<EntryView>,
    instance: Seq<char>,
    range: BlockRange,
    from: int,
)
    requires
        0 <= from,
    ensures
        match exact_from(entries, instance, range, from) {
            Some(found) => from <= found < entries.len() && entries[found].is_exact(
                instance,
                range,
            ),
            None => forall|i: int|
                from <= i < entries.len() ==> !(#[trigger] entries[i]).is_exact(instance, range),
        },
    decreases entries.len() - from,
{
    if from < entries.len() && !entries[from].is_exact(instance, range) {
        lemma_exact_from(entries, instance, range, from + 1);
    }
}

/// What a search for a shared block finds, and what it passes over.
pub proof fn lemma_sharing_from(
    entries: Seq<EntryView>,
    instance: Seq<char>,
    range: BlockRange,
    from: int,
)
    requires
        0 <= from,
    ensures
        match sharing_from(entries, instance, range, from) {
            Some(found) => from <= found < entries.len() && entries[found].shares(instance, range),
            None => forall|i: int|
                from <= i < entries.len() ==> !(#[trigger] entries[i]).shares(instance, range),
        },
    decreases entries.len() - from,
{
    if from < entries.len() && !entries[from].shares(instance, range) {
        lemma_sharing_from(entries, instance, range, from + 1);
    }
}

proof fn lemma_place_from(
    entries: Seq<EntryView>,
    instance: Seq<char>,
    start: BlockNumber,
    from: int,
)
    requires
        0 <= from <= entries.len(),
    ensures
        from <= place_from(entries, instance, start, from) <= entries.len(),
        forall|i: int|
            from <= i < place_from(entries, instance, start, from) && (
            #[trigger] entries[i]).instance == instance ==> entries[i].range.start.0 <= start.0,
        place_from(entries, instance, start, from) < entries.len() ==> {
            let next = entries[place_from(entries, instance, start, from)];
            next.instance == instance && next.range.start.0 > start.0
        },
    decreases entries.len() - from,
{
    if from < entries.len() && !(entries[from].instance == instance && entries[from].range.start.0
        > start.0) {
        lemma_place_from(entries, instance, start, from + 1);
    }
}

/// A segment that shares no block can join: the segments stay in order and
/// share no block.
pub proof fn law_retained_segments_stay_disjoint(entries: Seq<EntryView>, entry: EntryView)
    requires
        disjoint(entries),
        entry.range.wf(),
        sharing_from(entries, entry.instance, entry.range, 0) is None,
    ensures
        disjoint(inserted(entries, entry)),
{
    let at = place_from(entries, entry.instance, entry.range.start, 0);
    lemma_place_from(entries, entry.instance, entry.range.start, 0);
    lemma_sharing_from(entries, entry.instance, entry.range, 0);
    let after = inserted(entries, entry);
    assert forall|i: int| 0 <= i < after.len() implies (#[trigger] after[i]).range.wf() by {
        assert(after[i] == if i < at {
            entries[i]
        } else if i == at {
            entry
        } else {
            entries[i - 1]
        });
    }
    assert forall|i: int, j: int|
        #![trigger after[i], after[j]]
        0 <= i < j < after.len() && after[i].instance
            == after[j].instance implies after[i].range.end.0 < after[j].range.start.0 by {
        if i != at && j != at {
            let left = if i < at {
                i
            } else {
                i - 1
            };
            let right = if j < at {
                j
            } else {
                j - 1
            };
            assert(after[i] == entries[left] && after[j] == entries[right]);
        } else if j == at {
            assert(after[i] == entries[i]);
            assert(!entries[i].shares(entry.instance, entry.range));
        } else {
            assert(after[j] == entries[j - 1]);
            assert(!entries[j - 1].shares(entry.instance, entry.range));
            assert(entries[at].instance == entry.instance);
            if j - 1 > at {
                assert(entries[at].range.end.0 < entries[j - 1].range.start.0);
            }
        }
    }
}

/// Once a batch is retained, its exact range is found, with the entry that was
/// recorded: a retry of the same batch is answered from it.
pub proof fn law_retained_batches_are_found(entries: Seq<EntryView>, entry: EntryView)
    requires
        disjoint(entries),
        entry.range.wf(),
        sharing_from(entries, entry.instance, entry.range, 0) is None,
    ensures
        ({
            let after = inserted(entries, entry);
            let found = exact_from(after, entry.instance, entry.range, 0);
            found is Some && after[found->0] == entry
        }),
{
    let at = place_from(entries, entry.instance, entry.range.start, 0);
    lemma_place_from(entries, entry.instance, entry.range.start, 0);
    law_retained_segments_stay_disjoint(entries, entry);
    let after = inserted(entries, entry);
    assert(after[at] == entry);
    lemma_exact_from(after, entry.instance, entry.range, 0);
    let found = exact_from(after, entry.instance, entry.range, 0)->0;
    if found < at {
        assert(after[found].range.end.0 < after[at].range.start.0);
    } else if at < found {
        assert(after[at].range.end.0 < after[found].range.start.0);
    }
}

/// Removing a segment right after it was retained gives back the segments and
/// the footprint from before, where no figure was capped.
pub proof fn law_removal_undoes_retention(
    entries: Seq<EntryView>,
    stats: ArtifactSegmentSinkStats,
    entry: EntryView,
)
    requires
        disjoint(entries),
        entry.range.wf(),
        sharing_from(entries, entry.instance, entry.range, 0) is None,
        stats.has_room(entry),
    ensures
        ({
            let after = inserted(entries, entry);
            let found = exact_from(after, entry.instance, entry.range, 0);
            found is Some && after.remove(found->0) == entries
        }),
        stats.with(entry).without(entry) == stats,
{
    let at = place_from(entries, entry.instance, entry.range.start, 0);
    lemma_place_from(entries, entry.instance, entry.range.start, 0);
    law_retained_segments_stay_disjoint(entries, entry);
    let after = inserted(entries, entry);
    assert(after[at] == entry);
    lemma_exact_from(after, entry.instance, entry.range, 0);
    let found = exact_from(after, entry.instance, entry.range, 0)->0;
    if found < at {
        assert(after[found].range.end.0 < after[at].range.start.0);
    } else if at < found {
        assert(after[at].range.end.0 < after[found].range.start.0);
    }
    assert(after.remove(at) =~= entries);
}

} // verus!
