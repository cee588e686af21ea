//! What the progress of a job says of the blocks that it holds.

use crate::history::lifecycle::{progress_of, OwnedSegment, RawHistoryJob};
use crate::history::ownership::job_advanced;
use crate::primitives::BlockRange;
use crate::ranges::{covers, law_gaps_are_what_is_left, lemma_covers_push};
use vstd::prelude::*;

verus! {

/// Some segment holds this height.
pub open spec fn is_held(owned: Seq<OwnedSegment>, height: int) -> bool {
    exists|i: int| 0 <= i < owned.len() && (#[trigger] owned[i]).range.has(height)
}

/// Every requested range ends below the largest height.
pub open spec fn ends_below_maximum(requested: Seq<BlockRange>) -> bool {
    forall|i: int| 0 <= i < requested.len() ==> (#[trigger] requested[i]).end.0 < u64::MAX
}

proof fn lemma_progress_covers(owned: Seq<OwnedSegment>, count: int, height: int)
    requires
        0 <= count <= owned.len(),
    ensures
        covers(progress_of(owned, count).covered, height) <==> is_held(owned.take(count), height),
    decreases count,
{
    let part = owned.take(count);
    if count == 0 {
        assert(progress_of(owned, 0).covered.len() == 0);
    } else {
        let shorter = owned.take(count - 1);
        lemma_progress_covers(owned, count - 1, height);
        lemma_covers_push(progress_of(owned, count - 1).covered, owned[count - 1].range, height);
        assert(part[count - 1] == owned[count - 1]);
        if is_held(part, height) {
            let i = choose|i: int| 0 <= i < part.len() && (#[trigger] part[i]).range.has(height);
            if i < count - 1 {
                assert(shorter[i] == part[i]);
            }
        }
        if is_held(shorter, height) {
            let i = choose|i: int|
                0 <= i < shorter.len() && (#[trigger] shorter[i]).range.has(height);
            assert(part[i] == shorter[i]);
        }
    }
}

/// What a job has left after its segments are counted is exactly what it was
/// asked for and no segment of it holds.
pub proof fn law_remaining_is_what_is_missing(
    before: RawHistoryJob,
    after: RawHistoryJob,
    owned: Seq<OwnedSegment>,
    now: u64,
    height: int,
)
    requires
        job_advanced(before, after, owned, now),
        ends_below_maximum(before.spec.ranges@),
    ensures
        covers(after.remaining_ranges@, height) <==> covers(before.spec.ranges@, height)
            && !is_held(owned, height),
{
    let count = owned.len() as int;
    lemma_progress_covers(owned, count, height);
    assert(owned.take(count) =~= owned);
    law_gaps_are_what_is_left(
        before.spec.ranges@,
        progress_of(owned, count).covered,
        after.remaining_ranges@,
        height,
    );
}

/// Counting makes a job complete exactly when its segments hold every block
/// that it was asked for, unless it was cancelled or has failed.
pub proof fn law_complete_jobs_hold_every_block(
    before: RawHistoryJob,
    after: RawHistoryJob,
    owned: Seq<OwnedSegment>,
    now: u64,
)
    requires
        job_advanced(before, after, owned, now),
        ends_below_maximum(before.spec.ranges@),
        !(before.state is Complete || before.state is Cancelled || before.state is Failed),
    ensures
        after.state is Complete <==> forall|height: int| #[trigger]
            covers(before.spec.ranges@, height) ==> is_held(owned, height),
{
    if after.state is Complete {
        assert forall|height: int| #[trigger] covers(before.spec.ranges@, height) implies is_held(
            owned,
            height,
        ) by {
            law_remaining_is_what_is_missing(before, after, owned, now, height);
            if !is_held(owned, height) {
                assert(covers(after.remaining_ranges@, height));
            }
        }
    } else {
        let first = after.remaining_ranges@[0];
        let height = first.start.0 as int;
        law_remaining_is_what_is_missing(before, after, owned, now, height);
        law_gaps_are_what_is_left(
            before.spec.ranges@,
            progress_of(owned, owned.len() as int).covered,
            after.remaining_ranges@,
            height,
        );
        assert(first.wf());
        assert(first.has(height));
        assert(covers(after.remaining_ranges@, height));
    }
}

/// A run never acquires a block again that a segment of the job holds: no part
/// of what is left has one.
pub proof fn law_held_blocks_are_not_acquired(
    before: RawHistoryJob,
    after: RawHistoryJob,
    owned: Seq<OwnedSegment>,
    now: u64,
    at: int,
    height: int,
)
    requires
        job_advanced(before, after, owned, now),
        ends_below_maximum(before.spec.ranges@),
        0 <= at < after.remaining_ranges@.len(),
        after.remaining_ranges@[at].has(height),
    ensures
        !is_held(owned, height),
{
    assert(covers(after.remaining_ranges@, height));
    law_remaining_is_what_is_missing(before, after, owned, now, height);
}

} // verus!
