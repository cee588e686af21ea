//! Sets of block ranges: canonical form, coverage gaps and overlap.

use crate::primitives::{BlockNumber, BlockRange};
use vstd::prelude::*;

verus! {

/// Some range of `ranges` holds `height`.
pub open spec fn covers(ranges: Seq<BlockRange>, height: int) -> bool {
    exists|i: int| 0 <= i < ranges.len() && (#[trigger] ranges[i]).has(height)
}

/// Every range holds at least one height.
pub open spec fn all_wf(ranges: Seq<BlockRange>) -> bool {
    forall|i: int| 0 <= i < ranges.len() ==> (#[trigger] ranges[i]).wf()
}

/// Non-empty ranges in ascending order, with at least one height between
/// any two of them.
pub open spec fn separated(ranges: Seq<BlockRange>) -> bool {
    &&& all_wf(ranges)
    &&& forall|i: int, j: int|
        #![trigger ranges[i], ranges[j]]
        0 <= i < j < ranges.len() ==> ranges[i].end.0 + 1 < ranges[j].start.0
}

/// Starts that do not descend.
pub open spec fn by_start(ranges: Seq<BlockRange>) -> bool {
    forall|i: int, j: int|
        #![trigger ranges[i], ranges[j]]
        0 <= i < j < ranges.len() ==> ranges[i].start.0 <= ranges[j].start.0
}

/// Sorts by start, then by end.
fn sort_ranges(ranges: &[BlockRange]) -> (sorted: Vec<BlockRange>)
    requires
        all_wf(ranges@),
    ensures
        by_start(sorted@),
        all_wf(sorted@),
        sorted@.len() == ranges@.len(),
        forall|height: int| #[trigger] covers(sorted@, height) <==> covers(ranges@, height),
        forall|i: int| 0 <= i < sorted@.len() ==> ranges@.contains(#[trigger] sorted@[i]),
{
    let mut sorted: Vec<BlockRange> = Vec::new();
    let mut index: usize = 0;
    while index < ranges.len()
        invariant
            index <= ranges@.len(),
            all_wf(ranges@),
            by_start(sorted@),
            all_wf(sorted@),
            sorted@.len() == index,
            forall|height: int| #[trigger]
                covers(sorted@, height) <==> covers(ranges@.take(index as int), height),
            forall|i: int| 0 <= i < sorted@.len() ==> ranges@.contains(#[trigger] sorted@[i]),
        decreases ranges@.len() - index,
    {
        let range = ranges[index];
        let ghost before = sorted@;
        let mut at: usize = 0;
        while at < sorted.len()
            invariant_except_break
                at <= sorted@.len(),
                sorted@ == before,
                by_start(before),
                forall|i: int| 0 <= i < at ==> (#[trigger] before[i]).start.0 <= range.start.0,
            ensures
                at <= sorted@.len(),
                sorted@ == before,
                forall|i: int| 0 <= i < at ==> (#[trigger] before[i]).start.0 <= range.start.0,
                at < before.len() ==> range.start.0 <= before[at as int].start.0,
            decreases sorted@.len() - at,
        {
            let held = sorted[at];
            if held.start.0 > range.start.0 || (held.start.0 == range.start.0 && held.end.0
                > range.end.0) {
                break;
            }
            at += 1;
        }
        sorted.insert(at, range);
        proof {
            let after = sorted@;
            assert(after == before.insert(at as int, range));
            assert forall|i: int, j: int|
                #![trigger after[i], after[j]]
                0 <= i < j < after.len() implies after[i].start.0 <= after[j].start.0 by {
                if j == at {
                    assert(after[i] == before[i]);
                } else if i == at {
                    assert(after[j] == before[j - 1]);
                    if j - 1 > at {
                        assert(before[at as int].start.0 <= before[j - 1].start.0);
                    }
                } else {
                    let a = if i < at {
                        i
                    } else {
                        i - 1
                    };
                    let b = if j < at {
                        j
                    } else {
                        j - 1
                    };
                    assert(after[i] == before[a]);
                    assert(after[j] == before[b]);
                }
            }
            assert forall|i: int| 0 <= i < after.len() implies (#[trigger] after[i]).wf()
                && ranges@.contains(after[i]) by {
                if i < at {
                    assert(after[i] == before[i]);
                } else if i > at {
                    assert(after[i] == before[i - 1]);
                } else {
                    assert(ranges@[index as int].wf());
                    assert(ranges@[index as int] == after[i]);
                }
            }
            let longer = ranges@.take(index + 1);
            let shorter = ranges@.take(index as int);
            assert(longer =~= shorter.push(range));
            assert forall|height: int| #[trigger]
                covers(after, height) <==> covers(longer, height) by {
                assert(covers(before, height) <==> covers(shorter, height));
                lemma_covers_insert(before, at as int, range, height);
                lemma_covers_push(shorter, range, height);
            }
        }
        index += 1;
    }
    proof {
        assert(ranges@.take(index as int) =~= ranges@);
    }
    sorted
}

pub proof fn lemma_covers_push(ranges: Seq<BlockRange>, range: BlockRange, height: int)
    ensures
        covers(ranges.push(range), height) <==> covers(ranges, height) || range.has(height),
{
    let longer = ranges.push(range);
    if covers(longer, height) {
        let i = choose|i: int| 0 <= i < longer.len() && (#[trigger] longer[i]).has(height);
        if i < ranges.len() {
            assert(ranges[i] == longer[i]);
        }
    }
    if covers(ranges, height) {
        let i = choose|i: int| 0 <= i < ranges.len() && (#[trigger] ranges[i]).has(height);
        assert(longer[i] == ranges[i]);
    }
    if range.has(height) {
        assert(longer[ranges.len() as int] == range);
    }
}

proof fn lemma_covers_insert(ranges: Seq<BlockRange>, at: int, range: BlockRange, height: int)
    requires
        0 <= at <= ranges.len(),
    ensures
        covers(ranges.insert(at, range), height) <==> covers(ranges, height) || range.has(height),
{
    let longer = ranges.insert(at, range);
    if covers(longer, height) {
        let i = choose|i: int| 0 <= i < longer.len() && (#[trigger] longer[i]).has(height);
        if i < at {
            assert(ranges[i] == longer[i]);
        } else if i > at {
            assert(ranges[i - 1] == longer[i]);
        }
    }
    if covers(ranges, height) {
        let i = choose|i: int| 0 <= i < ranges.len() && (#[trigger] ranges[i]).has(height);
        if i < at {
            assert(longer[i] == ranges[i]);
        } else {
            assert(longer[i + 1] == ranges[i]);
        }
    }
    if range.has(height) {
        assert(longer[at] == range);
    }
}

/// Merges ranges that overlap or adjoin into canonical form.
pub fn merge_ranges(ranges: &[BlockRange]) -> (merged: Vec<BlockRange>)
    requires
        all_wf(ranges@),
    ensures
        separated(merged@),
        ranges@.len() > 0 <==> merged@.len() > 0,
        merged@.len() <= ranges@.len(),
        forall|height: int| #[trigger] covers(merged@, height) <==> covers(ranges@, height),
{
    let sorted: Vec<BlockRange> = sort_ranges(ranges);
    let mut merged: Vec<BlockRange> = Vec::new();
    let mut index: usize = 0;
    while index < sorted.len()
        invariant
            index <= sorted@.len(),
            by_start(sorted@),
            all_wf(sorted@),
            separated(merged@),
            index > 0 <==> merged@.len() > 0,
            merged@.len() <= index,
            merged@.len() > 0 ==> forall|j: int|
                index <= j < sorted@.len() ==> merged@.last().start.0 <= (#[trigger] sorted@[j]).start.0,
            forall|height: int| #[trigger]
                covers(merged@, height) <==> covers(sorted@.take(index as int), height),
        decreases sorted@.len() - index,
    {
        let range = sorted[index];
        let ghost before = merged@;
        let ghost shorter = sorted@.take(index as int);
        let ghost longer = sorted@.take(index + 1);
        proof {
            assert(longer =~= shorter.push(range));
            assert(sorted@[index as int].wf());
        }
        let count: usize = merged.len();
        let joins = count > 0 && range.start.0 <= merged[count - 1].end.0.saturating_add(1);
        if joins {
            let last = merged[count - 1];
            let end: u64 = if last.end.0 > range.end.0 {
                last.end.0
            } else {
                range.end.0
            };
            let joined = BlockRange { start: last.start, end: BlockNumber(end) };
            merged[count - 1] = joined;
            proof {
                assert(merged@ == before.update(count - 1, joined));
                assert(before.last() == last);
                assert forall|height: int| #[trigger]
                    covers(merged@, height) <==> covers(longer, height) by {
                    assert(covers(before, height) <==> covers(shorter, height));
                    lemma_covers_push(shorter, range, height);
                    if covers(merged@, height) {
                        let i = choose|i: int|
                            0 <= i < merged@.len() && (#[trigger] merged@[i]).has(height);
                        if i < count - 1 {
                            assert(before[i] == merged@[i]);
                        } else if last.has(height) {
                            assert(before[count - 1].has(height));
                        } else {
                            assert(range.has(height));
                        }
                    }
                    if covers(before, height) {
                        let i = choose|i: int|
                            0 <= i < before.len() && (#[trigger] before[i]).has(height);
                        if i < count - 1 {
                            assert(merged@[i] == before[i]);
                        } else {
                            assert(merged@[i].has(height));
                        }
                    }
                    if range.has(height) {
                        assert(merged@[count - 1].has(height));
                    }
                }
                assert forall|i: int| 0 <= i < merged@.len() implies (#[trigger] merged@[i]).wf() by {
                    if i < count - 1 {
                        assert(before[i].wf());
                    }
                }
            }
        } else {
            merged.push(range);
            proof {
                assert forall|height: int| #[trigger]
                    covers(merged@, height) <==> covers(longer, height) by {
                    assert(covers(before, height) <==> covers(shorter, height));
                    lemma_covers_push(shorter, range, height);
                    lemma_covers_push(before, range, height);
                }
                assert forall|i: int, j: int|
                    #![trigger merged@[i], merged@[j]]
                    0 <= i < j < merged@.len() implies merged@[i].end.0 + 1
                    < merged@[j].start.0 by {
                    if j == before.len() {
                        assert(merged@[i] == before[i]);
                        if i < before.len() - 1 {
                            assert(before[i].end.0 + 1 < before.last().start.0);
                        }
                    } else {
                        assert(merged@[i] == before[i] && merged@[j] == before[j]);
                    }
                }
                assert forall|i: int| 0 <= i < merged@.len() implies (#[trigger] merged@[i]).wf() by {
                    if i < before.len() {
                        assert(before[i].wf());
                    }
                }
            }
        }
        index += 1;
    }
    proof {
        assert(sorted@.take(index as int) =~= sorted@);
    }
    merged
}

/// The parts of `requested` that `covered` leaves open, in canonical form.
pub open spec fn is_gaps(
    requested: BlockRange,
    covered: Seq<BlockRange>,
    gaps: Seq<BlockRange>,
) -> bool {
    &&& separated(gaps)
    &&& forall|height: int| #[trigger]
        covers(gaps, height) <==> requested.has(height) && !covers(covered, height)
}

/// What a gap scan reports. It stops counting at the largest height, so a
/// range that ends there is reported with that height open even where it is
/// covered; everywhere else it reports exactly the gaps.
pub open spec fn reports_gaps(
    requested: BlockRange,
    covered: Seq<BlockRange>,
    gaps: Seq<BlockRange>,
) -> bool {
    if requested.end.0 == u64::MAX && covers(covered, u64::MAX as int) {
        &&& gaps.len() > 0
        &&& gaps.last() == (BlockRange { start: requested.end, end: requested.end })
        &&& is_gaps(requested, covered, gaps.drop_last())
    } else {
        is_gaps(requested, covered, gaps)
    }
}

/// The parts of `requested` that `covered` leaves open.
pub fn range_gaps(requested: BlockRange, covered: &[BlockRange]) -> (gaps: Vec<BlockRange>)
    requires
        requested.wf(),
        all_wf(covered@),
    ensures
        reports_gaps(requested, covered@, gaps@),
{
    let mut relevant: Vec<BlockRange> = Vec::new();
    let mut index: usize = 0;
    while index < covered.len()
        invariant
            index <= covered@.len(),
            all_wf(covered@),
            all_wf(relevant@),
            forall|height: int|
                requested.has(height) ==> (#[trigger] covers(relevant@, height) <==> covers(
                    covered@.take(index as int),
                    height,
                )),
            forall|i: int|
                0 <= i < relevant@.len() ==> (#[trigger] relevant@[i]).end.0 >= requested.start.0
                    && relevant@[i].start.0 <= requested.end.0,
        decreases covered@.len() - index,
    {
        let range = covered[index];
        let ghost before = relevant@;
        proof {
            assert(covered@[index as int].wf());
            assert(covered@.take(index + 1) =~= covered@.take(index as int).push(range));
            assert forall|height: int| requested.has(height) implies (#[trigger] covers(
                before,
                height,
            ) || (range.has(height)) <==> covers(covered@.take(index + 1), height)) by {
                lemma_covers_push(covered@.take(index as int), range, height);
            }
        }
        if range.end.0 >= requested.start.0 && range.start.0 <= requested.end.0 {
            relevant.push(range);
            proof {
                assert forall|height: int| requested.has(height) implies (#[trigger] covers(
                    relevant@,
                    height,
                ) <==> covers(covered@.take(index + 1), height)) by {
                    lemma_covers_push(before, range, height);
                    assert(covers(before, height) || range.has(height) <==> covers(
                        covered@.take(index + 1),
                        height,
                    ));
                }
            }
        }
        index += 1;
    }
    proof {
        assert(covered@.take(index as int) =~= covered@);
    }
    let sorted: Vec<BlockRange> = sort_ranges(relevant.as_slice());
    proof {
        assert forall|i: int| 0 <= i < sorted@.len() implies (#[trigger] sorted@[i]).end.0
            >= requested.start.0 && sorted@[i].start.0 <= requested.end.0 by {
            assert(relevant@.contains(sorted@[i]));
        }
        assert forall|height: int| requested.has(height) implies (#[trigger] covers(
            sorted@,
            height,
        ) <==> covers(covered@, height)) by {
            assert(covers(relevant@, height) <==> covers(covered@, height));
        }
    }
    let mut gaps: Vec<BlockRange> = Vec::new();
    let mut next: u64 = requested.start.0;
    let ghost mut reached: int = requested.start.0 as int;
    let mut index: usize = 0;
    while index < sorted.len()
        invariant
            requested.wf(),
            index <= sorted@.len(),
            by_start(sorted@),
            all_wf(sorted@),
            forall|i: int|
                0 <= i < sorted@.len() ==> (#[trigger] sorted@[i]).end.0 >= requested.start.0
                    && sorted@[i].start.0 <= requested.end.0,
            forall|height: int|
                requested.has(height) ==> (#[trigger] covers(sorted@, height) <==> covers(
                    covered@,
                    height,
                )),
            requested.start.0 <= reached,
            reached <= requested.end.0 || (reached == u64::MAX + 1 && requested.end.0 == u64::MAX),
            next == (if reached > u64::MAX {
                u64::MAX as int
            } else {
                reached
            }),
            swept(requested, sorted@, gaps@, reached),
            forall|i: int| 0 <= i < index ==> (#[trigger] sorted@[i]).end.0 < reached,
        decreases sorted@.len() - index,
    {
        let range = sorted[index];
        let ghost before = gaps@;
        let ghost old_reached = reached;
        let start: u64 = if range.start.0 > requested.start.0 {
            range.start.0
        } else {
            requested.start.0
        };
        let end: u64 = if range.end.0 < requested.end.0 {
            range.end.0
        } else {
            requested.end.0
        };
        proof {
            assert(sorted@[index as int].wf());
        }
        if start > next {
            gaps.push(BlockRange { start: BlockNumber(next), end: BlockNumber(start - 1) });
        }
        let after: u64 = end.saturating_add(1);
        if after > next {
            next = after;
        }
        proof {
            if end + 1 > reached {
                reached = end + 1;
            }
            lemma_sweep_step(
                requested,
                sorted@,
                index as int,
                before,
                old_reached,
                gaps@,
                reached,
            );
        }
        if next > requested.end.0 {
            proof {
                lemma_swept_all(requested, sorted@, covered@, gaps@, reached);
            }
            return gaps;
        }
        index += 1;
    }
    if next <= requested.end.0 {
        let ghost before = gaps@;
        let rest = BlockRange { start: BlockNumber(next), end: requested.end };
        gaps.push(rest);
        proof {
            if reached > u64::MAX {
                assert(gaps@.drop_last() =~= before);
                lemma_swept_all(requested, sorted@, covered@, before, reached);
                assert(!covers(before, u64::MAX as int)) by {
                    if covers(before, u64::MAX as int) {
                        let i = choose|i: int|
                            0 <= i < before.len() && (#[trigger] before[i]).has(u64::MAX as int);
                        assert(before[i].end.0 + 1 < reached);
                    }
                }
                assert(requested.has(u64::MAX as int));
            } else {
                lemma_last_gap(requested, sorted@, covered@, before, reached);
            }
        }
    }
    gaps
}

/// The gaps found so far are right for every height below `reached`.
spec fn swept(
    requested: BlockRange,
    sorted: Seq<BlockRange>,
    gaps: Seq<BlockRange>,
    reached: int,
) -> bool {
    &&& separated(gaps)
    &&& forall|i: int|
        0 <= i < gaps.len() ==> (#[trigger] gaps[i]).end.0 + 1 < reached && gaps[i].start.0
            >= requested.start.0 && gaps[i].end.0 <= requested.end.0
    &&& forall|height: int|
        requested.has(height) && height < reached ==> (#[trigger] covers(gaps, height)
            <==> !covers(sorted, height))
}

proof fn lemma_sweep_step(
    requested: BlockRange,
    sorted: Seq<BlockRange>,
    index: int,
    before: Seq<BlockRange>,
    old_reached: int,
    gaps: Seq<BlockRange>,
    reached: int,
)
    requires
        requested.wf(),
        0 <= index < sorted.len(),
        by_start(sorted),
        all_wf(sorted),
        sorted[index].end.0 >= requested.start.0,
        sorted[index].start.0 <= requested.end.0,
        requested.start.0 <= old_reached,
        old_reached <= requested.end.0 || old_reached == u64::MAX + 1,
        swept(requested, sorted, before, old_reached),
        forall|i: int| 0 <= i < index ==> (#[trigger] sorted[i]).end.0 < old_reached,
        ({
            let range = sorted[index];
            let start = if range.start.0 > requested.start.0 {
                range.start.0
            } else {
                requested.start.0
            };
            let end = if range.end.0 < requested.end.0 {
                range.end.0
            } else {
                requested.end.0
            };
            &&& reached == (if end + 1 > old_reached {
                end + 1
            } else {
                old_reached
            })
            &&& gaps == (if start > old_reached {
                before.push(
                    BlockRange {
                        start: BlockNumber(old_reached as u64),
                        end: BlockNumber((start - 1) as u64),
                    },
                )
            } else {
                before
            })
        }),
    ensures
        swept(requested, sorted, gaps, reached),
{
    let range = sorted[index];
    let start = if range.start.0 > requested.start.0 {
        range.start.0
    } else {
        requested.start.0
    };
    assert forall|height: int| requested.has(height) && height < reached implies (#[trigger] covers(
        gaps,
        height,
    ) <==> !covers(sorted, height)) by {
        if start > old_reached {
            lemma_covers_push(before, gaps.last(), height);
            if old_reached <= height < start {
                if covers(sorted, height) {
                    let i = choose|i: int|
                        0 <= i < sorted.len() && (#[trigger] sorted[i]).has(height);
                    if i > index {
                        assert(sorted[index].start.0 <= sorted[i].start.0);
                    }
                }
            }
        }
        if height < old_reached {
            assert(covers(before, height) <==> !covers(sorted, height));
        } else {
            if covers(before, height) {
                let i = choose|i: int| 0 <= i < before.len() && (#[trigger] before[i]).has(height);
                assert(before[i].end.0 + 1 < old_reached);
            }
            if height >= start {
                assert(sorted[index].has(height));
            }
        }
    }
    assert forall|i: int| 0 <= i < gaps.len() implies (#[trigger] gaps[i]).wf() && gaps[i].end.0 + 1
        < reached && gaps[i].start.0 >= requested.start.0 && gaps[i].end.0 <= requested.end.0 by {
        if i < before.len() {
            assert(gaps[i] == before[i]);
        }
    }
    assert forall|i: int, j: int|
        #![trigger gaps[i], gaps[j]]
        0 <= i < j < gaps.len() implies gaps[i].end.0 + 1 < gaps[j].start.0 by {
        assert(gaps[i] == before[i]);
        if j < before.len() {
            assert(gaps[j] == before[j]);
        }
    }
}

proof fn lemma_swept_all(
    requested: BlockRange,
    sorted: Seq<BlockRange>,
    covered: Seq<BlockRange>,
    gaps: Seq<BlockRange>,
    reached: int,
)
    requires
        swept(requested, sorted, gaps, reached),
        reached > requested.end.0,
        forall|height: int|
            requested.has(height) ==> (#[trigger] covers(sorted, height) <==> covers(
                covered,
                height,
            )),
    ensures
        is_gaps(requested, covered, gaps),
{
    assert forall|height: int| #[trigger] covers(gaps, height) <==> requested.has(height)
        && !covers(covered, height) by {
        if covers(gaps, height) {
            let i = choose|i: int| 0 <= i < gaps.len() && (#[trigger] gaps[i]).has(height);
            assert(requested.has(height));
        }
        if requested.has(height) {
            assert(covers(sorted, height) <==> covers(covered, height));
        }
    }
}

proof fn lemma_last_gap(
    requested: BlockRange,
    sorted: Seq<BlockRange>,
    covered: Seq<BlockRange>,
    gaps: Seq<BlockRange>,
    reached: int,
)
    requires
        requested.wf(),
        requested.start.0 <= reached <= requested.end.0,
        swept(requested, sorted, gaps, reached),
        forall|i: int| 0 <= i < sorted.len() ==> (#[trigger] sorted[i]).end.0 < reached,
        forall|height: int|
            requested.has(height) ==> (#[trigger] covers(sorted, height) <==> covers(
                covered,
                height,
            )),
    ensures
        is_gaps(
            requested,
            covered,
            gaps.push(BlockRange { start: BlockNumber(reached as u64), end: requested.end }),
        ),
        !(requested.end.0 == u64::MAX && covers(covered, u64::MAX as int)),
{
    let rest = BlockRange { start: BlockNumber(reached as u64), end: requested.end };
    let all = gaps.push(rest);
    assert forall|height: int| #[trigger] covers(all, height) <==> requested.has(height) && !covers(
        covered,
        height,
    ) by {
        lemma_covers_push(gaps, rest, height);
        if covers(gaps, height) {
            let i = choose|i: int| 0 <= i < gaps.len() && (#[trigger] gaps[i]).has(height);
            assert(requested.has(height) && height < reached);
        }
        if requested.has(height) {
            assert(covers(sorted, height) <==> covers(covered, height));
            if height >= reached && covers(sorted, height) {
                let i = choose|i: int| 0 <= i < sorted.len() && (#[trigger] sorted[i]).has(height);
                assert(sorted[i].end.0 < reached);
            }
        }
    }
    assert forall|i: int| 0 <= i < all.len() implies (#[trigger] all[i]).wf() by {
        if i < gaps.len() {
            assert(gaps[i].wf());
        }
    }
    assert forall|i: int, j: int|
        #![trigger all[i], all[j]]
        0 <= i < j < all.len() implies all[i].end.0 + 1 < all[j].start.0 by {
        assert(all[i] == gaps[i]);
        if j < gaps.len() {
            assert(all[j] == gaps[j]);
        }
    }
    if requested.end.0 == u64::MAX {
        assert(requested.has(u64::MAX as int));
        if covers(covered, u64::MAX as int) {
            assert(covers(sorted, u64::MAX as int));
            let i = choose|i: int|
                0 <= i < sorted.len() && (#[trigger] sorted[i]).has(u64::MAX as int);
            assert(sorted[i].end.0 < reached);
        }
    }
}

/// Canonical form is unique: two separated sets of ranges that hold the same
/// heights are the same ranges.
pub proof fn law_canonical_ranges(left: Seq<BlockRange>, right: Seq<BlockRange>)
    requires
        separated(left),
        separated(right),
        forall|height: int| #[trigger] covers(left, height) <==> covers(right, height),
    ensures
        left == right,
    decreases left.len(),
{
    if left.len() == 0 {
        if right.len() > 0 {
            assert(right[0].has(right[0].start.0 as int));
            assert(covers(right, right[0].start.0 as int));
            assert(covers(left, right[0].start.0 as int));
        }
        assert(left =~= right);
    } else {
        lemma_first_not_later(left, right);
        lemma_first_not_later(right, left);
        lemma_first_not_longer(left, right);
        lemma_first_not_longer(right, left);
        let rest_left = left.drop_first();
        let rest_right = right.drop_first();
        assert forall|height: int| #[trigger] covers(rest_left, height) <==> covers(
            rest_right,
            height,
        ) by {
            lemma_rest_covers(left, height);
            lemma_rest_covers(right, height);
            assert(covers(left, height) <==> covers(right, height));
        }
        law_canonical_ranges(rest_left, rest_right);
        assert(left =~= seq![left[0]] + rest_left);
        assert(right =~= seq![right[0]] + rest_right);
    }
}

proof fn lemma_first_not_later(left: Seq<BlockRange>, right: Seq<BlockRange>)
    requires
        separated(left),
        separated(right),
        left.len() > 0,
        forall|height: int| #[trigger] covers(left, height) <==> covers(right, height),
    ensures
        right.len() > 0,
        right[0].start.0 <= left[0].start.0,
{
    let height = left[0].start.0 as int;
    assert(left[0].has(height));
    assert(covers(left, height));
    assert(covers(right, height));
    let i = choose|i: int| 0 <= i < right.len() && (#[trigger] right[i]).has(height);
    if i > 0 {
        assert(right[0].end.0 + 1 < right[i].start.0);
    }
}

proof fn lemma_first_not_longer(left: Seq<BlockRange>, right: Seq<BlockRange>)
    requires
        separated(left),
        separated(right),
        left.len() > 0,
        right.len() > 0,
        left[0].start == right[0].start,
        forall|height: int| #[trigger] covers(left, height) <==> covers(right, height),
    ensures
        right[0].end.0 <= left[0].end.0,
{
    if right[0].end.0 > left[0].end.0 {
        let height = left[0].end.0 + 1;
        assert(right[0].has(height));
        assert(covers(right, height));
        assert(covers(left, height));
        let i = choose|i: int| 0 <= i < left.len() && (#[trigger] left[i]).has(height);
        if i > 0 {
            assert(left[0].end.0 + 1 < left[i].start.0);
        }
    }
}

proof fn lemma_rest_covers(ranges: Seq<BlockRange>, height: int)
    requires
        separated(ranges),
        ranges.len() > 0,
    ensures
        covers(ranges.drop_first(), height) <==> covers(ranges, height) && !ranges[0].has(height),
        separated(ranges.drop_first()),
{
    let rest = ranges.drop_first();
    if covers(rest, height) {
        let i = choose|i: int| 0 <= i < rest.len() && (#[trigger] rest[i]).has(height);
        assert(ranges[i + 1] == rest[i]);
        assert(ranges[0].end.0 + 1 < ranges[i + 1].start.0);
    }
    if covers(ranges, height) && !ranges[0].has(height) {
        let i = choose|i: int| 0 <= i < ranges.len() && (#[trigger] ranges[i]).has(height);
        assert(rest[i - 1] == ranges[i]);
    }
    assert forall|i: int| 0 <= i < rest.len() implies (#[trigger] rest[i]).wf() by {
        assert(rest[i] == ranges[i + 1]);
    }
    assert forall|i: int, j: int|
        #![trigger rest[i], rest[j]]
        0 <= i < j < rest.len() implies rest[i].end.0 + 1 < rest[j].start.0 by {
        assert(rest[i] == ranges[i + 1] && rest[j] == ranges[j + 1]);
    }
}

/// The parts of `requested` that `covered` leaves open, up to the largest
/// height.
pub fn coverage_gaps(requested: BlockRange, covered: &[BlockRange]) -> (gaps: Vec<BlockRange>)
    requires
        requested.wf(),
        all_wf(covered@),
    ensures
        is_gaps(requested, covered@, gaps@),
{
    let mut gaps: Vec<BlockRange> = range_gaps(requested, covered);
    if requested.end.0 < u64::MAX {
        return gaps;
    }
    let mut index: usize = 0;
    while index < covered.len()
        invariant
            index <= covered@.len(),
            all_wf(covered@),
            requested.end.0 == u64::MAX,
            reports_gaps(requested, covered@, gaps@),
            forall|i: int| 0 <= i < index ==> (#[trigger] covered@[i]).end.0 < u64::MAX,
        decreases covered@.len() - index,
    {
        if covered[index].end.0 == u64::MAX {
            proof {
                assert(covered@[index as int].wf());
                assert(covered@[index as int].has(u64::MAX as int));
                assert(covers(covered@, u64::MAX as int));
            }
            let ghost all = gaps@;
            gaps.pop();
            assert(gaps@ =~= all.drop_last());
            return gaps;
        }
        index += 1;
    }
    assert(!covers(covered@, u64::MAX as int));
    gaps
}

/// `gaps` lists, request by request, what a gap scan reports of each.
pub open spec fn reports_all_gaps(
    requested: Seq<BlockRange>,
    covered: Seq<BlockRange>,
    gaps: Seq<BlockRange>,
) -> bool
    decreases requested.len(),
{
    if requested.len() == 0 {
        gaps.len() == 0
    } else {
        exists|split: int|
            0 <= split <= gaps.len() && reports_all_gaps(
                requested.drop_last(),
                covered,
                #[trigger] gaps.take(split),
            ) && reports_gaps(requested.last(), covered, gaps.skip(split))
    }
}

/// The parts of every requested range that `covered` leaves open.
pub fn requested_gaps(requested: &[BlockRange], covered: &[BlockRange]) -> (gaps: Vec<BlockRange>)
    requires
        all_wf(requested@),
        all_wf(covered@),
    ensures
        reports_all_gaps(requested@, covered@, gaps@),
{
    let mut gaps: Vec<BlockRange> = Vec::new();
    let mut index: usize = 0;
    while index < requested.len()
        invariant
            index <= requested@.len(),
            all_wf(requested@),
            all_wf(covered@),
            reports_all_gaps(requested@.take(index as int), covered@, gaps@),
        decreases requested@.len() - index,
    {
        let ghost before = gaps@;
        proof {
            assert(requested@[index as int].wf());
        }
        let mut found: Vec<BlockRange> = range_gaps(requested[index], covered);
        let ghost part = found@;
        gaps.append(&mut found);
        proof {
            let longer = requested@.take(index + 1);
            assert(longer.drop_last() =~= requested@.take(index as int));
            assert(longer.last() == requested@[index as int]);
            assert(gaps@.take(before.len() as int) =~= before);
            assert(gaps@.skip(before.len() as int) =~= part);
            assert(reports_all_gaps(
                longer.drop_last(),
                covered@,
                gaps@.take(before.len() as int),
            ));
        }
        index += 1;
    }
    proof {
        assert(requested@.take(index as int) =~= requested@);
    }
    gaps
}

/// What is reported open is exactly what was requested and is not covered,
/// for requests that end below the largest height.
pub proof fn law_gaps_are_what_is_left(
    requested: Seq<BlockRange>,
    covered: Seq<BlockRange>,
    gaps: Seq<BlockRange>,
    height: int,
)
    requires
        reports_all_gaps(requested, covered, gaps),
        forall|i: int| 0 <= i < requested.len() ==> (#[trigger] requested[i]).end.0 < u64::MAX,
    ensures
        covers(gaps, height) <==> covers(requested, height) && !covers(covered, height),
        all_wf(gaps),
    decreases requested.len(),
{
    if requested.len() == 0 {
        assert(!covers(requested, height));
    } else {
        let before = requested.drop_last();
        let split = choose|split: int|
            0 <= split <= gaps.len() && reports_all_gaps(
                before,
                covered,
                #[trigger] gaps.take(split),
            ) && reports_gaps(requested.last(), covered, gaps.skip(split));
        let first = gaps.take(split);
        let second = gaps.skip(split);
        assert forall|i: int| 0 <= i < before.len() implies (#[trigger] before[i]).end.0
            < u64::MAX by {
            assert(before[i] == requested[i]);
        }
        law_gaps_are_what_is_left(before, covered, first, height);
        assert(requested[requested.len() - 1].end.0 < u64::MAX);
        assert(is_gaps(requested.last(), covered, second));
        assert(covers(second, height) <==> requested.last().has(height) && !covers(
            covered,
            height,
        ));
        assert(before.push(requested.last()) =~= requested);
        lemma_covers_push(before, requested.last(), height);
        assert(first + second =~= gaps);
        if covers(gaps, height) {
            let i = choose|i: int| 0 <= i < gaps.len() && (#[trigger] gaps[i]).has(height);
            if i < split {
                assert(first[i] == gaps[i]);
            } else {
                assert(second[i - split] == gaps[i]);
            }
        }
        if covers(first, height) {
            let i = choose|i: int| 0 <= i < first.len() && (#[trigger] first[i]).has(height);
            assert(gaps[i] == first[i]);
        }
        if covers(second, height) {
            let i = choose|i: int| 0 <= i < second.len() && (#[trigger] second[i]).has(height);
            assert(gaps[split + i] == second[i]);
        }
        assert forall|i: int| 0 <= i < gaps.len() implies (#[trigger] gaps[i]).wf() by {
            if i < split {
                assert(first[i] == gaps[i]);
            } else {
                assert(second[i - split] == gaps[i]);
            }
        }
    }
}

} // verus!
