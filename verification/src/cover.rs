//! Choosing segments that cover a range, always the one that reaches furthest.

use crate::primitives::{BlockNumber, BlockRange};
use crate::ranges::covers;
use crate::request::{exact_cover, SourceError};
use vstd::prelude::*;

verus! {

/// The range among the first `count` that holds `height` and reaches
/// furthest; the last of those that reach equally far.
pub open spec fn furthest(ranges: Seq<BlockRange>, height: int, count: int) -> Option<int>
    decreases count,
{
    if count <= 0 {
        None
    } else {
        let before = furthest(ranges, height, count - 1);
        if !ranges[count - 1].has(height) {
            before
        } else {
            match before {
                Some(at) if ranges[at].end.0 > ranges[count - 1].end.0 => before,
                _ => Some(count - 1),
            }
        }
    }
}

/// What the furthest range is.
pub proof fn lemma_furthest(ranges: Seq<BlockRange>, height: int, count: int)
    requires
        0 <= count <= ranges.len(),
    ensures
        match furthest(ranges, height, count) {
            Some(at) => {
                &&& 0 <= at < count
                &&& ranges[at].has(height)
                &&& forall|i: int|
                    0 <= i < count && (#[trigger] ranges[i]).has(height) ==> ranges[i].end.0
                        <= ranges[at].end.0
            },
            None => forall|i: int| 0 <= i < count ==> !(#[trigger] ranges[i]).has(height),
        },
    decreases count,
{
    if count > 0 {
        lemma_furthest(ranges, height, count - 1);
    }
}

/// A chosen segment, and the part of the request that it serves.
#[derive(Clone, Copy, Debug)]
pub struct Selected {
    pub at: usize,
    pub range: BlockRange,
}

/// The parts of the request.
pub open spec fn selected_ranges(selected: Seq<Selected>) -> Seq<BlockRange> {
    selected.map_values(|part: Selected| part.range)
}

/// Every part starts where the one before ended, is served by the segment
/// that reaches furthest from there, and goes as far as that segment and the
/// request do.
pub open spec fn is_selection(
    requested: BlockRange,
    ranges: Seq<BlockRange>,
    selected: Seq<Selected>,
) -> bool {
    &&& exact_cover(requested, selected_ranges(selected))
    &&& forall|i: int|
        0 <= i < selected.len() ==> furthest(
            ranges,
            (#[trigger] selected[i]).range.start.0 as int,
            ranges.len() as int,
        ) == Some(selected[i].at as int)
    &&& forall|i: int|
        0 <= i < selected.len() ==> (#[trigger] selected[i]).range.end.0 == (if ranges[selected[i].at as int].end.0
            <= requested.end.0 {
            ranges[selected[i].at as int].end.0
        } else {
            requested.end.0
        })
}

/// The first height of the request that no segment holds.
pub open spec fn first_missing(requested: BlockRange, ranges: Seq<BlockRange>, height: u64) -> bool {
    &&& requested.has(height as int)
    &&& !covers(ranges, height as int)
    &&& forall|lower: int| requested.start.0 <= lower < height ==> covers(ranges, lower)
}

fn find_furthest(ranges: &Vec<BlockRange>, height: u64) -> (at: Option<usize>)
    ensures
        match at {
            Some(at) => furthest(ranges@, height as int, ranges@.len() as int) == Some(at as int),
            None => furthest(ranges@, height as int, ranges@.len() as int) is None,
        },
{
    let mut best: Option<usize> = None;
    let mut index: usize = 0;
    while index < ranges.len()
        invariant
            index <= ranges@.len(),
            match best {
                Some(at) => furthest(ranges@, height as int, index as int) == Some(at as int) && at
                    < ranges@.len(),
                None => furthest(ranges@, height as int, index as int) is None,
            },
        decreases ranges@.len() - index,
    {
        if ranges[index].start.0 <= height && height <= ranges[index].end.0 {
            best = match best {
                Some(at) => if ranges[at].end.0 > ranges[index].end.0 {
                    Some(at)
                } else {
                    Some(index)
                },
                None => Some(index),
            };
        }
        index += 1;
    }
    best
}

/// Covers a request from its first height on, or names what is missing.
pub fn select_cover(requested: BlockRange, ranges: &Vec<BlockRange>) -> (outcome: Result<
    Vec<Selected>,
    SourceError,
>)
    requires
        requested.wf(),
    ensures
        match outcome {
            Ok(selected) => is_selection(requested, ranges@, selected@),
            Err(error) => match error {
                SourceError::MissingRange(missing) => missing.end == requested.end && first_missing(
                    requested,
                    ranges@,
                    missing.start.0,
                ),
                _ => false,
            },
        },
{
    let mut selected: Vec<Selected> = Vec::new();
    let mut next: u64 = requested.start.0;
    loop
        invariant
            requested.wf(),
            requested.start.0 <= next <= requested.end.0,
            selected@.len() == 0 ==> next == requested.start.0,
            selected@.len() > 0 ==> selected@[0].range.start == requested.start
                && selected@.last().range.end.0 + 1 == next,
            forall|i: int| 0 <= i < selected@.len() ==> (#[trigger] selected@[i]).range.wf(),
            forall|i: int|
                0 < i < selected@.len() ==> (#[trigger] selected@[i]).range.start.0 == selected@[i
                    - 1].range.end.0 + 1,
            forall|i: int|
                0 <= i < selected@.len() ==> furthest(
                    ranges@,
                    (#[trigger] selected@[i]).range.start.0 as int,
                    ranges@.len() as int,
                ) == Some(selected@[i].at as int),
            forall|i: int|
                0 <= i < selected@.len() ==> (#[trigger] selected@[i]).range.end.0 == (
                if ranges@[selected@[i].at as int].end.0 <= requested.end.0 {
                    ranges@[selected@[i].at as int].end.0
                } else {
                    requested.end.0
                }),
            forall|height: int| requested.start.0 <= height < next ==> covers(ranges@, height),
        decreases requested.end.0 - next,
    {
        proof {
            lemma_furthest(ranges@, next as int, ranges@.len() as int);
        }
        let at: usize = match find_furthest(ranges, next) {
            Some(at) => at,
            None => {
                return Err(
                    SourceError::MissingRange(
                        BlockRange { start: BlockNumber(next), end: requested.end },
                    ),
                );
            },
        };
        let end: u64 = if ranges[at].end.0 <= requested.end.0 {
            ranges[at].end.0
        } else {
            requested.end.0
        };
        let ghost before = selected@;
        selected.push(
            Selected { at, range: BlockRange { start: BlockNumber(next), end: BlockNumber(end) } },
        );
        proof {
            assert forall|height: int| requested.start.0 <= height <= end implies covers(
                ranges@,
                height,
            ) by {
                if height >= next {
                    assert(ranges@[at as int].has(height));
                }
            }
            assert forall|i: int| 0 < i < selected@.len() implies (
            #[trigger] selected@[i]).range.start.0 == selected@[i - 1].range.end.0 + 1 by {
                if i < before.len() {
                    assert(selected@[i] == before[i]);
                    assert(selected@[i - 1] == before[i - 1]);
                } else {
                    assert(selected@[i - 1] == before.last());
                }
            }
        }
        if end == requested.end.0 {
            proof {
                let parts = selected_ranges(selected@);
                assert forall|i: int| 0 <= i < parts.len() implies (#[trigger] parts[i]).wf() by {
                    assert(parts[i] == selected@[i].range);
                }
                assert forall|i: int| 0 < i < parts.len() implies (#[trigger] parts[i]).start.0
                    == parts[i - 1].end.0 + 1 by {
                    assert(parts[i] == selected@[i].range);
                    assert(parts[i - 1] == selected@[i - 1].range);
                }
                assert(parts.last() == selected@.last().range);
                assert(parts[0] == selected@[0].range);
            }
            return Ok(selected);
        }
        next = end + 1;
    }
}

/// A request whose every height some segment holds can be covered: the choice
/// never fails.
pub proof fn law_covered_requests_are_selected(
    requested: BlockRange,
    ranges: Seq<BlockRange>,
    height: u64,
)
    requires
        forall|h: int| requested.has(h) ==> #[trigger] covers(ranges, h),
    ensures
        !first_missing(requested, ranges, height),
{
}

} // verus!
