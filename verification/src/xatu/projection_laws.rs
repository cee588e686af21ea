//! What holds of the frames that a projection makes.

use crate::frame::{BlockFrame, Log, TransactionEnvelope};
use crate::frame_view::{views, FrameView};
use crate::primitives::BlockNumber;
use crate::stable::{group_of, law_sorting_orders, without_group};
use crate::xatu::error::XatuError;
use crate::xatu::generic::GenericTables;
use crate::xatu::normalize::BlobsTables;
use crate::xatu::projection::transactions_held;
use crate::xatu::rows::BeaconTransactionRow;
use vstd::prelude::*;

verus! {

/// The frames are those of consecutive blocks from `start` on.
pub open spec fn consecutive(frames: Seq<FrameView>, start: int) -> bool {
    forall|i: int| 0 <= i < frames.len() ==> (#[trigger] frames[i]).block.number.0 == start + i
}

proof fn lemma_groups_part<T>(rows: Seq<(u64, T)>, group: u64)
    ensures
        group_of(rows, group).len() + without_group(rows, group).len() == rows.len(),
    decreases rows.len(),
{
    if rows.len() > 0 {
        lemma_groups_part(rows.drop_last(), group);
    }
}

proof fn lemma_frames_from(
    tables: BlobsTables,
    number: int,
    left: Seq<(u64, BeaconTransactionRow)>,
    made: Seq<FrameView>,
)
    requires
        tables.range.start.0 <= number <= tables.range.end.0 + 1,
        made.len() == number - tables.range.start.0,
        consecutive(made, tables.range.start.0 as int),
        tables.frames_from(number, left, made).2 is None,
    ensures
        ({
            let (frames, rest, problem) = tables.frames_from(number, left, made);
            &&& frames.len() == tables.range.end.0 + 1 - tables.range.start.0
            &&& consecutive(frames, tables.range.start.0 as int)
            &&& transactions_held(frames) + rest.len() == transactions_held(made) + left.len()
        }),
    decreases tables.range.end.0 + 1 - number,
{
    if number <= tables.range.end.0 {
        let slot = tables.beacon(number as u64).slot;
        let frame = tables.frame_at(number as u64, left);
        let longer = made.push(frame);
        assert(longer.drop_last() =~= made);
        assert(longer.last() == frame);
        lemma_groups_part(left, slot);
        law_sorting_orders(group_of(left, slot));
        assert forall|i: int| 0 <= i < longer.len() implies (
        #[trigger] longer[i]).block.number.0 == tables.range.start.0 + i by {
            if i < made.len() {
                assert(longer[i] == made[i]);
            }
        }
        lemma_frames_from(tables, number + 1, without_group(left, slot), longer);
    }
}

/// Tables that join make one frame for every block of the range, in ascending
/// order, and every blob transaction is in one of them.
pub proof fn law_joined_frames_cover_the_range(
    tables: BlobsTables,
    blobs: Seq<(u64, BeaconTransactionRow)>,
    frames: Vec<BlockFrame>,
)
    requires
        tables.range.wf(),
        tables.is_joined(blobs, Ok::<Vec<BlockFrame>, XatuError>(frames)),
    ensures
        frames@.len() == tables.range.end.0 + 1 - tables.range.start.0,
        forall|i: int|
            0 <= i < frames@.len() ==> (#[trigger] frames@[i]).block.number == BlockNumber(
                (tables.range.start.0 + i) as u64,
            ),
        transactions_held(views(frames@)) == blobs.len(),
{
    let made = Seq::<FrameView>::empty();
    lemma_frames_from(tables, tables.range.start.0 as int, blobs, made);
    let all = views(frames@);
    assert forall|i: int| 0 <= i < frames@.len() implies (#[trigger] frames@[i]).block.number
        == BlockNumber((tables.range.start.0 + i) as u64) by {
        assert(all[i] == frames@[i]@);
        assert(all[i].block.number.0 == tables.range.start.0 + i);
    }
}

/// Tables that join in general make one frame for every block of the range, in
/// ascending order.
pub proof fn law_generic_frames_cover_the_range(
    tables: GenericTables,
    transactions: Seq<(u64, TransactionEnvelope)>,
    logs: Seq<(u64, Log)>,
    frames: Vec<BlockFrame>,
)
    requires
        tables.range.wf(),
        tables.is_joined(transactions, logs, Ok::<Vec<BlockFrame>, XatuError>(frames)),
    ensures
        frames@.len() == tables.range.end.0 + 1 - tables.range.start.0,
        forall|i: int|
            0 <= i < frames@.len() ==> (#[trigger] frames@[i]).block.number == BlockNumber(
                (tables.range.start.0 + i) as u64,
            ),
{
    let all = views(frames@);
    let made = tables.all_frames(transactions, logs);
    assert(all == made);
    assert(made.len() == tables.range.end.0 - tables.range.start.0 + 1);
    assert forall|i: int| 0 <= i < frames@.len() implies (#[trigger] frames@[i]).block.number
        == BlockNumber((tables.range.start.0 + i) as u64) by {
        assert(all[i] == frames@[i]@);
        assert(made[i] == tables.frame_at((tables.range.start.0 + i) as u64, transactions, logs));
    }
}

} // verus!
