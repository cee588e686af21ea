//! Which frames a segment takes, and which segments a store admits.

use crate::history::catalog::{
    reserved_logical, reserved_physical, retained_logical, HistoryStore, SegmentReservation,
};
use crate::history::job::RawHistoryIndexPolicy;
use crate::history::layout::{closed_len, SegmentId};
use crate::history::pending::AdmissionUsage;
use crate::history::segment::{logical_total, FrameFacts, WriterView};
use crate::primitives::Finality;
use vstd::prelude::*;

verus! {

/// A segment takes a frame if and only if it has not failed before, the frame
/// is well shaped, final and of its chain, its number is the next one and in
/// the range, its parent is the block before it, it carries exactly the
/// segment's capabilities, and neither the frame nor the segment with it
/// exceeds a limit.
pub proof fn law_segments_take_the_next_frame(
    writer: WriterView,
    frame: FrameFacts,
    logical: Seq<u8>,
)
    requires
        writer.wf(),
    ensures
        writer.refusal(frame, logical) is None <==> {
            &&& !writer.failed
            &&& frame.shape_problem is None
            &&& frame.chain_id == writer.descriptor.chain_id
            &&& frame.finality == Finality::Finalized
            &&& frame.block.number.0 == writer.descriptor.range.start.0 + writer.entries.len()
            &&& frame.block.number.0 <= writer.descriptor.range.end.0
            &&& writer.entries.len() > 0 ==> frame.block.parent_hash
                == writer.entries[writer.entries.len() - 1].block_hash
            &&& frame.present == writer.descriptor.present_capabilities
            &&& frame.complete == writer.descriptor.complete_capabilities
            &&& logical.len() <= u32::MAX
            &&& logical.len() <= writer.limits.maximum_frame_logical_bytes
            &&& logical_total(writer.entries) + logical.len()
                <= writer.limits.maximum_segment_logical_bytes
            &&& writer.compression.stored(logical) matches Some(stored) && stored.len() <= u32::MAX
                && closed_len(
                (writer.entries.len() + 1) as int,
                (writer.payload.len() + stored.len()) as int,
            ) <= writer.limits.maximum_segment_physical_bytes
        },
{
}

/// A store that admits a segment has room for it: what is retained, what is
/// reserved and what the segment may take stay within the logical budget, and
/// what is on disk beside open files, what is reserved and what the segment
/// may take stay within the physical budget. Nothing is at the segment's path,
/// and log indexes are not asked for.
pub proof fn law_admitted_segments_have_room(
    store: HistoryStore,
    id: SegmentId,
    reservation: SegmentReservation,
    indexes: RawHistoryIndexPolicy,
    usage: AdmissionUsage,
    now: u64,
)
    requires
        store.admission_problem(id, reservation, indexes, usage, now) is None,
    ensures
        !indexes.logs,
        !usage.path_exists,
        0 < reservation.maximum_logical_bytes,
        0 < reservation.maximum_physical_bytes,
        retained_logical(store.segments@) + reserved_logical(store.reservations@)
            + reservation.maximum_logical_bytes <= store.budget.maximum_logical_bytes,
        usage.root_physical_bytes - usage.temporary_physical_bytes + reserved_physical(
            store.reservations@,
        ) + reservation.maximum_physical_bytes < store.budget.maximum_physical_bytes,
        reserved_physical(store.reservations@) + reservation.maximum_physical_bytes
            < store.budget.maximum_physical_bytes,
        reservation.maximum_logical_bytes <= i64::MAX,
        reservation.maximum_physical_bytes <= i64::MAX,
        now <= i64::MAX,
{
}

} // verus!
