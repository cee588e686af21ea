//! Segments that are being written: admission, publication and release.

use crate::frame::{BlockFrame, Material, TransactionEnvelope};
use crate::history::catalog::{
    first_reserved, reserved_logical, reserved_physical, retained_logical, HistoryStore,
    ReservedSegment, SegmentReservation, StoredSegment, CATALOG_RESERVATION_OVERHEAD_BYTES,
};
use crate::history::error::{CatalogProblem, HistoryStoreError, JobProblem};
use crate::history::job::{RawHistoryIndexPolicy, RawHistoryProfile};
use crate::history::layout::{
    entry_bytes, Compression, SegmentDescriptor, SegmentId, SegmentLimits,
};
use crate::history::ownership::lemma_first_reserved;
use crate::history::paths::final_name;
use crate::history::rows::{fits_column, u64_i64};
use crate::history::segment::{AppendedRecord, FrameFacts, SegmentWriter, WriterView};
use crate::primitives::{BlockHash, BlockNumber, TransactionHash, CAPABILITY_BITS};
use vstd::prelude::*;

verus! {

/// What of the disk decides whether a segment is admitted.
#[derive(Clone, Copy, Debug, PartialEq, Eq, Structural)]
pub struct AdmissionUsage {
    /// A file of the segment exists already.
    pub path_exists: bool,
    /// All bytes below the store's root.
    pub root_physical_bytes: u64,
    /// Bytes of files that reservations already stand for.
    pub temporary_physical_bytes: u64,
}

/// A reserved partial segment. Publication closes the file before its row is
/// recorded; recovery sets aside what a crash in between leaves.
pub struct PendingSegment {
    pub id: SegmentId,
    pub writer: SegmentWriter,
    pub final_name: String,
    pub reservation: SegmentReservation,
    pub profile: RawHistoryProfile,
    pub indexes: RawHistoryIndexPolicy,
    pub block_locators: Vec<(BlockHash, BlockNumber)>,
    pub transaction_locators: Vec<(TransactionHash, BlockNumber, u32)>,
}

/// The locator of every transaction of a block.
pub open spec fn transaction_rows(
    transactions: Seq<TransactionEnvelope>,
    number: BlockNumber,
) -> Seq<(TransactionHash, BlockNumber, u32)> {
    transactions.map_values(
        |transaction: TransactionEnvelope| (transaction.hash, number, transaction.index),
    )
}

pub proof fn lemma_retained_prefix(segments: Seq<StoredSegment>, count: int)
    requires
        0 <= count <= segments.len(),
    ensures
        0 <= retained_logical(segments.take(count)) <= retained_logical(segments),
    decreases segments.len(),
{
    if count < segments.len() {
        lemma_retained_prefix(segments.drop_last(), count);
        assert(segments.drop_last().take(count) =~= segments.take(count));
    } else {
        assert(segments.take(count) =~= segments);
        if segments.len() > 0 {
            lemma_retained_prefix(segments.drop_last(), count - 1);
        }
    }
}

pub proof fn lemma_reserved_prefix(reservations: Seq<ReservedSegment>, count: int)
    requires
        0 <= count <= reservations.len(),
    ensures
        0 <= reserved_logical(reservations.take(count)) <= reserved_logical(reservations),
        0 <= reserved_physical(reservations.take(count)) <= reserved_physical(reservations),
    decreases reservations.len(),
{
    if count < reservations.len() {
        lemma_reserved_prefix(reservations.drop_last(), count);
        assert(reservations.drop_last().take(count) =~= reservations.take(count));
    } else {
        assert(reservations.take(count) =~= reservations);
        if reservations.len() > 0 {
            lemma_reserved_prefix(reservations.drop_last(), count - 1);
        }
    }
}

pub proof fn lemma_reserved_remove(reservations: Seq<ReservedSegment>, at: int)
    requires
        0 <= at < reservations.len(),
    ensures
        reserved_logical(reservations.remove(at)) == reserved_logical(reservations)
            - reservations[at].reservation.maximum_logical_bytes,
        reserved_physical(reservations.remove(at)) == reserved_physical(reservations)
            - reservations[at].reservation.maximum_physical_bytes,
    decreases reservations.len(),
{
    let shorter = reservations.remove(at);
    if at == reservations.len() - 1 {
        assert(shorter =~= reservations.drop_last());
    } else {
        assert(shorter.drop_last() =~= reservations.drop_last().remove(at));
        assert(shorter.last() == reservations.last());
        lemma_reserved_remove(reservations.drop_last(), at);
    }
}

/// Bytes that the catalog has granted.
pub struct Capacity {
    pub retained_logical: u64,
    pub reserved_logical: u64,
    pub reserved_physical: u64,
}

impl HistoryStore {
    /// Sums what is retained and what is reserved.
    pub fn catalog_capacity(&self) -> (capacity: Capacity)
        requires
            self.wf(),
        ensures
            capacity.retained_logical == retained_logical(self.segments@),
            capacity.reserved_logical == reserved_logical(self.reservations@),
            capacity.reserved_physical == reserved_physical(self.reservations@),
    {
        proof {
            lemma_reserved_prefix(self.reservations@, 0);
            lemma_retained_prefix(self.segments@, 0);
            assert(self.segments@.take(0) =~= Seq::<StoredSegment>::empty());
            assert(self.reservations@.take(0) =~= Seq::<ReservedSegment>::empty());
        }
        let mut retained: u64 = 0;
        let mut index: usize = 0;
        while index < self.segments.len()
            invariant
                index <= self.segments@.len(),
                retained_logical(self.segments@) <= u64::MAX,
                retained == retained_logical(self.segments@.take(index as int)),
            decreases self.segments@.len() - index,
        {
            proof {
                let longer = self.segments@.take(index + 1);
                assert(longer.drop_last() =~= self.segments@.take(index as int));
                assert(longer.last() == self.segments@[index as int]);
                lemma_retained_prefix(self.segments@, index + 1);
            }
            retained = retained + self.segments[index].record.metadata.logical_bytes;
            index += 1;
        }
        assert(self.segments@.take(index as int) =~= self.segments@);
        let mut logical: u64 = 0;
        let mut physical: u64 = 0;
        index = 0;
        while index < self.reservations.len()
            invariant
                index <= self.reservations@.len(),
                reserved_logical(self.reservations@) <= u64::MAX,
                reserved_physical(self.reservations@) <= u64::MAX,
                logical == reserved_logical(self.reservations@.take(index as int)),
                physical == reserved_physical(self.reservations@.take(index as int)),
            decreases self.reservations@.len() - index,
        {
            proof {
                let longer = self.reservations@.take(index + 1);
                assert(longer.drop_last() =~= self.reservations@.take(index as int));
                assert(longer.last() == self.reservations@[index as int]);
                lemma_reserved_prefix(self.reservations@, index + 1);
            }
            logical = logical + self.reservations[index].reservation.maximum_logical_bytes;
            physical = physical + self.reservations[index].reservation.maximum_physical_bytes;
            index += 1;
        }
        assert(self.reservations@.take(index as int) =~= self.reservations@);
        Capacity {
            retained_logical: retained,
            reserved_logical: logical,
            reserved_physical: physical,
        }
    }

    /// Logical bytes once the segment is admitted.
    pub open spec fn projected_logical(self, reservation: SegmentReservation) -> int {
        retained_logical(self.segments@) + reserved_logical(self.reservations@)
            + reservation.maximum_logical_bytes
    }

    /// Physical bytes once the segment is admitted: what is on disk beside
    /// the files that reservations stand for, and all reservations in full.
    pub open spec fn projected_physical(
        self,
        reservation: SegmentReservation,
        usage: AdmissionUsage,
    ) -> int {
        let settled = if usage.root_physical_bytes >= usage.temporary_physical_bytes {
            usage.root_physical_bytes - usage.temporary_physical_bytes
        } else {
            0
        };
        settled + reserved_physical(self.reservations@) + reservation.maximum_physical_bytes
            + CATALOG_RESERVATION_OVERHEAD_BYTES
    }

    /// The first reason not to admit a segment.
    pub open spec fn admission_problem(
        self,
        id: SegmentId,
        reservation: SegmentReservation,
        indexes: RawHistoryIndexPolicy,
        usage: AdmissionUsage,
        now: u64,
    ) -> Option<HistoryStoreError> {
        if indexes.logs {
            Some(
                HistoryStoreError::InvalidJob(
                    JobProblem::Text("raw log indexes are not implemented"),
                ),
            )
        } else if !self.reservation_ok(reservation) {
            Some(HistoryStoreError::InvalidReservation)
        } else if usage.path_exists {
            Some(HistoryStoreError::PathCollision(id))
        } else if self.projected_logical(reservation) > u64::MAX || self.projected_physical(
            reservation,
            usage,
        ) > u64::MAX {
            Some(HistoryStoreError::ArithmeticOverflow)
        } else if self.projected_logical(reservation) > self.budget.maximum_logical_bytes {
            Some(
                HistoryStoreError::LogicalBudget {
                    limit: self.budget.maximum_logical_bytes,
                    observed: self.projected_logical(reservation) as u64,
                },
            )
        } else if self.projected_physical(reservation, usage)
            > self.budget.maximum_physical_bytes {
            Some(
                HistoryStoreError::PhysicalBudget {
                    limit: self.budget.maximum_physical_bytes,
                    observed: self.projected_physical(reservation, usage) as u64,
                },
            )
        } else if !fits_column(reservation.maximum_logical_bytes) {
            Some(HistoryStoreError::NumericRange("reserved logical bytes"))
        } else if !fits_column(reservation.maximum_physical_bytes) {
            Some(HistoryStoreError::NumericRange("reserved physical bytes"))
        } else if !fits_column(now) {
            Some(HistoryStoreError::NumericRange("reservation creation time"))
        } else if first_reserved(self.reservations@, id@, 0) is Some {
            Some(HistoryStoreError::Duplicate("raw_segment_reservations.segment_id"))
        } else {
            None
        }
    }

    /// The limits of a segment's writer.
    pub open spec fn writer_limits(self, reservation: SegmentReservation) -> SegmentLimits {
        SegmentLimits {
            maximum_frame_logical_bytes: if self.budget.maximum_frame_logical_bytes
                <= reservation.maximum_logical_bytes {
                self.budget.maximum_frame_logical_bytes
            } else {
                reservation.maximum_logical_bytes
            },
            maximum_segment_logical_bytes: reservation.maximum_logical_bytes,
            maximum_segment_physical_bytes: reservation.maximum_physical_bytes,
        }
    }

    /// All tables but the reservations hold the same rows.
    pub open spec fn same_but_reservations(self, other: HistoryStore) -> bool {
        &&& self.budget == other.budget
        &&& self.segments@ == other.segments@
        &&& self.owners@ == other.owners@
        &&& self.block_locators@ == other.block_locators@
        &&& self.transaction_locators@ == other.transaction_locators@
        &&& self.jobs@ == other.jobs@
    }

    /// Reserves store-wide capacity and starts a partial segment, certified
    /// for a profile and with the chosen locators.
    pub fn begin_segment_profiled(
        &mut self,
        id: SegmentId,
        descriptor: SegmentDescriptor,
        compression: Compression,
        reservation: SegmentReservation,
        profile: RawHistoryProfile,
        indexes: RawHistoryIndexPolicy,
        usage: AdmissionUsage,
        now: u64,
    ) -> (outcome: Result<PendingSegment, HistoryStoreError>)
        requires
            old(self).wf(),
            descriptor.range.wf(),
            descriptor.present_capabilities.bits & !CAPABILITY_BITS == 0,
            descriptor.complete_capabilities.bits & !CAPABILITY_BITS == 0,
        ensures
            final(self).wf(),
            final(self).same_but_reservations(*old(self)),
            match outcome {
                Ok(pending) => {
                    &&& old(self).admission_problem(id, reservation, indexes, usage, now) is None
                    &&& descriptor.problem() is None
                    &&& pending.starts(id@, descriptor, compression, reservation, profile, indexes)
                    &&& pending.writer@.limits == old(self).writer_limits(reservation)
                    &&& final(self).reservations@ == old(self).reservations@.push(
                        ReservedSegment { id, reservation },
                    )
                },
                Err(error) => {
                    &&& final(self).reservations@ == old(self).reservations@
                    &&& match old(self).admission_problem(id, reservation, indexes, usage, now) {
                        Some(problem) => error == problem,
                        None => match descriptor.problem() {
                            Some(problem) => error == HistoryStoreError::Segment(problem),
                            None => false,
                        },
                    }
                },
            },
    {
        if indexes.logs {
            return Err(
                HistoryStoreError::InvalidJob(
                    JobProblem::Text("raw log indexes are not implemented"),
                ),
            );
        }
        self.validate_reservation(reservation)?;
        if usage.path_exists {
            return Err(HistoryStoreError::PathCollision(id));
        }
        let capacity: Capacity = self.catalog_capacity();
        let granted: u64 = capacity.retained_logical + capacity.reserved_logical;
        let projected_logical: u64 = match granted.checked_add(reservation.maximum_logical_bytes) {
            Some(total) => total,
            None => {
                return Err(HistoryStoreError::ArithmeticOverflow);
            },
        };
        let settled: u64 = if usage.root_physical_bytes >= usage.temporary_physical_bytes {
            usage.root_physical_bytes - usage.temporary_physical_bytes
        } else {
            0
        };
        let reserved: u64 = match settled.checked_add(capacity.reserved_physical) {
            Some(total) => total,
            None => {
                return Err(HistoryStoreError::ArithmeticOverflow);
            },
        };
        let requested: u64 = match reserved.checked_add(reservation.maximum_physical_bytes) {
            Some(total) => total,
            None => {
                return Err(HistoryStoreError::ArithmeticOverflow);
            },
        };
        let projected_physical: u64 = match requested.checked_add(
            CATALOG_RESERVATION_OVERHEAD_BYTES,
        ) {
            Some(total) => total,
            None => {
                return Err(HistoryStoreError::ArithmeticOverflow);
            },
        };
        if projected_logical > self.budget.maximum_logical_bytes {
            return Err(
                HistoryStoreError::LogicalBudget {
                    limit: self.budget.maximum_logical_bytes,
                    observed: projected_logical,
                },
            );
        }
        if projected_physical > self.budget.maximum_physical_bytes {
            return Err(
                HistoryStoreError::PhysicalBudget {
                    limit: self.budget.maximum_physical_bytes,
                    observed: projected_physical,
                },
            );
        }
        u64_i64(reservation.maximum_logical_bytes, "reserved logical bytes")?;
        u64_i64(reservation.maximum_physical_bytes, "reserved physical bytes")?;
        u64_i64(now, "reservation creation time")?;
        if self.find_reserved(&id).is_some() {
            return Err(HistoryStoreError::Duplicate("raw_segment_reservations.segment_id"));
        }
        let limits = SegmentLimits {
            maximum_frame_logical_bytes: if self.budget.maximum_frame_logical_bytes
                <= reservation.maximum_logical_bytes {
                self.budget.maximum_frame_logical_bytes
            } else {
                reservation.maximum_logical_bytes
            },
            maximum_segment_logical_bytes: reservation.maximum_logical_bytes,
            maximum_segment_physical_bytes: reservation.maximum_physical_bytes,
        };
        let writer: SegmentWriter = match SegmentWriter::create(
            id.clone(),
            descriptor,
            compression,
            limits,
        ) {
            Ok(writer) => writer,
            Err(error) => {
                return Err(HistoryStoreError::Segment(error));
            },
        };
        let ghost before = *self;
        self.reservations.push(ReservedSegment { id: id.clone(), reservation });
        proof {
            assert(self.reservations@.drop_last() =~= before.reservations@);
            lemma_first_reserved(before.reservations@, id@, 0);
            lemma_reserved_prefix(before.reservations@, 0);
            lemma_retained_prefix(before.segments@, 0);
        }
        let name: String = final_name(id.as_str());
        Ok(
            PendingSegment {
                id,
                writer,
                final_name: name,
                reservation,
                profile,
                indexes,
                block_locators: Vec::new(),
                transaction_locators: Vec::new(),
            },
        )
    }

    /// Reserves capacity and starts a segment for processor reuse, without
    /// locators.
    pub fn begin_segment(
        &mut self,
        id: SegmentId,
        descriptor: SegmentDescriptor,
        compression: Compression,
        reservation: SegmentReservation,
        usage: AdmissionUsage,
        now: u64,
    ) -> (outcome: Result<PendingSegment, HistoryStoreError>)
        requires
            old(self).wf(),
            descriptor.range.wf(),
            descriptor.present_capabilities.bits & !CAPABILITY_BITS == 0,
            descriptor.complete_capabilities.bits & !CAPABILITY_BITS == 0,
        ensures
            final(self).wf(),
            final(self).same_but_reservations(*old(self)),
            ({
                let none = RawHistoryIndexPolicy {
                    block_hash: false,
                    transaction_hash: false,
                    logs: false,
                };
                match outcome {
                    Ok(pending) => {
                        &&& old(self).admission_problem(id, reservation, none, usage, now) is None
                        &&& descriptor.problem() is None
                        &&& pending.starts(
                            id@,
                            descriptor,
                            compression,
                            reservation,
                            RawHistoryProfile::ProcessorReuse,
                            none,
                        )
                        &&& pending.writer@.limits == old(self).writer_limits(reservation)
                        &&& final(self).reservations@ == old(self).reservations@.push(
                            ReservedSegment { id, reservation },
                        )
                    },
                    Err(error) => {
                        &&& final(self).reservations@ == old(self).reservations@
                        &&& match old(self).admission_problem(id, reservation, none, usage, now) {
                            Some(problem) => error == problem,
                            None => match descriptor.problem() {
                                Some(problem) => error == HistoryStoreError::Segment(problem),
                                None => false,
                            },
                        }
                    },
                }
            }),
    {
        self.begin_segment_indexed(
            id,
            descriptor,
            compression,
            reservation,
            RawHistoryIndexPolicy::default(),
            usage,
            now,
        )
    }

    /// Reserves capacity and starts a segment for processor reuse, whose
    /// locators are published together with it.
    pub fn begin_segment_indexed(
        &mut self,
        id: SegmentId,
        descriptor: SegmentDescriptor,
        compression: Compression,
        reservation: SegmentReservation,
        indexes: RawHistoryIndexPolicy,
        usage: AdmissionUsage,
        now: u64,
    ) -> (outcome: Result<PendingSegment, HistoryStoreError>)
        requires
            old(self).wf(),
            descriptor.range.wf(),
            descriptor.present_capabilities.bits & !CAPABILITY_BITS == 0,
            descriptor.complete_capabilities.bits & !CAPABILITY_BITS == 0,
        ensures
            final(self).wf(),
            final(self).same_but_reservations(*old(self)),
            match outcome {
                Ok(pending) => {
                    &&& old(self).admission_problem(id, reservation, indexes, usage, now) is None
                    &&& descriptor.problem() is None
                    &&& pending.starts(
                        id@,
                        descriptor,
                        compression,
                        reservation,
                        RawHistoryProfile::ProcessorReuse,
                        indexes,
                    )
                    &&& pending.writer@.limits == old(self).writer_limits(reservation)
                    &&& final(self).reservations@ == old(self).reservations@.push(
                        ReservedSegment { id, reservation },
                    )
                },
                Err(error) => {
                    &&& final(self).reservations@ == old(self).reservations@
                    &&& match old(self).admission_problem(id, reservation, indexes, usage, now) {
                        Some(problem) => error == problem,
                        None => match descriptor.problem() {
                            Some(problem) => error == HistoryStoreError::Segment(problem),
                            None => false,
                        },
                    }
                },
            },
    {
        self.begin_segment_profiled(
            id,
            descriptor,
            compression,
            reservation,
            RawHistoryProfile::ProcessorReuse,
            indexes,
            usage,
            now,
        )
    }

    /// Gives back the capacity of a segment that will not be published.
    pub fn release_reservation(&mut self, id: &SegmentId) -> (released: bool)
        requires
            old(self).wf(),
        ensures
            final(self).wf(),
            final(self).same_but_reservations(*old(self)),
            match first_reserved(old(self).reservations@, id@, 0) {
                Some(at) => released && final(self).reservations@ == old(
                    self,
                ).reservations@.remove(at),
                None => !released && final(self).reservations@ == old(self).reservations@,
            },
    {
        match self.find_reserved(id) {
            Some(at) => {
                let ghost before = *self;
                self.reservations.remove(at);
                proof {
                    lemma_reserved_remove(before.reservations@, at as int);
                    lemma_distinct_remove(before.reservations@, at as int);
                }
                true
            },
            None => false,
        }
    }
}

/// No segment has two reservations.
pub open spec fn distinct_reservations(reservations: Seq<ReservedSegment>) -> bool {
    forall|i: int, j: int|
        #![trigger reservations[i], reservations[j]]
        0 <= i < j < reservations.len() ==> reservations[i].id@ != reservations[j].id@
}

pub proof fn lemma_distinct_remove(reservations: Seq<ReservedSegment>, at: int)
    requires
        distinct_reservations(reservations),
        0 <= at < reservations.len(),
    ensures
        distinct_reservations(reservations.remove(at)),
{
    let kept = reservations.remove(at);
    assert forall|i: int, j: int|
        #![trigger kept[i], kept[j]]
        0 <= i < j < kept.len() implies kept[i].id@ != kept[j].id@ by {
        let a = if i < at {
            i
        } else {
            i + 1
        };
        let b = if j < at {
            j
        } else {
            j + 1
        };
        assert(kept[i] == reservations[a] && kept[j] == reservations[b]);
    }
}

/// Releasing a reservation undoes admitting its segment: the reservations are
/// those from before.
pub proof fn law_release_undoes_admission(
    before: HistoryStore,
    admitted: HistoryStore,
    released: HistoryStore,
    row: ReservedSegment,
)
    requires
        first_reserved(before.reservations@, row.id@, 0) is None,
        admitted.reservations@ == before.reservations@.push(row),
        released.reservations@ == (match first_reserved(admitted.reservations@, row.id@, 0) {
            Some(at) => admitted.reservations@.remove(at),
            None => admitted.reservations@,
        }),
    ensures
        released.reservations@ == before.reservations@,
{
    lemma_first_reserved(before.reservations@, row.id@, 0);
    lemma_first_reserved(admitted.reservations@, row.id@, 0);
    let last = before.reservations@.len() as int;
    assert(admitted.reservations@[last] == row);
    assert forall|i: int| 0 <= i < last implies (#[trigger] admitted.reservations@[i]).id@
        != row.id@ by {
        assert(admitted.reservations@[i] == before.reservations@[i]);
    }
    assert(admitted.reservations@.remove(last) =~= before.reservations@);
}

impl PendingSegment {
    /// The writer is sound and writes under the segment's own name within
    /// what was reserved for it.
    pub open spec fn inv(&self) -> bool {
        &&& self.writer.inv()
        &&& self.writer@.id == self.id@
        &&& self.writer@.limits.maximum_segment_logical_bytes
            == self.reservation.maximum_logical_bytes
        &&& self.writer@.limits.maximum_segment_physical_bytes
            == self.reservation.maximum_physical_bytes
        &&& self.final_name@ == self.id@ + ".idxraw"@
        &&& !self.indexes.logs
    }

    /// A segment that nothing has been written to.
    pub open spec fn starts(
        &self,
        id: Seq<char>,
        descriptor: SegmentDescriptor,
        compression: Compression,
        reservation: SegmentReservation,
        profile: RawHistoryProfile,
        indexes: RawHistoryIndexPolicy,
    ) -> bool {
        &&& self.inv()
        &&& self.id@ == id
        &&& self.writer@ == (WriterView {
            id,
            descriptor,
            compression,
            limits: self.writer@.limits,
            entries: Seq::empty(),
            payload: Seq::empty(),
            records: Seq::empty(),
            failed: false,
        })
        &&& self.reservation == reservation
        &&& self.profile == profile
        &&& self.indexes == indexes
        &&& self.block_locators@.len() == 0
        &&& self.transaction_locators@.len() == 0
    }

    /// The block locators after a frame.
    pub open spec fn block_locators_after(self, frame: BlockFrame) -> Seq<
        (BlockHash, BlockNumber),
    > {
        if self.indexes.block_hash {
            self.block_locators@.push((frame.block.hash, frame.block.number))
        } else {
            self.block_locators@
        }
    }

    /// The transaction locators after a frame.
    pub open spec fn transaction_locators_after(self, frame: BlockFrame) -> Seq<
        (TransactionHash, BlockNumber, u32),
    > {
        if self.indexes.transaction_hash {
            self.transaction_locators@ + transaction_rows(
                frame.transactions->Complete_0@,
                frame.block.number,
            )
        } else {
            self.transaction_locators@
        }
    }

    /// Everything but the writer and the locators is as it was.
    pub open spec fn same_identity(self, other: PendingSegment) -> bool {
        &&& self.id == other.id
        &&& self.final_name == other.final_name
        &&& self.reservation == other.reservation
        &&& self.profile == other.profile
        &&& self.indexes == other.indexes
    }

    /// What appending a frame answers, and makes of the segment.
    pub open spec fn append_answers(
        self,
        after: PendingSegment,
        frame: BlockFrame,
        shape_problem: Option<&'static str>,
        logical: Seq<u8>,
        outcome: Result<AppendedRecord, HistoryStoreError>,
    ) -> bool {
        &&& after.same_identity(self)
        &&& if self.indexes.transaction_hash && !(frame.transactions is Complete) {
            &&& outcome == Err::<AppendedRecord, HistoryStoreError>(
                HistoryStoreError::CatalogIntegrity(
                    CatalogProblem::Text(
                        "transaction locators require complete transaction material",
                    ),
                ),
            )
            &&& after == self
        } else {
            let facts = frame.spec_facts(shape_problem);
            match (outcome, self.writer@.refusal(facts, logical)) {
                (Ok(record), None) => {
                    &&& self.writer@.compression.stored(logical) == Some(record.stored@)
                    &&& record.entry@ == entry_bytes(
                        self.writer@.next_entry(facts, logical, record.stored@),
                    )
                    &&& after.writer@ == self.writer@.after(facts, logical, record.stored@)
                    &&& after.block_locators@ == self.block_locators_after(frame)
                    &&& after.transaction_locators@ == self.transaction_locators_after(frame)
                },
                (Err(error), Some(refusal)) => {
                    &&& error == HistoryStoreError::Segment(refusal.error)
                    &&& after.writer@ == (WriterView {
                        failed: self.writer@.failed || refusal.poisons,
                        ..self.writer@
                    })
                    &&& after.block_locators@ == self.block_locators@
                    &&& after.transaction_locators@ == self.transaction_locators@
                },
                _ => false,
            }
        }
    }

    /// Appends one validated finalized frame, given with its encoding, and
    /// notes its locators.
    pub fn append(
        &mut self,
        frame: &BlockFrame,
        shape_problem: Option<&'static str>,
        logical: &[u8],
    ) -> (outcome: Result<AppendedRecord, HistoryStoreError>)
        requires
            old(self).inv(),
        ensures
            final(self).inv(),
            old(self).append_answers(*final(self), *frame, shape_problem, logical@, outcome),
    {
        if self.indexes.transaction_hash && !frame.transactions.is_complete() {
            return Err(
                HistoryStoreError::CatalogIntegrity(
                    CatalogProblem::Text(
                        "transaction locators require complete transaction material",
                    ),
                ),
            );
        }
        let facts: FrameFacts = frame.facts(shape_problem);
        let record: AppendedRecord = match self.writer.append(&facts, logical) {
            Ok(record) => record,
            Err(error) => {
                return Err(HistoryStoreError::Segment(error));
            },
        };
        if self.indexes.block_hash {
            self.block_locators.push((frame.block.hash, frame.block.number));
        }
        if self.indexes.transaction_hash {
            if let Material::Complete(transactions) = &frame.transactions {
                let ghost before = self.transaction_locators@;
                let mut index: usize = 0;
                proof {
                    assert(transaction_rows(transactions@.take(0), frame.block.number)
                        =~= Seq::<(TransactionHash, BlockNumber, u32)>::empty());
                    assert(self.transaction_locators@ =~= before + transaction_rows(
                        transactions@.take(0),
                        frame.block.number,
                    ));
                }
                let ghost held = *self;
                while index < transactions.len()
                    invariant
                        index <= transactions@.len(),
                        self.inv(),
                        self.same_identity(held),
                        self.writer@ == held.writer@,
                        self.block_locators@ == held.block_locators@,
                        self.transaction_locators@ == before + transaction_rows(
                            transactions@.take(index as int),
                            frame.block.number,
                        ),
                    decreases transactions@.len() - index,
                {
                    let transaction: &TransactionEnvelope = &transactions[index];
                    self.transaction_locators.push(
                        (transaction.hash, frame.block.number, transaction.index),
                    );
                    index += 1;
                    proof {
                        assert(self.transaction_locators@ =~= before + transaction_rows(
                            transactions@.take(index as int),
                            frame.block.number,
                        ));
                    }
                }
                assert(transactions@.take(index as int) =~= transactions@);
            }
        }
        Ok(record)
    }
}

} // verus!
