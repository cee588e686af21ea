//! Taking and releasing holds on segments, and deleting what nobody holds.

use crate::history::catalog::{
    first_closed, first_job, first_segment, is_owner_id, owned_by, owner_count, retained_logical,
    validate_owner_id, BlockLocatorRow, HistoryStore, SegmentOwner, SegmentOwnerClaim,
    StoredSegment, TransactionLocatorRow,
};
use crate::history::error::{CatalogProblem, HistoryStoreError, JobProblem};
use crate::history::layout::SegmentId;
use crate::history::lifecycle::{job_progress, progress_problem, OwnedSegment};
use crate::history::locators::{lemma_lead_into, lemma_locators_of_others};
use crate::history::ownership::{all_owned, job_advanced, lemma_first_segment};
use crate::history::paths::{is_segment_path, resolve_relative_path};
use crate::history::rows::{fits_column, u64_i64, SegmentOwnerKind};
use crate::text::same_text;
use vstd::prelude::*;

verus! {

/// A row that belongs to a segment and is deleted with it.
pub trait OfSegment: Sized {
    spec fn segment(&self) -> Seq<char>;

    fn is_of(&self, id: &SegmentId) -> (belongs: bool)
        ensures
            belongs == (self.segment() == id@),
    ;
}

impl OfSegment for SegmentOwner {
    open spec fn segment(&self) -> Seq<char> {
        self.segment_id@
    }

    fn is_of(&self, id: &SegmentId) -> (belongs: bool) {
        self.segment_id.same(id)
    }
}

impl OfSegment for BlockLocatorRow {
    open spec fn segment(&self) -> Seq<char> {
        self.locator.segment_id@
    }

    fn is_of(&self, id: &SegmentId) -> (belongs: bool) {
        self.locator.segment_id.same(id)
    }
}

impl OfSegment for TransactionLocatorRow {
    open spec fn segment(&self) -> Seq<char> {
        self.locator.segment_id@
    }

    fn is_of(&self, id: &SegmentId) -> (belongs: bool) {
        self.locator.segment_id.same(id)
    }
}

/// The rows of other segments, in their order.
pub open spec fn rows_of_others<T: OfSegment>(rows: Seq<T>, id: Seq<char>) -> Seq<T>
    decreases rows.len(),
{
    if rows.len() == 0 {
        Seq::empty()
    } else {
        let before = rows_of_others(rows.drop_last(), id);
        if rows.last().segment() == id {
            before
        } else {
            before.push(rows.last())
        }
    }
}

/// Deleting the rows of a segment leaves exactly the rows of other segments.
pub proof fn law_deletion_leaves_other_rows<T: OfSegment>(rows: Seq<T>, id: Seq<char>)
    ensures
        forall|i: int|
            0 <= i < rows_of_others(rows, id).len() ==> (#[trigger] rows_of_others(
                rows,
                id,
            )[i]).segment() != id && rows.contains(rows_of_others(rows, id)[i]),
        forall|i: int|
            0 <= i < rows.len() && (#[trigger] rows[i]).segment() != id ==> rows_of_others(
                rows,
                id,
            ).contains(rows[i]),
    decreases rows.len(),
{
    if rows.len() > 0 {
        let shorter = rows.drop_last();
        let before = rows_of_others(shorter, id);
        let left = rows_of_others(rows, id);
        law_deletion_leaves_other_rows(shorter, id);
        assert forall|i: int| 0 <= i < left.len() implies (#[trigger] left[i]).segment() != id
            && rows.contains(left[i]) by {
            if i < before.len() {
                assert(left[i] == before[i]);
                assert(shorter.contains(before[i]));
                let j = choose|j: int| 0 <= j < shorter.len() && shorter[j] == before[i];
                assert(rows[j] == left[i]);
            } else {
                assert(rows[rows.len() - 1] == left[i]);
            }
        }
        assert forall|i: int| 0 <= i < rows.len() && (#[trigger] rows[i]).segment()
            != id implies left.contains(rows[i]) by {
            if i < shorter.len() {
                assert(shorter[i] == rows[i]);
                assert(before.contains(rows[i]));
                let j = choose|j: int| 0 <= j < before.len() && before[j] == rows[i];
                assert(left[j] == rows[i]);
            } else {
                assert(left[left.len() - 1] == rows[i]);
            }
        }
    }
}

/// Deletes the rows of one segment.
pub fn remove_rows<T: OfSegment>(rows: &mut Vec<T>, id: &SegmentId)
    ensures
        final(rows)@ == rows_of_others(old(rows)@, id@),
{
    let ghost all = rows@;
    let ghost mut seen: int = 0;
    let mut index: usize = 0;
    proof {
        assert(all.take(0) =~= Seq::<T>::empty());
        assert(rows@.take(0) =~= Seq::<T>::empty());
        assert(rows@.skip(0) =~= all.skip(0));
    }
    while index < rows.len()
        invariant
            0 <= index <= rows@.len(),
            0 <= seen <= all.len(),
            rows@.take(index as int) == rows_of_others(all.take(seen), id@),
            rows@.skip(index as int) == all.skip(seen),
        decreases rows@.len() - index,
    {
        let ghost before = rows@;
        proof {
            assert(before.skip(index as int).len() == all.skip(seen).len());
            assert(before.skip(index as int)[0] == all.skip(seen)[0]);
            assert(before[index as int] == all[seen]);
            assert(all.take(seen + 1).drop_last() =~= all.take(seen));
            assert(all.take(seen + 1).last() == all[seen]);
        }
        if rows[index].is_of(id) {
            rows.remove(index);
            proof {
                assert(rows@.take(index as int) =~= before.take(index as int));
                assert(rows@.skip(index as int) =~= before.skip(index as int).skip(1));
                assert(all.skip(seen).skip(1) =~= all.skip(seen + 1));
            }
        } else {
            index += 1;
            proof {
                assert(rows@.take(index as int) =~= before.take(index - 1).push(all[seen]));
                assert(rows@.skip(index as int) =~= before.skip(index - 1).skip(1));
                assert(all.skip(seen).skip(1) =~= all.skip(seen + 1));
            }
        }
        proof {
            seen = seen + 1;
        }
    }
    proof {
        assert(rows@.skip(index as int).len() == 0);
        assert(all.skip(seen).len() == 0);
        assert(all.take(seen) =~= all);
        assert(rows@.take(index as int) =~= rows@);
    }
}

/// A row with the same record counts the same.
pub proof fn lemma_retained_update(segments: Seq<StoredSegment>, at: int, stored: StoredSegment)
    requires
        0 <= at < segments.len(),
        stored.record == segments[at].record,
    ensures
        retained_logical(segments.update(at, stored)) == retained_logical(segments),
    decreases segments.len(),
{
    let updated = segments.update(at, stored);
    if at == segments.len() - 1 {
        assert(updated.drop_last() =~= segments.drop_last());
    } else {
        assert(updated.drop_last() =~= segments.drop_last().update(at, stored));
        lemma_retained_update(segments.drop_last(), at, stored);
    }
}

/// Without a row, what it counted is gone.
pub proof fn lemma_retained_remove(segments: Seq<StoredSegment>, at: int)
    requires
        0 <= at < segments.len(),
    ensures
        retained_logical(segments.remove(at)) == retained_logical(segments)
            - segments[at].record.metadata.logical_bytes,
    decreases segments.len(),
{
    let shorter = segments.remove(at);
    if at == segments.len() - 1 {
        assert(shorter =~= segments.drop_last());
    } else {
        assert(shorter.drop_last() =~= segments.drop_last().remove(at));
        assert(shorter.last() == segments.last());
        lemma_retained_remove(segments.drop_last(), at);
    }
}

/// The owners with another row, unless its hold is there already.
pub open spec fn owners_with(owners: Seq<SegmentOwner>, row: SegmentOwner) -> Seq<SegmentOwner> {
    if owned_by(owners, row.segment_id@, row.kind, row.owner_id@) {
        owners
    } else {
        owners.push(row)
    }
}

impl HistoryStore {
    /// The tables hold the same rows.
    pub open spec fn same_rows(self, other: HistoryStore) -> bool {
        &&& self.budget == other.budget
        &&& self.segments@ == other.segments@
        &&& self.reservations@ == other.reservations@
        &&& self.owners@ == other.owners@
        &&& self.block_locators@ == other.block_locators@
        &&& self.transaction_locators@ == other.transaction_locators@
        &&& self.jobs@ == other.jobs@
    }

    /// The tables hold the same rows but for owners and jobs.
    pub open spec fn same_material(self, other: HistoryStore) -> bool {
        &&& self.budget == other.budget
        &&& self.segments@ == other.segments@
        &&& self.reservations@ == other.reservations@
        &&& self.block_locators@ == other.block_locators@
        &&& self.transaction_locators@ == other.transaction_locators@
    }

    /// The owners after a hold was taken: another row, unless it was there.
    pub open spec fn hold_taken(
        self,
        after: HistoryStore,
        segment: Seq<char>,
        kind: SegmentOwnerKind,
        owner: Seq<char>,
        now: u64,
    ) -> bool {
        if owned_by(self.owners@, segment, kind, owner) {
            after.owners@ == self.owners@
        } else {
            &&& after.owners@.len() == self.owners@.len() + 1
            &&& after.owners@.drop_last() == self.owners@
            &&& after.owners@.last().holds(segment, kind, owner)
            &&& after.owners@.last().created_at_unix_ms == now
        }
    }

    /// The job has been advanced by what it owns afterwards, and no other.
    pub open spec fn only_job_advanced(self, after: HistoryStore, owner: Seq<char>, now: u64) -> bool {
        match first_job(self.jobs@, owner, 0) {
            Some(at) => {
                &&& after.jobs@.len() == self.jobs@.len()
                &&& after.jobs@ == self.jobs@.update(at, after.jobs@[at])
                &&& job_advanced(
                    self.jobs@[at],
                    after.jobs@[at],
                    all_owned(after.segments@, after.owners@, owner),
                    now,
                )
            },
            None => false,
        }
    }

    /// The first reason to refuse a hold, but for what the counting of the
    /// job's segments may find.
    pub open spec fn hold_problem(
        self,
        id: SegmentId,
        kind: SegmentOwnerKind,
        owner_id: String,
        now: u64,
    ) -> Option<HistoryStoreError> {
        if !is_owner_id(owner_id@) {
            Some(HistoryStoreError::InvalidOwnerId(owner_id))
        } else {
            match first_closed(self.segments@, id@, 0) {
                None => Some(HistoryStoreError::UnknownSegment(id)),
                Some(at) => {
                    let refused = self.claim_problem(
                        SegmentOwnerClaim { kind, owner_id },
                        self.segments@[at].record.metadata.descriptor,
                    );
                    if refused is Some {
                        refused
                    } else if !fits_column(now) {
                        Some(HistoryStoreError::NumericRange("owner creation time"))
                    } else {
                        None
                    }
                },
            }
        }
    }

    /// What taking a hold makes of the tables.
    pub open spec fn hold_accepted(
        self,
        after: HistoryStore,
        id: SegmentId,
        kind: SegmentOwnerKind,
        owner_id: String,
        now: u64,
    ) -> bool {
        &&& self.hold_problem(id, kind, owner_id, now) is None
        &&& after.same_material(self)
        &&& self.hold_taken(after, id@, kind, owner_id@, now)
        &&& if kind == SegmentOwnerKind::RawHistoryJob {
            self.only_job_advanced(after, owner_id@, now)
        } else {
            after.jobs@ == self.jobs@
        }
    }

    /// Why a hold is refused.
    pub open spec fn hold_refused(
        self,
        id: SegmentId,
        kind: SegmentOwnerKind,
        owner_id: String,
        now: u64,
        error: HistoryStoreError,
    ) -> bool {
        match self.hold_problem(id, kind, owner_id, now) {
            Some(problem) => error == problem,
            None => kind == SegmentOwnerKind::RawHistoryJob && exists|row: SegmentOwner|
                (#[trigger] row.holds(id@, kind, owner_id@)) && Some(error) == progress_problem(
                    all_owned(
                        self.segments@,
                        owners_with(self.owners@, row),
                        owner_id@,
                    ),
                    now,
                ),
        }
    }

    /// Takes a hold on a readable segment. Taking it again changes nothing but
    /// the time at which the job's segments were last counted.
    pub fn add_owner(
        &mut self,
        id: &SegmentId,
        kind: SegmentOwnerKind,
        owner_id: &String,
        now: u64,
    ) -> (outcome: Result<(), HistoryStoreError>)
        requires
            old(self).wf(),
        ensures
            final(self).wf(),
            match outcome {
                Ok(()) => old(self).hold_accepted(*final(self), *id, kind, *owner_id, now),
                Err(error) => final(self).same_rows(*old(self)) && old(self).hold_refused(
                    *id,
                    kind,
                    *owner_id,
                    now,
                    error,
                ),
            },
    {
        validate_owner_id(owner_id)?;
        let at: usize = match self.find_closed(id) {
            Some(at) => at,
            None => {
                return Err(HistoryStoreError::UnknownSegment(id.clone()));
            },
        };
        self.check_claim(kind, owner_id, &self.segments[at].record.metadata.descriptor)?;
        u64_i64(now, "owner creation time")?;
        let ghost before = *self;
        let held = self.is_owner(id, kind, owner_id.as_str());
        if !held {
            self.owners.push(
                SegmentOwner {
                    segment_id: id.clone(),
                    kind,
                    owner_id: owner_id.clone(),
                    created_at_unix_ms: now,
                },
            );
            proof {
                assert(self.owners@.drop_last() =~= before.owners@);
                assert(self.owners@[self.owners@.len() - 1].holds(id@, kind, owner_id@));
                lemma_first_segment(self.segments@, id@, 0);
                assert(self.segments@[at as int].is_closed(id@));
                assert(first_segment(self.segments@, id@, 0) is Some);
            }
        }
        assert(owned_by(self.owners@, id@, kind, owner_id@)) by {
            if !held {
                assert(self.owners@[self.owners@.len() - 1].holds(id@, kind, owner_id@));
            }
        }
        if kind == SegmentOwnerKind::RawHistoryJob {
            let job: usize = match self.find_job(owner_id.as_str()) {
                Some(job) => job,
                None => {
                    return Err(HistoryStoreError::UnknownJob(owner_id.clone()));
                },
            };
            let owned: Vec<OwnedSegment> = self.collect_owned(owner_id.as_str());
            proof {
                assert(self.jobs@[job as int].wf());
            }
            match job_progress(&self.jobs[job].spec.ranges, self.jobs[job].state, &owned, now) {
                Ok(recorded) => {
                    self.jobs[job].record(recorded, now);
                    proof {
                        lemma_wf_jobs_update(before, *self, job as int);
                    }
                },
                Err(error) => {
                    proof {
                        let row = if held {
                            choose|row: SegmentOwner| row.holds(id@, kind, owner_id@)
                        } else {
                            self.owners@.last()
                        };
                        assert(row.holds(id@, kind, owner_id@)) by {
                            if held {
                                let i = choose|i: int|
                                    0 <= i < before.owners@.len() && (
                                    #[trigger] before.owners@[i]).holds(id@, kind, owner_id@);
                                assert(before.owners@[i].holds(id@, kind, owner_id@));
                            }
                        }
                        assert(self.owners@ =~= owners_with(before.owners@, row));
                    }
                    if !held {
                        self.owners.pop();
                        proof {
                            assert(self.owners@ =~= before.owners@);
                        }
                    }
                    return Err(error);
                },
            }
        }
        Ok(())
    }

    /// Releases a hold, which need not be there. Raw-history jobs release
    /// theirs by being deleted.
    pub fn remove_owner(&mut self, id: &SegmentId, kind: SegmentOwnerKind, owner_id: &String) -> (
        outcome: Result<(), HistoryStoreError>)
        requires
            old(self).wf(),
        ensures
            final(self).wf(),
            final(self).same_material(*old(self)),
            final(self).jobs@ == old(self).jobs@,
            match outcome {
                Ok(()) => {
                    &&& is_owner_id(owner_id@)
                    &&& kind != SegmentOwnerKind::RawHistoryJob
                    &&& !owned_by(final(self).owners@, id@, kind, owner_id@)
                    &&& final(self).owners@ == (match first_hold(
                        old(self).owners@,
                        id@,
                        kind,
                        owner_id@,
                        0,
                    ) {
                        Some(at) => old(self).owners@.remove(at),
                        None => old(self).owners@,
                    })
                },
                Err(error) => {
                    &&& final(self).owners@ == old(self).owners@
                    &&& if !is_owner_id(owner_id@) {
                        error == HistoryStoreError::InvalidOwnerId(*owner_id)
                    } else {
                        kind == SegmentOwnerKind::RawHistoryJob && error
                            == HistoryStoreError::InvalidJob(
                            JobProblem::Text(
                                "raw-history job ownership is released by deleting the terminal job",
                            ),
                        )
                    }
                },
            },
    {
        validate_owner_id(owner_id)?;
        if kind == SegmentOwnerKind::RawHistoryJob {
            return Err(
                HistoryStoreError::InvalidJob(
                    JobProblem::Text(
                        "raw-history job ownership is released by deleting the terminal job",
                    ),
                ),
            );
        }
        let ghost before = self.owners@;
        let mut index: usize = 0;
        while index < self.owners.len()
            invariant
                index <= self.owners@.len(),
                first_hold(self.owners@, id@, kind, owner_id@, 0) == first_hold(
                    self.owners@,
                    id@,
                    kind,
                    owner_id@,
                    index as int,
                ),
                forall|i: int|
                    0 <= i < index ==> !(#[trigger] self.owners@[i]).holds(
                        id@,
                        kind,
                        owner_id@,
                    ),
                *self == *old(self),
                old(self).wf(),
                before == old(self).owners@,
                is_owner_id(owner_id@),
                kind != SegmentOwnerKind::RawHistoryJob,
            decreases self.owners@.len() - index,
        {
            if self.owners[index].kind == kind && self.owners[index].segment_id.same(id)
                && same_text(self.owners[index].owner_id.as_str(), owner_id.as_str()) {
                self.owners.remove(index);
                proof {
                    assert forall|i: int| 0 <= i < self.owners@.len() implies !(
                    #[trigger] self.owners@[i]).holds(id@, kind, owner_id@) by {
                        let j = if i < index {
                            i
                        } else {
                            i + 1
                        };
                        assert(self.owners@[i] == before[j]);
                        assert(before[index as int].holds(id@, kind, owner_id@));
                        if j > index {
                            assert(!before[index as int].holds(
                                before[j].segment_id@,
                                before[j].kind,
                                before[j].owner_id@,
                            ));
                        }
                    }
                    lemma_wf_owners_remove(*old(self), *self, index as int);
                }
                return Ok(());
            }
            index += 1;
        }
        Ok(())
    }

    /// What starting a deletion answers and makes of the tables.
    pub open spec fn deletion_started(
        self,
        after: HistoryStore,
        id: SegmentId,
        outcome: Result<String, HistoryStoreError>,
    ) -> bool {
        &&& after.owners@ == self.owners@
        &&& after.reservations@ == self.reservations@
        &&& after.block_locators@ == self.block_locators@
        &&& after.transaction_locators@ == self.transaction_locators@
        &&& after.jobs@ == self.jobs@
        &&& after.budget == self.budget
        &&& if owner_count(self.owners@, id@) > 0 {
            &&& outcome == Err::<String, HistoryStoreError>(
                HistoryStoreError::OwnedSegment {
                    id,
                    owners: owner_count(self.owners@, id@) as u64,
                },
            )
            &&& after.segments@ == self.segments@
        } else {
            match first_closed(self.segments@, id@, 0) {
                None => {
                    &&& outcome == Err::<String, HistoryStoreError>(
                        HistoryStoreError::UnknownSegment(id),
                    )
                    &&& after.segments@ == self.segments@
                },
                Some(at) => {
                    let record = self.segments@[at].record;
                    &&& after.segments@ == self.segments@.update(
                        at,
                        StoredSegment { record, deleting: true },
                    )
                    &&& outcome == (if is_segment_path(record.relative_path@) {
                        Ok::<String, HistoryStoreError>(record.relative_path)
                    } else {
                        Err(
                            HistoryStoreError::CatalogIntegrity(
                                CatalogProblem::InvalidRelativePath(record.relative_path),
                            ),
                        )
                    })
                },
            }
        }
    }

    /// What finishing a deletion answers and makes of the tables.
    pub open spec fn deletion_finished(
        self,
        after: HistoryStore,
        id: Seq<char>,
        removed: bool,
    ) -> bool {
        &&& after.reservations@ == self.reservations@
        &&& after.jobs@ == self.jobs@
        &&& after.budget == self.budget
        &&& match first_segment(self.segments@, id, 0) {
            Some(at) => if self.segments@[at].deleting {
                &&& removed
                &&& after.segments@ == self.segments@.remove(at)
                &&& after.owners@ == rows_of_others(self.owners@, id)
                &&& after.block_locators@ == rows_of_others(self.block_locators@, id)
                &&& after.transaction_locators@ == rows_of_others(self.transaction_locators@, id)
            } else {
                !removed && after.same_rows(self)
            },
            None => !removed && after.same_rows(self),
        }
    }

    /// Starts to delete a segment that nobody holds, and says where its file
    /// is. Its row stays until the file is gone.
    pub fn delete_unowned(&mut self, id: &SegmentId) -> (outcome: Result<String, HistoryStoreError>)
        requires
            old(self).wf(),
        ensures
            final(self).wf(),
            old(self).deletion_started(*final(self), *id, outcome),
    {
        let owners: u64 = self.count_owners(id);
        if owners > 0 {
            return Err(HistoryStoreError::OwnedSegment { id: id.clone(), owners });
        }
        let at: usize = match self.find_closed(id) {
            Some(at) => at,
            None => {
                return Err(HistoryStoreError::UnknownSegment(id.clone()));
            },
        };
        let ghost before = *self;
        self.segments[at].deleting = true;
        proof {
            let stored = StoredSegment { record: before.segments@[at as int].record, deleting: true };
            assert(self.segments@ =~= before.segments@.update(at as int, stored));
            lemma_retained_update(before.segments@, at as int, stored);
            lemma_wf_segments_update(before, *self, at as int);
        }
        resolve_relative_path(&self.segments[at].record.relative_path)?;
        Ok(self.segments[at].record.relative_path.clone())
    }

    /// Forgets a segment whose deletion was started, with its locators and
    /// owners, once its file is gone.
    pub fn finish_deletion(&mut self, id: &SegmentId) -> (removed: bool)
        requires
            old(self).consistent(),
        ensures
            final(self).consistent(),
            old(self).within_budget() ==> final(self).within_budget(),
            old(self).deletion_finished(*final(self), id@, removed),
    {
        let at: usize = match self.find_segment(id) {
            Some(at) => at,
            None => {
                return false;
            },
        };
        if !self.segments[at].deleting {
            return false;
        }
        let ghost before = *self;
        self.segments.remove(at);
        remove_rows(&mut self.owners, id);
        remove_rows(&mut self.block_locators, id);
        remove_rows(&mut self.transaction_locators, id);
        proof {
            lemma_first_segment(before.segments@, id@, 0);
            lemma_retained_remove(before.segments@, at as int);
            lemma_wf_segments_remove(before, *self, id@, at as int);
        }
        true
    }
}

/// The first row with this hold, from `from` on.
pub open spec fn first_hold(
    owners: Seq<SegmentOwner>,
    segment: Seq<char>,
    kind: SegmentOwnerKind,
    owner: Seq<char>,
    from: int,
) -> Option<int>
    decreases owners.len() - from,
{
    if from < 0 || from >= owners.len() {
        None
    } else if owners[from].holds(segment, kind, owner) {
        Some(from)
    } else {
        first_hold(owners, segment, kind, owner, from + 1)
    }
}

proof fn lemma_wf_owners_remove(before: HistoryStore, after: HistoryStore, at: int)
    requires
        before.wf(),
        0 <= at < before.owners@.len(),
        after.same_material(before),
        after.jobs@ == before.jobs@,
        after.owners@ == before.owners@.remove(at),
    ensures
        after.wf(),
{
    assert forall|i: int| 0 <= i < after.owners@.len() implies first_segment(
        after.segments@,
        (#[trigger] after.owners@[i]).segment_id@,
        0,
    ) is Some by {
        let j = if i < at {
            i
        } else {
            i + 1
        };
        assert(after.owners@[i] == before.owners@[j]);
    }
    assert forall|i: int, j: int|
        #![trigger after.owners@[i], after.owners@[j]]
        0 <= i < j < after.owners@.len() implies !after.owners@[i].holds(
        after.owners@[j].segment_id@,
        after.owners@[j].kind,
        after.owners@[j].owner_id@,
    ) by {
        let a = if i < at {
            i
        } else {
            i + 1
        };
        let b = if j < at {
            j
        } else {
            j + 1
        };
        assert(after.owners@[i] == before.owners@[a]);
        assert(after.owners@[j] == before.owners@[b]);
    }
}

proof fn lemma_wf_segments_update(before: HistoryStore, after: HistoryStore, at: int)
    requires
        before.wf(),
        0 <= at < before.segments@.len(),
        after.segments@ == before.segments@.update(at, after.segments@[at]),
        after.segments@[at].record == before.segments@[at].record,
        retained_logical(after.segments@) == retained_logical(before.segments@),
        after.budget == before.budget,
        after.reservations@ == before.reservations@,
        after.owners@ == before.owners@,
        after.block_locators@ == before.block_locators@,
        after.transaction_locators@ == before.transaction_locators@,
        after.jobs@ == before.jobs@,
    ensures
        after.wf(),
{
    lemma_lead_into(before.block_locators@, before.segments@, after.segments@);
    lemma_lead_into(before.transaction_locators@, before.segments@, after.segments@);
    assert forall|i: int| 0 <= i < after.segments@.len() implies after.segments@[i].record == (
    #[trigger] before.segments@[i]).record by {}
    assert forall|i: int, j: int|
        #![trigger after.segments@[i], after.segments@[j]]
        0 <= i < j < after.segments@.len() implies after.segments@[i].record.metadata.id@
        != after.segments@[j].record.metadata.id@ by {
        assert(before.segments@[i].record.metadata.id@ != before.segments@[j].record.metadata.id@);
    }
    assert forall|i: int| 0 <= i < after.segments@.len() implies (
    #[trigger] after.segments@[i]).record.metadata.descriptor.wf() by {
        assert(before.segments@[i].record.metadata.descriptor.wf());
    }
    assert forall|i: int| 0 <= i < after.owners@.len() implies first_segment(
        after.segments@,
        (#[trigger] after.owners@[i]).segment_id@,
        0,
    ) is Some by {
        let id = after.owners@[i].segment_id@;
        assert(first_segment(before.segments@, before.owners@[i].segment_id@, 0) is Some);
        lemma_first_segment(before.segments@, id, 0);
        lemma_first_segment(after.segments@, id, 0);
        let k = first_segment(before.segments@, id, 0)->0;
        assert(after.segments@[k].record.metadata.id@ == id);
    }
}

proof fn lemma_wf_segments_remove(
    before: HistoryStore,
    after: HistoryStore,
    id: Seq<char>,
    at: int,
)
    requires
        before.consistent(),
        0 <= at < before.segments@.len(),
        before.segments@[at].record.metadata.id@ == id,
        after.segments@ == before.segments@.remove(at),
        after.budget == before.budget,
        after.reservations@ == before.reservations@,
        after.owners@ == rows_of_others(before.owners@, id),
        after.block_locators@ == rows_of_others(before.block_locators@, id),
        after.transaction_locators@ == rows_of_others(before.transaction_locators@, id),
        after.jobs@ == before.jobs@,
    ensures
        after.consistent(),
{
    let kept = after.segments@;
    lemma_locators_of_others(before.block_locators@, before.segments@, id, at);
    lemma_locators_of_others(before.transaction_locators@, before.segments@, id, at);
    assert forall|i: int, j: int|
        #![trigger kept[i], kept[j]]
        0 <= i < j < kept.len() implies kept[i].record.metadata.id@
        != kept[j].record.metadata.id@ by {
        let a = if i < at {
            i
        } else {
            i + 1
        };
        let b = if j < at {
            j
        } else {
            j + 1
        };
        assert(kept[i] == before.segments@[a]);
        assert(kept[j] == before.segments@[b]);
    }
    assert forall|i: int| 0 <= i < kept.len() implies (
    #[trigger] kept[i]).record.metadata.descriptor.wf() by {
        let a = if i < at {
            i
        } else {
            i + 1
        };
        assert(kept[i] == before.segments@[a]);
    }
    law_deletion_leaves_other_rows(before.owners@, id);
    assert forall|i: int| 0 <= i < after.owners@.len() implies first_segment(
        kept,
        (#[trigger] after.owners@[i]).segment_id@,
        0,
    ) is Some by {
        let row = after.owners@[i];
        assert(row.segment() != id && before.owners@.contains(row));
        let o = choose|o: int| 0 <= o < before.owners@.len() && before.owners@[o] == row;
        assert(first_segment(before.segments@, before.owners@[o].segment_id@, 0) is Some);
        lemma_first_segment(before.segments@, row.segment_id@, 0);
        lemma_first_segment(kept, row.segment_id@, 0);
        let k = first_segment(before.segments@, row.segment_id@, 0)->0;
        let a = if k < at {
            k
        } else {
            k - 1
        };
        assert(kept[a] == before.segments@[k]);
    }
    lemma_rows_of_others_distinct(before.owners@, id);
}

/// Rows that were distinct holds still are.
proof fn lemma_rows_of_others_distinct(owners: Seq<SegmentOwner>, id: Seq<char>)
    requires
        distinct_holds(owners),
    ensures
        distinct_holds(rows_of_others(owners, id)),
    decreases owners.len(),
{
    if owners.len() > 0 {
        let shorter = owners.drop_last();
        let before = rows_of_others(shorter, id);
        let left = rows_of_others(owners, id);
        assert forall|i: int, j: int|
            #![trigger shorter[i], shorter[j]]
            0 <= i < j < shorter.len() implies !shorter[i].holds(
            shorter[j].segment_id@,
            shorter[j].kind,
            shorter[j].owner_id@,
        ) by {
            assert(shorter[i] == owners[i] && shorter[j] == owners[j]);
        }
        lemma_rows_of_others_distinct(shorter, id);
        law_deletion_leaves_other_rows(shorter, id);
        assert forall|i: int, j: int|
            #![trigger left[i], left[j]]
            0 <= i < j < left.len() implies !left[i].holds(
            left[j].segment_id@,
            left[j].kind,
            left[j].owner_id@,
        ) by {
            assert(left[i] == before[i]);
            if j < before.len() {
                assert(left[j] == before[j]);
            } else {
                assert(shorter.contains(before[i]));
                let a = choose|a: int| 0 <= a < shorter.len() && shorter[a] == before[i];
                assert(owners[a] == left[i]);
                assert(owners[owners.len() - 1] == left[j]);
            }
        }
    }
}

proof fn lemma_first_hold(
    owners: Seq<SegmentOwner>,
    segment: Seq<char>,
    kind: SegmentOwnerKind,
    owner: Seq<char>,
    from: int,
    at: int,
)
    requires
        0 <= from <= at < owners.len(),
        owners[at].holds(segment, kind, owner),
        forall|i: int| from <= i < at ==> !(#[trigger] owners[i]).holds(segment, kind, owner),
    ensures
        first_hold(owners, segment, kind, owner, from) == Some(at),
    decreases at - from,
{
    if from < at {
        lemma_first_hold(owners, segment, kind, owner, from + 1, at);
    }
}

/// A hold counts.
pub proof fn lemma_held_is_counted(owners: Seq<SegmentOwner>, at: int)
    requires
        0 <= at < owners.len(),
    ensures
        owner_count(owners, owners[at].segment_id@) > 0,
    decreases owners.len(),
{
    lemma_owner_count_natural(owners.drop_last(), owners[at].segment_id@);
    if at < owners.len() - 1 {
        lemma_held_is_counted(owners.drop_last(), at);
    }
}

proof fn lemma_owner_count_natural(owners: Seq<SegmentOwner>, segment: Seq<char>)
    ensures
        owner_count(owners, segment) >= 0,
    decreases owners.len(),
{
    if owners.len() > 0 {
        lemma_owner_count_natural(owners.drop_last(), segment);
    }
}

/// A hold protects its segment: while there is one, the segment cannot be
/// deleted.
pub proof fn law_held_segments_are_kept(
    before: HistoryStore,
    after: HistoryStore,
    segment: Seq<char>,
    kind: SegmentOwnerKind,
    owner: Seq<char>,
    now: u64,
)
    requires
        before.hold_taken(after, segment, kind, owner, now),
    ensures
        owned_by(after.owners@, segment, kind, owner),
        owner_count(after.owners@, segment) > 0,
{
    if owned_by(before.owners@, segment, kind, owner) {
        let at = choose|i: int|
            0 <= i < before.owners@.len() && (#[trigger] before.owners@[i]).holds(
                segment,
                kind,
                owner,
            );
        lemma_held_is_counted(after.owners@, at);
    } else {
        let last = after.owners@.len() - 1;
        assert(after.owners@[last].holds(segment, kind, owner));
        lemma_held_is_counted(after.owners@, last);
    }
}

/// Taking a hold twice is taking it once.
pub proof fn law_taking_a_hold_is_idempotent(
    before: HistoryStore,
    once: HistoryStore,
    twice: HistoryStore,
    segment: Seq<char>,
    kind: SegmentOwnerKind,
    owner: Seq<char>,
    first: u64,
    second: u64,
)
    requires
        before.hold_taken(once, segment, kind, owner, first),
        once.hold_taken(twice, segment, kind, owner, second),
    ensures
        twice.owners@ == once.owners@,
{
    law_held_segments_are_kept(before, once, segment, kind, owner, first);
}

/// Releasing a hold undoes taking it: the owners are those from before.
pub proof fn law_releasing_undoes_taking(
    before: HistoryStore,
    held: HistoryStore,
    released: HistoryStore,
    segment: Seq<char>,
    kind: SegmentOwnerKind,
    owner: Seq<char>,
    now: u64,
)
    requires
        !owned_by(before.owners@, segment, kind, owner),
        before.hold_taken(held, segment, kind, owner, now),
        released.owners@ == (match first_hold(held.owners@, segment, kind, owner, 0) {
            Some(at) => held.owners@.remove(at),
            None => held.owners@,
        }),
    ensures
        released.owners@ == before.owners@,
{
    let last = held.owners@.len() - 1;
    assert forall|i: int| 0 <= i < last implies !(#[trigger] held.owners@[i]).holds(
        segment,
        kind,
        owner,
    ) by {
        assert(held.owners@.drop_last()[i] == before.owners@[i]);
    }
    lemma_first_hold(held.owners@, segment, kind, owner, 0, last);
    assert(held.owners@.remove(last) =~= held.owners@.drop_last());
}

/// No hold is recorded twice.
pub open spec fn distinct_holds(owners: Seq<SegmentOwner>) -> bool {
    forall|i: int, j: int|
        #![trigger owners[i], owners[j]]
        0 <= i < j < owners.len() ==> !owners[i].holds(
            owners[j].segment_id@,
            owners[j].kind,
            owners[j].owner_id@,
        )
}

pub proof fn lemma_wf_jobs_update(before: HistoryStore, after: HistoryStore, at: int)
    requires
        before.wf(),
        0 <= at < before.jobs@.len(),
        after.jobs@ == before.jobs@.update(at, after.jobs@[at]),
        after.jobs@[at].id@ == before.jobs@[at].id@,
        after.jobs@[at].wf(),
    ensures
        forall|i: int, j: int|
            #![trigger after.jobs@[i], after.jobs@[j]]
            0 <= i < j < after.jobs@.len() ==> after.jobs@[i].id@ != after.jobs@[j].id@,
        forall|i: int| 0 <= i < after.jobs@.len() ==> (#[trigger] after.jobs@[i]).wf(),
{
    assert forall|i: int| 0 <= i < after.jobs@.len() implies after.jobs@[i].id@ == (
    #[trigger] before.jobs@[i]).id@ by {}
    assert forall|i: int, j: int|
        #![trigger after.jobs@[i], after.jobs@[j]]
        0 <= i < j < after.jobs@.len() implies after.jobs@[i].id@ != after.jobs@[j].id@ by {
        assert(before.jobs@[i].id@ != before.jobs@[j].id@);
    }
    assert forall|i: int| 0 <= i < after.jobs@.len() implies (#[trigger] after.jobs@[i]).wf() by {
        assert(before.jobs@[i].wf());
    }
}

} // verus!
