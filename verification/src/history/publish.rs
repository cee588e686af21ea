//! Publication of a closed segment with its owners and locators, all at once.

use crate::history::catalog::{
    first_bad_owner, first_job, first_reserved, first_segment, normalize_owner_claims,
    BlockHashLocator, BlockLocatorRow, HistoryStore, SegmentOwner, SegmentOwnerClaim,
    StoredSegment, TransactionLocator, TransactionLocatorRow,
};
use crate::history::error::HistoryStoreError;
use crate::history::job::{normal_list, RawHistoryIndexPolicy, RawHistoryProfile};
use crate::history::layout::{SegmentDescriptor, SegmentId};
use crate::history::lifecycle::{
    is_progress, job_progress, progress_problem, JobProgress, OwnedSegment, RawHistoryJob,
};
use crate::history::locators::{
    distinct_locators, holds_block_twice, holds_transaction_twice, lead_into, lemma_locators_added,
    repeats_block, repeats_transaction, Locates,
};
use crate::history::ownership::{
    all_owned, job_advanced, lemma_first_job, lemma_first_reserved, lemma_first_segment,
};
use crate::history::paths::relative_path;
use crate::history::pending::{
    distinct_reservations, lemma_distinct_remove, lemma_reserved_remove, PendingSegment,
};
use crate::history::retention::OfSegment;
use crate::history::rows::{
    row_holds, row_overflow, RecordView, SegmentOwnerKind, SegmentRecord, SegmentRow,
};
use crate::history::segment::{closed_facts, closing_bytes, ClosedSegment, SegmentFacts};
use crate::order::{ascending, lemma_irreflexive, precedes, Keyed};
use crate::primitives::{BlockHash, BlockNumber, ChainId, TransactionHash};
use vstd::prelude::*;

verus! {

/// A publication that failed, and whether the segment's files and reservation
/// are to be given up with it.
#[derive(Debug)]
pub struct CommitFailure {
    pub error: HistoryStoreError,
    pub released: bool,
}

/// A published segment: its record, its table row, and the bytes that close
/// its file.
#[derive(Debug)]
pub struct PublishedSegment {
    pub record: SegmentRecord,
    pub row: SegmentRow,
    pub closing: Vec<u8>,
}

/// One owner row for every claim.
pub open spec fn claim_rows(
    rows: Seq<SegmentOwner>,
    claims: Seq<SegmentOwnerClaim>,
    segment: Seq<char>,
    now: u64,
) -> bool {
    &&& rows.len() == claims.len()
    &&& forall|i: int|
        0 <= i < rows.len() ==> (#[trigger] rows[i]).holds(
            segment,
            claims[i].kind,
            claims[i].owner_id@,
        ) && rows[i].created_at_unix_ms == now
}

/// One row for every block locator.
pub open spec fn block_locator_rows(
    rows: Seq<BlockLocatorRow>,
    locators: Seq<(BlockHash, BlockNumber)>,
    chain_id: ChainId,
    segment: Seq<char>,
) -> bool {
    &&& rows.len() == locators.len()
    &&& forall|i: int|
        0 <= i < rows.len() ==> (#[trigger] rows[i]).chain_id == chain_id && rows[i].hash
            == locators[i].0 && rows[i].locator.block_number == locators[i].1
            && rows[i].locator.segment_id@ == segment
}

/// One row for every transaction locator.
pub open spec fn transaction_locator_rows(
    rows: Seq<TransactionLocatorRow>,
    locators: Seq<(TransactionHash, BlockNumber, u32)>,
    chain_id: ChainId,
    segment: Seq<char>,
) -> bool {
    &&& rows.len() == locators.len()
    &&& forall|i: int|
        0 <= i < rows.len() ==> (#[trigger] rows[i]).chain_id == chain_id && rows[i].hash
            == locators[i].0 && rows[i].locator.block_number == locators[i].1
            && rows[i].locator.transaction_index == locators[i].2
            && rows[i].locator.segment_id@ == segment
}

/// Some claim is of this raw-history job.
pub open spec fn claims_job(claims: Seq<SegmentOwnerClaim>, id: Seq<char>) -> bool {
    exists|k: int|
        0 <= k < claims.len() && (#[trigger] claims[k]).kind == SegmentOwnerKind::RawHistoryJob
            && claims[k].owner_id@ == id
}

/// Every job that claims has been advanced by what it owns, and no other.
pub open spec fn jobs_advanced(
    before: Seq<RawHistoryJob>,
    after: Seq<RawHistoryJob>,
    segments: Seq<StoredSegment>,
    owners: Seq<SegmentOwner>,
    claims: Seq<SegmentOwnerClaim>,
    now: u64,
) -> bool {
    &&& after.len() == before.len()
    &&& forall|i: int|
        0 <= i < before.len() ==> if claims_job(claims, (#[trigger] before[i]).id@) {
            job_advanced(
                before[i],
                after[i],
                all_owned(segments, owners, before[i].id@),
                now,
            )
        } else {
            after[i] == before[i]
        }
}

/// The first claiming job whose segments cannot be counted, from `from` on.
pub open spec fn first_progress_problem(
    segments: Seq<StoredSegment>,
    owners: Seq<SegmentOwner>,
    claims: Seq<SegmentOwnerClaim>,
    now: u64,
    from: int,
) -> Option<HistoryStoreError>
    decreases claims.len() - from,
{
    if from < 0 || from >= claims.len() {
        None
    } else {
        let problem = progress_problem(
            all_owned(segments, owners, claims[from].owner_id@),
            now,
        );
        if claims[from].kind == SegmentOwnerKind::RawHistoryJob && problem is Some {
            problem
        } else {
            first_progress_problem(segments, owners, claims, now, from + 1)
        }
    }
}

/// A row holds the same material under the same guarantees.
pub open spec fn same_material_identity(
    stored: StoredSegment,
    descriptor: SegmentDescriptor,
    profile: RawHistoryProfile,
    indexes: RawHistoryIndexPolicy,
) -> bool {
    &&& stored.record.metadata.descriptor == descriptor
    &&& stored.record.profile == profile
    &&& stored.record.indexes.block_hash == indexes.block_hash
    &&& stored.record.indexes.transaction_hash == indexes.transaction_hash
}

/// Some row holds the same material under the same guarantees.
pub open spec fn material_is_held(
    segments: Seq<StoredSegment>,
    descriptor: SegmentDescriptor,
    profile: RawHistoryProfile,
    indexes: RawHistoryIndexPolicy,
) -> bool {
    exists|i: int|
        0 <= i < segments.len() && same_material_identity(
            #[trigger] segments[i],
            descriptor,
            profile,
            indexes,
        )
}

impl PendingSegment {
    /// What the closed file will hold.
    pub open spec fn facts(&self, index: Seq<u8>) -> SegmentFacts {
        closed_facts(self.writer@, index)
    }

    /// The record under which the segment is published.
    pub open spec fn record_view(&self, index: Seq<u8>, now: u64) -> RecordView {
        RecordView {
            id: self.id@,
            facts: self.facts(index),
            profile: self.profile,
            indexes: self.indexes,
            relative_path: "segments/"@ + self.final_name@,
            created_at_unix_ms: now,
        }
    }

    /// The first reason not to publish, but for what the counting of the
    /// claiming jobs' segments may find.
    pub open spec fn publish_problem(
        &self,
        store: HistoryStore,
        claims: Seq<SegmentOwnerClaim>,
        index: Seq<u8>,
        now: u64,
    ) -> Option<CommitFailure> {
        let descriptor = self.writer@.descriptor;
        let facts = self.facts(index);
        match store.first_claim_problem(claims, descriptor, 0) {
            Some(error) => Some(CommitFailure { error, released: true }),
            None => match self.writer@.close_refusal(index.len() as int) {
                Some(error) => Some(
                    CommitFailure { error: HistoryStoreError::Segment(error), released: true },
                ),
                None => if facts.logical_bytes > self.reservation.maximum_logical_bytes
                    || facts.physical_bytes > self.reservation.maximum_physical_bytes {
                    Some(
                        CommitFailure {
                            error: HistoryStoreError::ReservationExceeded,
                            released: false,
                        },
                    )
                } else if first_reserved(store.reservations@, self.id@, 0) is None {
                    Some(
                        CommitFailure {
                            error: HistoryStoreError::MissingReservation(self.id),
                            released: false,
                        },
                    )
                } else {
                    match row_overflow(facts, self.profile, now) {
                        Some(name) => Some(
                            CommitFailure {
                                error: HistoryStoreError::NumericRange(name),
                                released: false,
                            },
                        ),
                        None => if first_segment(store.segments@, self.id@, 0) is Some {
                            Some(
                                CommitFailure {
                                    error: HistoryStoreError::Duplicate("raw_segments.segment_id"),
                                    released: false,
                                },
                            )
                        } else if material_is_held(
                            store.segments@,
                            descriptor,
                            self.profile,
                            self.indexes,
                        ) {
                            Some(
                                CommitFailure {
                                    error: HistoryStoreError::Duplicate(
                                        "raw_segments_material_identity",
                                    ),
                                    released: false,
                                },
                            )
                        } else if repeats_block(self.block_locators@) {
                            Some(
                                CommitFailure {
                                    error: HistoryStoreError::Duplicate("raw_block_hash_locators"),
                                    released: false,
                                },
                            )
                        } else if repeats_transaction(self.transaction_locators@) {
                            Some(
                                CommitFailure {
                                    error: HistoryStoreError::Duplicate("raw_transaction_locators"),
                                    released: false,
                                },
                            )
                        } else {
                            None
                        },
                    }
                },
            },
        }
    }

    /// The catalog after publication.
    pub open spec fn is_published(
        &self,
        before: HistoryStore,
        after: HistoryStore,
        claims: Seq<SegmentOwnerClaim>,
        index: Seq<u8>,
        now: u64,
    ) -> bool {
        let held = before.owners@.len() as int;
        let blocks = before.block_locators@.len() as int;
        let transactions = before.transaction_locators@.len() as int;
        let chain_id = self.writer@.descriptor.chain_id;
        &&& after.budget == before.budget
        &&& after.segments@.len() == before.segments@.len() + 1
        &&& after.segments@.drop_last() == before.segments@
        &&& !after.segments@.last().deleting
        &&& after.segments@.last().record@ == self.record_view(index, now)
        &&& after.owners@.len() == held + claims.len()
        &&& after.owners@.take(held) == before.owners@
        &&& claim_rows(after.owners@.skip(held), claims, self.id@, now)
        &&& after.block_locators@.len() == blocks + self.block_locators@.len()
        &&& after.block_locators@.take(blocks) == before.block_locators@
        &&& block_locator_rows(
            after.block_locators@.skip(blocks),
            self.block_locators@,
            chain_id,
            self.id@,
        )
        &&& after.transaction_locators@.len() == transactions + self.transaction_locators@.len()
        &&& after.transaction_locators@.take(transactions) == before.transaction_locators@
        &&& transaction_locator_rows(
            after.transaction_locators@.skip(transactions),
            self.transaction_locators@,
            chain_id,
            self.id@,
        )
        &&& jobs_advanced(
            before.jobs@,
            after.jobs@,
            after.segments@,
            after.owners@,
            claims,
            now,
        )
        &&& match first_reserved(before.reservations@, self.id@, 0) {
            Some(at) => after.reservations@ == before.reservations@.remove(at),
            None => false,
        }
    }

    /// Publishing failed because the segments of a claiming job cannot be
    /// counted.
    pub open spec fn progress_fails(
        &self,
        store: HistoryStore,
        claims: Seq<SegmentOwnerClaim>,
        index: Seq<u8>,
        now: u64,
        error: HistoryStoreError,
    ) -> bool {
        exists|stored: StoredSegment, rows: Seq<SegmentOwner>|
            #![trigger store.segments@.push(stored), store.owners@ + rows]
            stored.record@ == self.record_view(index, now) && !stored.deleting && claim_rows(
                rows,
                claims,
                self.id@,
                now,
            ) && Some(error) == first_progress_problem(
                store.segments@.push(stored),
                store.owners@ + rows,
                claims,
                now,
                0,
            )
    }
}

fn holds_material(
    store: &HistoryStore,
    descriptor: &SegmentDescriptor,
    profile: RawHistoryProfile,
    indexes: RawHistoryIndexPolicy,
) -> (held: bool)
    ensures
        held == material_is_held(store.segments@, *descriptor, profile, indexes),
{
    let mut index: usize = 0;
    while index < store.segments.len()
        invariant
            index <= store.segments@.len(),
            forall|i: int|
                0 <= i < index ==> !same_material_identity(
                    #[trigger] store.segments@[i],
                    *descriptor,
                    profile,
                    indexes,
                ),
        decreases store.segments@.len() - index,
    {
        let record: &SegmentRecord = &store.segments[index].record;
        if record.metadata.descriptor.same(descriptor) && record.profile == profile
            && record.indexes.block_hash == indexes.block_hash && record.indexes.transaction_hash
            == indexes.transaction_hash {
            assert(same_material_identity(
                store.segments@[index as int],
                *descriptor,
                profile,
                indexes,
            ));
            return true;
        }
        index += 1;
    }
    false
}

fn push_owner_rows(
    owners: &mut Vec<SegmentOwner>,
    claims: &Vec<SegmentOwnerClaim>,
    segment: &SegmentId,
    now: u64,
)
    ensures
        final(owners)@.len() == old(owners)@.len() + claims@.len(),
        final(owners)@.take(old(owners)@.len() as int) == old(owners)@,
        claim_rows(final(owners)@.skip(old(owners)@.len() as int), claims@, segment@, now),
{
    let ghost before = owners@;
    let mut index: usize = 0;
    while index < claims.len()
        invariant
            index <= claims@.len(),
            owners@.len() == before.len() + index,
            owners@.take(before.len() as int) == before,
            forall|i: int|
                before.len() <= i < owners@.len() ==> (#[trigger] owners@[i]).holds(
                    segment@,
                    claims@[i - before.len()].kind,
                    claims@[i - before.len()].owner_id@,
                ) && owners@[i].created_at_unix_ms == now,
        decreases claims@.len() - index,
    {
        owners.push(
            SegmentOwner {
                segment_id: segment.clone(),
                kind: claims[index].kind,
                owner_id: claims[index].owner_id.clone(),
                created_at_unix_ms: now,
            },
        );
        index += 1;
        assert(owners@.take(before.len() as int) =~= before);
    }
    proof {
        let rows = owners@.skip(before.len() as int);
        assert forall|i: int| 0 <= i < rows.len() implies (#[trigger] rows[i]).holds(
            segment@,
            claims@[i].kind,
            claims@[i].owner_id@,
        ) && rows[i].created_at_unix_ms == now by {
            assert(rows[i] == owners@[i + before.len()]);
        }
        assert(owners@.take(before.len() as int) =~= before);
    }
}

fn push_block_rows(
    rows: &mut Vec<BlockLocatorRow>,
    locators: &Vec<(BlockHash, BlockNumber)>,
    chain_id: ChainId,
    segment: &SegmentId,
)
    ensures
        final(rows)@.len() == old(rows)@.len() + locators@.len(),
        final(rows)@.take(old(rows)@.len() as int) == old(rows)@,
        block_locator_rows(
            final(rows)@.skip(old(rows)@.len() as int),
            locators@,
            chain_id,
            segment@,
        ),
{
    let ghost before = rows@;
    let mut index: usize = 0;
    while index < locators.len()
        invariant
            index <= locators@.len(),
            rows@.len() == before.len() + index,
            rows@.take(before.len() as int) == before,
            forall|i: int|
                before.len() <= i < rows@.len() ==> (#[trigger] rows@[i]).chain_id == chain_id
                    && rows@[i].hash == locators@[i - before.len()].0
                    && rows@[i].locator.block_number == locators@[i - before.len()].1
                    && rows@[i].locator.segment_id@ == segment@,
        decreases locators@.len() - index,
    {
        rows.push(
            BlockLocatorRow {
                chain_id,
                hash: locators[index].0,
                locator: BlockHashLocator {
                    segment_id: segment.clone(),
                    block_number: locators[index].1,
                },
            },
        );
        index += 1;
        assert(rows@.take(before.len() as int) =~= before);
    }
    proof {
        let added = rows@.skip(before.len() as int);
        assert forall|i: int| 0 <= i < added.len() implies (#[trigger] added[i]).chain_id
            == chain_id && added[i].hash == locators@[i].0 && added[i].locator.block_number
            == locators@[i].1 && added[i].locator.segment_id@ == segment@ by {
            assert(added[i] == rows@[i + before.len()]);
        }
        assert(rows@.take(before.len() as int) =~= before);
    }
}

fn push_transaction_rows(
    rows: &mut Vec<TransactionLocatorRow>,
    locators: &Vec<(TransactionHash, BlockNumber, u32)>,
    chain_id: ChainId,
    segment: &SegmentId,
)
    ensures
        final(rows)@.len() == old(rows)@.len() + locators@.len(),
        final(rows)@.take(old(rows)@.len() as int) == old(rows)@,
        transaction_locator_rows(
            final(rows)@.skip(old(rows)@.len() as int),
            locators@,
            chain_id,
            segment@,
        ),
{
    let ghost before = rows@;
    let mut index: usize = 0;
    while index < locators.len()
        invariant
            index <= locators@.len(),
            rows@.len() == before.len() + index,
            rows@.take(before.len() as int) == before,
            forall|i: int|
                before.len() <= i < rows@.len() ==> (#[trigger] rows@[i]).chain_id == chain_id
                    && rows@[i].hash == locators@[i - before.len()].0
                    && rows@[i].locator.block_number == locators@[i - before.len()].1
                    && rows@[i].locator.transaction_index == locators@[i - before.len()].2
                    && rows@[i].locator.segment_id@ == segment@,
        decreases locators@.len() - index,
    {
        rows.push(
            TransactionLocatorRow {
                chain_id,
                hash: locators[index].0,
                locator: TransactionLocator {
                    segment_id: segment.clone(),
                    block_number: locators[index].1,
                    transaction_index: locators[index].2,
                },
            },
        );
        index += 1;
        assert(rows@.take(before.len() as int) =~= before);
    }
    proof {
        let added = rows@.skip(before.len() as int);
        assert forall|i: int| 0 <= i < added.len() implies (#[trigger] added[i]).chain_id
            == chain_id && added[i].hash == locators@[i].0 && added[i].locator.block_number
            == locators@[i].1 && added[i].locator.transaction_index == locators@[i].2
            && added[i].locator.segment_id@ == segment@ by {
            assert(added[i] == rows@[i + before.len()]);
        }
        assert(rows@.take(before.len() as int) =~= before);
    }
}

/// What is to be recorded for a job.
pub struct JobUpdate {
    pub at: usize,
    pub recorded: JobProgress,
}

/// The update is what the job's segments amount to.
pub open spec fn update_is_sound(
    update: JobUpdate,
    jobs: Seq<RawHistoryJob>,
    segments: Seq<StoredSegment>,
    owners: Seq<SegmentOwner>,
    claims: Seq<SegmentOwnerClaim>,
) -> bool {
    &&& update.at < jobs.len()
    &&& claims_job(claims, jobs[update.at as int].id@)
    &&& is_progress(
        jobs[update.at as int].spec.ranges@,
        jobs[update.at as int].state,
        all_owned(segments, owners, jobs[update.at as int].id@),
        update.recorded,
    )
}

/// Some update is for the job at `at`.
pub open spec fn updates_job(updates: Seq<JobUpdate>, at: int) -> bool {
    exists|u: int| 0 <= u < updates.len() && (#[trigger] updates[u]).at == at
}

impl HistoryStore {
    /// Counts the segments of every claiming job.
    fn claimed_progress(&self, claims: &Vec<SegmentOwnerClaim>, now: u64) -> (outcome: Result<
        Vec<JobUpdate>,
        HistoryStoreError,
    >)
        requires
            self.wf_segments(),
            forall|i: int| 0 <= i < self.jobs@.len() ==> (#[trigger] self.jobs@[i]).wf(),
            forall|k: int|
                0 <= k < claims@.len() && (#[trigger] claims@[k]).kind
                    == SegmentOwnerKind::RawHistoryJob ==> first_job(
                    self.jobs@,
                    claims@[k].owner_id@,
                    0,
                ) is Some,
        ensures
            match outcome {
                Ok(updates) => {
                    &&& first_progress_problem(self.segments@, self.owners@, claims@, now, 0)
                        is None
                    &&& forall|u: int|
                        0 <= u < updates@.len() ==> update_is_sound(
                            #[trigger] updates@[u],
                            self.jobs@,
                            self.segments@,
                            self.owners@,
                            claims@,
                        )
                    &&& forall|k: int|
                        0 <= k < claims@.len() && (#[trigger] claims@[k]).kind
                            == SegmentOwnerKind::RawHistoryJob ==> updates_job(
                            updates@,
                            first_job(self.jobs@, claims@[k].owner_id@, 0)->0,
                        )
                },
                Err(error) => Some(error) == first_progress_problem(
                    self.segments@,
                    self.owners@,
                    claims@,
                    now,
                    0,
                ),
            },
    {
        let mut updates: Vec<JobUpdate> = Vec::new();
        let mut index: usize = 0;
        while index < claims.len()
            invariant
                index <= claims@.len(),
                self.wf_segments(),
                forall|i: int| 0 <= i < self.jobs@.len() ==> (#[trigger] self.jobs@[i]).wf(),
                forall|k: int|
                    0 <= k < claims@.len() && (#[trigger] claims@[k]).kind
                        == SegmentOwnerKind::RawHistoryJob ==> first_job(
                        self.jobs@,
                        claims@[k].owner_id@,
                        0,
                    ) is Some,
                first_progress_problem(self.segments@, self.owners@, claims@, now, 0)
                    == first_progress_problem(
                    self.segments@,
                    self.owners@,
                    claims@,
                    now,
                    index as int,
                ),
                forall|u: int|
                    0 <= u < updates@.len() ==> update_is_sound(
                        #[trigger] updates@[u],
                        self.jobs@,
                        self.segments@,
                        self.owners@,
                        claims@,
                    ),
                forall|k: int|
                    0 <= k < index && (#[trigger] claims@[k]).kind
                        == SegmentOwnerKind::RawHistoryJob ==> updates_job(
                        updates@,
                        first_job(self.jobs@, claims@[k].owner_id@, 0)->0,
                    ),
            decreases claims@.len() - index,
        {
            if claims[index].kind == SegmentOwnerKind::RawHistoryJob {
                let owner: &String = &claims[index].owner_id;
                if let Some(at) = self.find_job(owner.as_str()) {
                    let owned: Vec<OwnedSegment> = self.collect_owned(owner.as_str());
                    proof {
                        assert(self.jobs@[at as int].wf());
                        assert(claims_job(claims@, self.jobs@[at as int].id@)) by {
                            assert(claims@[index as int].owner_id@ == self.jobs@[at as int].id@);
                        }
                    }
                    let recorded: JobProgress = job_progress(
                        &self.jobs[at].spec.ranges,
                        self.jobs[at].state,
                        &owned,
                        now,
                    )?;
                    let ghost before = updates@;
                    updates.push(JobUpdate { at, recorded });
                    proof {
                        assert(updates@[before.len() as int].at == at);
                        assert forall|i: int| #[trigger]
                            updates_job(before, i) implies updates_job(updates@, i) by {
                            let u = choose|u: int|
                                0 <= u < before.len() && (#[trigger] before[u]).at == i;
                            assert(updates@[u] == before[u]);
                        }
                    }
                }
            }
            index += 1;
        }
        Ok(updates)
    }

    /// Records what was counted for every claiming job.
    fn apply_updates(&mut self, updates: Vec<JobUpdate>, Ghost(claims): Ghost<
        Seq<SegmentOwnerClaim>,
    >, now: u64)
        requires
            forall|u: int|
                0 <= u < updates@.len() ==> update_is_sound(
                    #[trigger] updates@[u],
                    old(self).jobs@,
                    old(self).segments@,
                    old(self).owners@,
                    claims,
                ),
            forall|i: int|
                0 <= i < old(self).jobs@.len() && claims_job(
                    claims,
                    (#[trigger] old(self).jobs@[i]).id@,
                ) ==> updates_job(updates@, i),
        ensures
            final(self).budget == old(self).budget,
            final(self).segments@ == old(self).segments@,
            final(self).reservations@ == old(self).reservations@,
            final(self).owners@ == old(self).owners@,
            final(self).block_locators@ == old(self).block_locators@,
            final(self).transaction_locators@ == old(self).transaction_locators@,
            jobs_advanced(
                old(self).jobs@,
                final(self).jobs@,
                old(self).segments@,
                old(self).owners@,
                claims,
                now,
            ),
    {
        let ghost before = *self;
        let mut rest: Vec<JobUpdate> = updates;
        while rest.len() > 0
            invariant
                rest@ == updates@.take(rest@.len() as int),
                rest@.len() <= updates@.len(),
                before == *old(self),
                self.budget == before.budget,
                self.segments@ == before.segments@,
                self.reservations@ == before.reservations@,
                self.owners@ == before.owners@,
                self.block_locators@ == before.block_locators@,
                self.transaction_locators@ == before.transaction_locators@,
                self.jobs@.len() == before.jobs@.len(),
                forall|u: int|
                    0 <= u < updates@.len() ==> update_is_sound(
                        #[trigger] updates@[u],
                        before.jobs@,
                        before.segments@,
                        before.owners@,
                        claims,
                    ),
                forall|i: int|
                    0 <= i < before.jobs@.len() ==> (#[trigger] self.jobs@[i] == before.jobs@[i]
                        || claims_job(claims, before.jobs@[i].id@) && job_advanced(
                        before.jobs@[i],
                        self.jobs@[i],
                        all_owned(before.segments@, before.owners@, before.jobs@[i].id@),
                        now,
                    )),
                forall|u: int|
                    rest@.len() <= u < updates@.len() ==> job_advanced(
                        before.jobs@[(#[trigger] updates@[u]).at as int],
                        self.jobs@[updates@[u].at as int],
                        all_owned(
                            before.segments@,
                            before.owners@,
                            before.jobs@[updates@[u].at as int].id@,
                        ),
                        now,
                    ),
            decreases rest@.len(),
        {
            let ghost count = rest@.len() as int;
            let ghost jobs = self.jobs@;
            if let Some(update) = rest.pop() {
                let ghost recorded = update.recorded;
                let at: usize = update.at;
                proof {
                    assert(update == updates@[count - 1]);
                    assert(update_is_sound(
                        updates@[count - 1],
                        before.jobs@,
                        before.segments@,
                        before.owners@,
                        claims,
                    ));
                    assert(jobs[at as int] == before.jobs@[at as int] || job_advanced(
                        before.jobs@[at as int],
                        jobs[at as int],
                        all_owned(before.segments@, before.owners@, before.jobs@[at as int].id@),
                        now,
                    ));
                }
                self.jobs[at].record(update.recorded, now);
                proof {
                    assert(self.jobs@ =~= jobs.update(at as int, self.jobs@[at as int]));
                    assert(self.jobs@[at as int] == before.jobs@[at as int].reconciled(
                        recorded,
                        now,
                    ));
                    assert(rest@ =~= updates@.take(count - 1));
                }
            }
        }
        proof {
            assert forall|i: int| 0 <= i < before.jobs@.len() implies if claims_job(
                claims,
                (#[trigger] before.jobs@[i]).id@,
            ) {
                job_advanced(
                    before.jobs@[i],
                    self.jobs@[i],
                    all_owned(before.segments@, before.owners@, before.jobs@[i].id@),
                    now,
                )
            } else {
                self.jobs@[i] == before.jobs@[i]
            } by {
                assert(self.jobs@[i] == before.jobs@[i] || claims_job(
                    claims,
                    before.jobs@[i].id@,
                ));
                if claims_job(claims, before.jobs@[i].id@) {
                    assert(updates_job(updates@, i));
                    let u = choose|u: int|
                        0 <= u < updates@.len() && (#[trigger] updates@[u]).at == i;
                    assert(updates@[u].at == i);
                }
            }
        }
    }
}

/// Everything that a publication adds to the catalog.
pub struct PublicationRows<'a> {
    pub id: &'a SegmentId,
    pub record: &'a SegmentRecord,
    pub claims: &'a Vec<SegmentOwnerClaim>,
    pub block_locators: &'a Vec<(BlockHash, BlockNumber)>,
    pub transaction_locators: &'a Vec<(TransactionHash, BlockNumber, u32)>,
}

/// The catalog with everything that a publication adds.
pub open spec fn is_installed(
    before: HistoryStore,
    after: HistoryStore,
    id: Seq<char>,
    record: SegmentRecord,
    claims: Seq<SegmentOwnerClaim>,
    block_locators: Seq<(BlockHash, BlockNumber)>,
    transaction_locators: Seq<(TransactionHash, BlockNumber, u32)>,
    now: u64,
) -> bool {
    let held = before.owners@.len() as int;
    let blocks = before.block_locators@.len() as int;
    let transactions = before.transaction_locators@.len() as int;
    let chain_id = record.metadata.descriptor.chain_id;
    &&& after.budget == before.budget
    &&& after.segments@ == before.segments@.push(StoredSegment { record, deleting: false })
    &&& after.owners@.len() == held + claims.len()
    &&& after.owners@.take(held) == before.owners@
    &&& claim_rows(after.owners@.skip(held), claims, id, now)
    &&& after.block_locators@.len() == blocks + block_locators.len()
    &&& after.block_locators@.take(blocks) == before.block_locators@
    &&& block_locator_rows(after.block_locators@.skip(blocks), block_locators, chain_id, id)
    &&& after.transaction_locators@.len() == transactions + transaction_locators.len()
    &&& after.transaction_locators@.take(transactions) == before.transaction_locators@
    &&& transaction_locator_rows(
        after.transaction_locators@.skip(transactions),
        transaction_locators,
        chain_id,
        id,
    )
    &&& jobs_advanced(before.jobs@, after.jobs@, after.segments@, after.owners@, claims, now)
}

/// The segments of a claiming job cannot be counted.
pub open spec fn install_fails(
    before: HistoryStore,
    id: Seq<char>,
    record: SegmentRecord,
    claims: Seq<SegmentOwnerClaim>,
    now: u64,
    error: HistoryStoreError,
) -> bool {
    exists|rows: Seq<SegmentOwner>|
        #![trigger before.owners@ + rows]
        claim_rows(rows, claims, id, now) && Some(error) == first_progress_problem(
            before.segments@.push(StoredSegment { record, deleting: false }),
            before.owners@ + rows,
            claims,
            now,
            0,
        )
}

impl HistoryStore {
    /// Adds everything that a publication adds, and takes its reservation
    /// away; or adds nothing.
    fn install(&mut self, rows: PublicationRows, reserved: usize, now: u64) -> (outcome: Result<
        (),
        HistoryStoreError,
    >)
        requires
            old(self).wf(),
            rows.record.metadata.descriptor.wf(),
            reserved < old(self).reservations@.len(),
            forall|k: int|
                0 <= k < rows.claims@.len() && (#[trigger] rows.claims@[k]).kind
                    == SegmentOwnerKind::RawHistoryJob ==> first_job(
                    old(self).jobs@,
                    rows.claims@[k].owner_id@,
                    0,
                ) is Some,
        ensures
            match outcome {
                Ok(()) => {
                    &&& is_installed(
                        *old(self),
                        *final(self),
                        rows.id@,
                        *rows.record,
                        rows.claims@,
                        rows.block_locators@,
                        rows.transaction_locators@,
                        now,
                    )
                    &&& final(self).reservations@ == old(self).reservations@.remove(
                        reserved as int,
                    )
                },
                Err(error) => {
                    &&& final(self).same_rows(*old(self))
                    &&& install_fails(
                        *old(self),
                        rows.id@,
                        *rows.record,
                        rows.claims@,
                        now,
                        error,
                    )
                },
            },
    {
        let ghost before = *self;
        let claims: &Vec<SegmentOwnerClaim> = rows.claims;
        let held: usize = self.owners.len();
        let ghost stored = StoredSegment { record: *rows.record, deleting: false };
        self.segments.push(StoredSegment { record: rows.record.clone(), deleting: false });
        push_owner_rows(&mut self.owners, claims, rows.id, now);
        let ghost added = self.owners@.skip(held as int);
        proof {
            assert(self.owners@ =~= before.owners@ + added);
            assert(self.segments@ =~= before.segments@.push(stored));
            assert forall|i: int| 0 <= i < self.segments@.len() implies (
            #[trigger] self.segments@[i]).record.metadata.descriptor.wf() by {
                if i < before.segments@.len() {
                    assert(self.segments@[i] == before.segments@[i]);
                }
            }
        }
        let updates: Vec<JobUpdate> = match self.claimed_progress(claims, now) {
            Ok(updates) => updates,
            Err(error) => {
                self.segments.pop();
                self.owners.truncate(held);
                proof {
                    assert(self.segments@ =~= before.segments@);
                    assert(self.owners@ =~= before.owners@);
                    assert(claim_rows(added, claims@, rows.id@, now));
                    assert(Some(error) == first_progress_problem(
                        before.segments@.push(stored),
                        before.owners@ + added,
                        claims@,
                        now,
                        0,
                    ));
                }
                return Err(error);
            },
        };
        proof {
            assert forall|i: int|
                0 <= i < self.jobs@.len() && claims_job(
                    claims@,
                    (#[trigger] self.jobs@[i]).id@,
                ) implies updates_job(updates@, i) by {
                let k = choose|k: int|
                    0 <= k < claims@.len() && (#[trigger] claims@[k]).kind
                        == SegmentOwnerKind::RawHistoryJob && claims@[k].owner_id@
                        == self.jobs@[i].id@;
                lemma_first_job(self.jobs@, self.jobs@[i].id@, 0);
                let at = first_job(self.jobs@, claims@[k].owner_id@, 0)->0;
                assert(before.jobs@[at].id@ == before.jobs@[i].id@);
                assert(at == i);
                assert(claims@[k].kind == SegmentOwnerKind::RawHistoryJob);
            }
        }
        self.apply_updates(updates, Ghost(claims@), now);
        let chain_id: ChainId = rows.record.metadata.descriptor.chain_id;
        push_block_rows(&mut self.block_locators, rows.block_locators, chain_id, rows.id);
        push_transaction_rows(
            &mut self.transaction_locators,
            rows.transaction_locators,
            chain_id,
            rows.id,
        );
        self.reservations.remove(reserved);
        Ok(())
    }
}

proof fn lemma_install_fails(
    pending: PendingSegment,
    before: HistoryStore,
    record: SegmentRecord,
    claims: Seq<SegmentOwnerClaim>,
    index: Seq<u8>,
    now: u64,
    error: HistoryStoreError,
)
    requires
        record@ == pending.record_view(index, now),
        install_fails(before, pending.id@, record, claims, now, error),
    ensures
        pending.progress_fails(before, claims, index, now, error),
{
    let stored = StoredSegment { record, deleting: false };
    let rows = choose|rows: Seq<SegmentOwner>|
        #![trigger before.owners@ + rows]
        claim_rows(rows, claims, pending.id@, now) && Some(error) == first_progress_problem(
            before.segments@.push(stored),
            before.owners@ + rows,
            claims,
            now,
            0,
        );
    assert(stored.record@ == pending.record_view(index, now));
    assert(Some(error) == first_progress_problem(
        before.segments@.push(stored),
        before.owners@ + rows,
        claims,
        now,
        0,
    ));
}

proof fn lemma_installed_is_published(
    pending: PendingSegment,
    before: HistoryStore,
    after: HistoryStore,
    record: SegmentRecord,
    claims: Seq<SegmentOwnerClaim>,
    index: Seq<u8>,
    now: u64,
)
    requires
        record@ == pending.record_view(index, now),
        record.metadata.descriptor == pending.writer@.descriptor,
        is_installed(
            before,
            after,
            pending.id@,
            record,
            claims,
            pending.block_locators@,
            pending.transaction_locators@,
            now,
        ),
        first_reserved(before.reservations@, pending.id@, 0) is Some,
        after.reservations@ == before.reservations@.remove(
            first_reserved(before.reservations@, pending.id@, 0)->0,
        ),
    ensures
        pending.is_published(before, after, claims, index, now),
{
    assert(after.segments@.drop_last() =~= before.segments@);
}

proof fn lemma_published_blocks(pending: PendingSegment, before: HistoryStore, after: HistoryStore)
    requires
        lead_into(before.block_locators@, before.segments@),
        distinct_locators(before.block_locators@),
        first_segment(before.segments@, pending.id@, 0) is None,
        !repeats_block(pending.block_locators@),
        after.segments@.len() == before.segments@.len() + 1,
        after.segments@.drop_last() == before.segments@,
        after.segments@.last().record.metadata.id@ == pending.id@,
        after.block_locators@.len() == before.block_locators@.len() + pending.block_locators@.len(),
        after.block_locators@.take(before.block_locators@.len() as int) == before.block_locators@,
        block_locator_rows(
            after.block_locators@.skip(before.block_locators@.len() as int),
            pending.block_locators@,
            pending.writer@.descriptor.chain_id,
            pending.id@,
        ),
    ensures
        lead_into(after.block_locators@, after.segments@),
        distinct_locators(after.block_locators@),
{
    let held = before.block_locators@.len() as int;
    let rows = after.block_locators@.skip(held);
    assert forall|i: int| held <= i < after.block_locators@.len() implies (
    #[trigger] after.block_locators@[i]).segment() == pending.id@ && after.block_locators@[i].hash
        == pending.block_locators@[i - held].0 by {
        assert(rows[i - held] == after.block_locators@[i]);
    }
    assert forall|i: int, j: int|
        #![trigger after.block_locators@[i], after.block_locators@[j]]
        held <= i < j < after.block_locators@.len() implies after.block_locators@[i].located()
        != after.block_locators@[j].located() by {
        assert(pending.block_locators@[i - held].0.0@ != pending.block_locators@[j - held].0.0@);
    }
    lemma_locators_added(
        before.block_locators@,
        after.block_locators@,
        before.segments@,
        after.segments@,
        pending.id@,
    );
}

proof fn lemma_published_transactions(pending: PendingSegment, before: HistoryStore, after: HistoryStore)
    requires
        lead_into(before.transaction_locators@, before.segments@),
        distinct_locators(before.transaction_locators@),
        first_segment(before.segments@, pending.id@, 0) is None,
        !repeats_transaction(pending.transaction_locators@),
        after.segments@.len() == before.segments@.len() + 1,
        after.segments@.drop_last() == before.segments@,
        after.segments@.last().record.metadata.id@ == pending.id@,
        after.transaction_locators@.len() == before.transaction_locators@.len() + pending.transaction_locators@.len(),
        after.transaction_locators@.take(before.transaction_locators@.len() as int) == before.transaction_locators@,
        transaction_locator_rows(
            after.transaction_locators@.skip(before.transaction_locators@.len() as int),
            pending.transaction_locators@,
            pending.writer@.descriptor.chain_id,
            pending.id@,
        ),
    ensures
        lead_into(after.transaction_locators@, after.segments@),
        distinct_locators(after.transaction_locators@),
{
    let held = before.transaction_locators@.len() as int;
    let rows = after.transaction_locators@.skip(held);
    assert forall|i: int| held <= i < after.transaction_locators@.len() implies (
    #[trigger] after.transaction_locators@[i]).segment() == pending.id@ && after.transaction_locators@[i].hash
        == pending.transaction_locators@[i - held].0 by {
        assert(rows[i - held] == after.transaction_locators@[i]);
    }
    assert forall|i: int, j: int|
        #![trigger after.transaction_locators@[i], after.transaction_locators@[j]]
        held <= i < j < after.transaction_locators@.len() implies after.transaction_locators@[i].located()
        != after.transaction_locators@[j].located() by {
        assert(pending.transaction_locators@[i - held].0.0@ != pending.transaction_locators@[j - held].0.0@);
    }
    lemma_locators_added(
        before.transaction_locators@,
        after.transaction_locators@,
        before.segments@,
        after.segments@,
        pending.id@,
    );
}

/// The rows are sound after publication.
proof fn lemma_published_is_wf(
    pending: PendingSegment,
    before: HistoryStore,
    after: HistoryStore,
    claims: Seq<SegmentOwnerClaim>,
    index: Seq<u8>,
    now: u64,
)
    requires
        before.wf(),
        pending.inv(),
        pending.publish_problem(before, claims, index, now) is None,
        pending.is_published(before, after, claims, index, now),
        ascending(claims),
        distinct_reservations(before.reservations@),
        forall|i: int|
            0 <= i < before.reservations@.len() && (#[trigger] before.reservations@[i]).id@
                == pending.id@ ==> before.reservations@[i].reservation == pending.reservation,
    ensures
        after.wf(),
{
    let id = pending.id@;
    let last = before.segments@.len() as int;
    let held = before.owners@.len() as int;
    lemma_first_segment(before.segments@, id, 0);
    assert forall|i: int| 0 <= i < last implies after.segments@[i] == (
    #[trigger] before.segments@[i]) by {
        assert(after.segments@.drop_last()[i] == after.segments@[i]);
    }
    assert(after.segments@[last] == after.segments@.last());
    assert(after.segments@[last].record@.id == id);
    assert(after.segments@[last].record@.facts == pending.facts(index));
    assert(pending.writer.inv());
    assert(pending.writer@.wf()) by {
        pending.writer.lemma_wf();
    }
    assert forall|i: int, j: int|
        #![trigger after.segments@[i], after.segments@[j]]
        0 <= i < j < after.segments@.len() implies after.segments@[i].record.metadata.id@
        != after.segments@[j].record.metadata.id@ by {
        assert(after.segments@[i] == before.segments@[i]);
        if j < last {
            assert(after.segments@[j] == before.segments@[j]);
        }
    }
    assert forall|i: int| 0 <= i < after.segments@.len() implies (
    #[trigger] after.segments@[i]).record.metadata.descriptor.wf() by {
        if i < last {
            assert(after.segments@[i] == before.segments@[i]);
        }
    }
    let rows = after.owners@.skip(held);
    assert forall|i: int| 0 <= i < held implies after.owners@[i] == (
    #[trigger] before.owners@[i]) by {
        assert(after.owners@.take(held)[i] == after.owners@[i]);
    }
    assert forall|i: int| held <= i < after.owners@.len() implies (
    #[trigger] after.owners@[i]).segment_id@ == id && after.owners@[i].kind == claims[i
        - held].kind && after.owners@[i].owner_id@ == claims[i - held].owner_id@ by {
        assert(rows[i - held] == after.owners@[i]);
    }
    assert forall|i: int| 0 <= i < after.owners@.len() implies first_segment(
        after.segments@,
        (#[trigger] after.owners@[i]).segment_id@,
        0,
    ) is Some by {
        let name = after.owners@[i].segment_id@;
        lemma_first_segment(after.segments@, name, 0);
        if i < held {
            assert(after.owners@[i] == before.owners@[i]);
            assert(first_segment(before.segments@, before.owners@[i].segment_id@, 0) is Some);
            lemma_first_segment(before.segments@, name, 0);
            let k = first_segment(before.segments@, name, 0)->0;
            assert(after.segments@[k] == before.segments@[k]);
        } else {
            assert(after.segments@[last].record.metadata.id@ == name);
        }
    }
    assert forall|i: int, j: int|
        #![trigger after.owners@[i], after.owners@[j]]
        0 <= i < j < after.owners@.len() implies !after.owners@[i].holds(
        after.owners@[j].segment_id@,
        after.owners@[j].kind,
        after.owners@[j].owner_id@,
    ) by {
        if j < held {
            assert(after.owners@[i] == before.owners@[i]);
            assert(after.owners@[j] == before.owners@[j]);
        } else if i < held {
            assert(after.owners@[i] == before.owners@[i]);
            assert(first_segment(before.segments@, before.owners@[i].segment_id@, 0) is Some);
        } else {
            let a = claims[i - held];
            let b = claims[j - held];
            assert(precedes(a.key(), b.key()));
            if a.kind == b.kind && a.owner_id@ == b.owner_id@ {
                lemma_irreflexive(a.key());
            }
        }
    }
    assert forall|i: int| 0 <= i < after.jobs@.len() implies (#[trigger] after.jobs@[i]).id@
        == before.jobs@[i].id@ && after.jobs@[i].wf() by {
        assert(before.jobs@[i].wf());
    }
    assert forall|i: int, j: int|
        #![trigger after.jobs@[i], after.jobs@[j]]
        0 <= i < j < after.jobs@.len() implies after.jobs@[i].id@ != after.jobs@[j].id@ by {
        assert(before.jobs@[i].id@ != before.jobs@[j].id@);
    }
    lemma_published_blocks(pending, before, after);
    lemma_published_transactions(pending, before, after);
    let at = first_reserved(before.reservations@, id, 0)->0;
    lemma_first_reserved(before.reservations@, id, 0);
    lemma_reserved_remove(before.reservations@, at);
    lemma_distinct_remove(before.reservations@, at);
    assert(before.reservations@[at].reservation == pending.reservation);
}

impl PendingSegment {
    /// Closes the segment and records it with its owners and locators, in
    /// place of its reservation. Either all of that happens, or the catalog
    /// stays as it is but for a reservation that is given up.
    pub fn publish(
        self,
        store: &mut HistoryStore,
        claims: &Vec<SegmentOwnerClaim>,
        index: &[u8],
        now: u64,
    ) -> (outcome: Result<PublishedSegment, CommitFailure>)
        requires
            self.inv(),
            old(store).wf(),
            ascending(claims@),
            self.holds_own_reservation(*old(store)),
        ensures
            final(store).wf(),
            match outcome {
                Ok(published) => {
                    &&& self.publish_problem(*old(store), claims@, index@, now) is None
                    &&& self.is_published(*old(store), *final(store), claims@, index@, now)
                    &&& published.record@ == self.record_view(index@, now)
                    &&& published.closing@ == closing_bytes(self.writer@, index@)
                    &&& row_holds(published.row, published.record@)
                },
                Err(failure) => {
                    &&& match self.publish_problem(*old(store), claims@, index@, now) {
                        Some(problem) => failure == problem,
                        None => !failure.released && self.progress_fails(
                            *old(store),
                            claims@,
                            index@,
                            now,
                            failure.error,
                        ),
                    }
                    &&& final(store).same_but_reservations(*old(store))
                    &&& final(store).reservations@ == (match first_reserved(
                        old(store).reservations@,
                        self.id@,
                        0,
                    ) {
                        Some(at) if failure.released => old(store).reservations@.remove(at),
                        _ => old(store).reservations@,
                    })
                },
            },
    {
        let ghost pending = self;
        let ghost before = *store;
        let descriptor: SegmentDescriptor = *self.writer.descriptor();
        if let Err(error) = store.validate_initial_owner_claims(&descriptor, claims) {
            store.release_reservation(&self.id);
            return Err(CommitFailure { error, released: true });
        }
        let closed: ClosedSegment = match self.writer.finish(index) {
            Ok(closed) => closed,
            Err(error) => {
                store.release_reservation(&self.id);
                return Err(
                    CommitFailure { error: HistoryStoreError::Segment(error), released: true },
                );
            },
        };
        if closed.metadata.logical_bytes > self.reservation.maximum_logical_bytes
            || closed.metadata.physical_bytes > self.reservation.maximum_physical_bytes {
            return Err(
                CommitFailure { error: HistoryStoreError::ReservationExceeded, released: false },
            );
        }
        let reserved: usize = match store.find_reserved(&self.id) {
            Some(reserved) => reserved,
            None => {
                return Err(
                    CommitFailure {
                        error: HistoryStoreError::MissingReservation(self.id.clone()),
                        released: false,
                    },
                );
            },
        };
        let record = SegmentRecord {
            metadata: closed.metadata,
            profile: self.profile,
            indexes: self.indexes,
            relative_path: relative_path(self.final_name.as_str()),
            created_at_unix_ms: now,
        };
        let row: SegmentRow = match SegmentRow::encode(&record) {
            Ok(row) => row,
            Err(error) => {
                return Err(CommitFailure { error, released: false });
            },
        };
        if store.find_segment(&self.id).is_some() {
            return Err(
                CommitFailure {
                    error: HistoryStoreError::Duplicate("raw_segments.segment_id"),
                    released: false,
                },
            );
        }
        if holds_material(store, &descriptor, self.profile, self.indexes) {
            return Err(
                CommitFailure {
                    error: HistoryStoreError::Duplicate("raw_segments_material_identity"),
                    released: false,
                },
            );
        }
        if holds_block_twice(&self.block_locators) {
            return Err(
                CommitFailure {
                    error: HistoryStoreError::Duplicate("raw_block_hash_locators"),
                    released: false,
                },
            );
        }
        if holds_transaction_twice(&self.transaction_locators) {
            return Err(
                CommitFailure {
                    error: HistoryStoreError::Duplicate("raw_transaction_locators"),
                    released: false,
                },
            );
        }
        assert(pending.publish_problem(before, claims@, index@, now) is None);
        proof {
            pending.writer.lemma_wf();
            assert forall|k: int|
                0 <= k < claims@.len() && (#[trigger] claims@[k]).kind
                    == SegmentOwnerKind::RawHistoryJob implies first_job(
                store.jobs@,
                claims@[k].owner_id@,
                0,
            ) is Some by {
                assert(before.claim_problem(claims@[k], descriptor) is None);
            }
        }
        let rows = PublicationRows {
            id: &self.id,
            record: &record,
            claims,
            block_locators: &self.block_locators,
            transaction_locators: &self.transaction_locators,
        };
        if let Err(error) = store.install(rows, reserved, now) {
            proof {
                lemma_install_fails(pending, before, record, claims@, index@, now, error);
            }
            return Err(CommitFailure { error, released: false });
        }
        proof {
            lemma_installed_is_published(pending, before, *store, record, claims@, index@, now);
            lemma_published_is_wf(pending, before, *store, claims@, index@, now);
        }
        Ok(PublishedSegment { record, row, closing: closed.closing })
    }

    /// The reservation of this name is the segment's own.
    pub open spec fn holds_own_reservation(&self, store: HistoryStore) -> bool {
        forall|i: int|
            0 <= i < store.reservations@.len() && (#[trigger] store.reservations@[i]).id@
                == self.id@ ==> store.reservations@[i].reservation == self.reservation
    }

    /// What committing answers and makes of the tables.
    pub open spec fn commit_answers(
        &self,
        before: HistoryStore,
        after: HistoryStore,
        owners: Seq<SegmentOwnerClaim>,
        index: Seq<u8>,
        now: u64,
        outcome: Result<PublishedSegment, CommitFailure>,
    ) -> bool {
        match first_bad_owner(owners, 0) {
            Some(at) => {
                &&& outcome == Err::<PublishedSegment, CommitFailure>(
                    CommitFailure {
                        error: HistoryStoreError::InvalidOwnerId(owners[at].owner_id),
                        released: false,
                    },
                )
                &&& after.same_rows(before)
            },
            None => exists|claims: Seq<SegmentOwnerClaim>|
                #[trigger] normal_list(owners, claims) && match outcome {
                    Ok(published) => {
                        &&& self.publish_problem(before, claims, index, now) is None
                        &&& self.is_published(before, after, claims, index, now)
                        &&& published.record@ == self.record_view(index, now)
                        &&& published.closing@ == closing_bytes(self.writer@, index)
                        &&& row_holds(published.row, published.record@)
                    },
                    Err(failure) => {
                        &&& match self.publish_problem(before, claims, index, now) {
                            Some(problem) => failure == problem,
                            None => !failure.released && self.progress_fails(
                                before,
                                claims,
                                index,
                                now,
                                failure.error,
                            ),
                        }
                        &&& after.same_but_reservations(before)
                        &&& after.reservations@ == (match first_reserved(
                            before.reservations@,
                            self.id@,
                            0,
                        ) {
                            Some(at) if failure.released => before.reservations@.remove(at),
                            _ => before.reservations@,
                        })
                    },
                },
        }
    }

    /// Publishes the segment under the claims of its owners, whatever their
    /// order and repetition.
    pub fn commit(
        self,
        store: &mut HistoryStore,
        owners: &Vec<SegmentOwnerClaim>,
        index: &[u8],
        now: u64,
    ) -> (outcome: Result<PublishedSegment, CommitFailure>)
        requires
            self.inv(),
            old(store).wf(),
            self.holds_own_reservation(*old(store)),
        ensures
            final(store).wf(),
            self.commit_answers(*old(store), *final(store), owners@, index@, now, outcome),
    {
        let claims: Vec<SegmentOwnerClaim> = match normalize_owner_claims(owners) {
            Ok(claims) => claims,
            Err(error) => {
                return Err(CommitFailure { error, released: false });
            },
        };
        assert(normal_list(owners@, claims@));
        self.publish(store, &claims, index, now)
    }

    /// Gives up the segment without publishing coverage.
    pub fn abort(self, store: &mut HistoryStore) -> (released: bool)
        requires
            old(store).wf(),
        ensures
            final(store).wf(),
            final(store).same_but_reservations(*old(store)),
            match first_reserved(old(store).reservations@, self.id@, 0) {
                Some(at) => released && final(store).reservations@ == old(
                    store,
                ).reservations@.remove(at),
                None => !released && final(store).reservations@ == old(store).reservations@,
            },
    {
        store.release_reservation(&self.id)
    }
}

} // verus!
