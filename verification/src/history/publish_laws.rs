//! What publishing a segment makes readable, and what a refusal leaves.

use crate::history::catalog::{
    first_bad_owner, first_closed, first_reserved, first_segment, owned_by, DiskUsage, HistoryStore, ReservedSegment, SegmentOwner,
    SegmentOwnerClaim,
};
use crate::history::deletion_laws::{lemma_first_closed, lemma_readable, readable, same_elsewhere};
use crate::history::job::normal_list;
use crate::history::layout::SegmentDescriptor;
use crate::history::lookups::{block_hits, transaction_hits};
use crate::history::ownership::{lemma_first_reserved, lemma_first_segment};
use crate::history::pending::{law_release_undoes_admission, PendingSegment};
use crate::history::publish::{CommitFailure, PublishedSegment};
use crate::order::{has_key, Keyed};
use crate::primitives::{BlockHash, BlockNumber, ChainId, TransactionHash};
use vstd::prelude::*;
use vstd::utf8::{encode_utf8, encode_utf8_decode_utf8};

verus! {

/// Some claim is of this kind and owner.
pub open spec fn claimed(claims: Seq<SegmentOwnerClaim>, row: SegmentOwner) -> bool {
    exists|k: int|
        0 <= k < claims.len() && (#[trigger] claims[k]).kind == row.kind && claims[k].owner_id@
            == row.owner_id@
}

/// Claims with one key are of one kind and one owner.
pub proof fn lemma_claim_key(left: SegmentOwnerClaim, right: SegmentOwnerClaim)
    requires
        left.key() == right.key(),
    ensures
        left.kind == right.kind,
        left.owner_id@ == right.owner_id@,
{
    assert(left.key()[0] == left.kind.spec_place());
    assert(right.key()[0] == right.kind.spec_place());
    assert(left.key().skip(1) =~= encode_utf8(left.owner_id@));
    assert(right.key().skip(1) =~= encode_utf8(right.owner_id@));
    encode_utf8_decode_utf8(left.owner_id@);
    encode_utf8_decode_utf8(right.owner_id@);
}

/// A lookup of the block's hash finds it in the segment, at its place.
pub open spec fn block_is_found(
    store: HistoryStore,
    chain_id: ChainId,
    id: Seq<char>,
    locator: (BlockHash, BlockNumber),
) -> bool {
    let hits = block_hits(store, chain_id, locator.0, store.block_locators@.len() as int);
    exists|h: int|
        0 <= h < hits.len() && (#[trigger] hits[h]).locator.segment_id@ == id
            && hits[h].locator.block_number == locator.1
}

proof fn lemma_block_is_hit(store: HistoryStore, at: int, count: int) -> (h: int)
    requires
        0 <= at < count <= store.block_locators@.len(),
        readable(store.segments@, store.block_locators@[at].locator.segment_id@) is Some,
    ensures
        ({
            let row = store.block_locators@[at];
            let hits = block_hits(store, row.chain_id, row.hash, count);
            0 <= h < hits.len() && hits[h].locator == row.locator
        }),
    decreases count,
{
    let row = store.block_locators@[at];
    let before = block_hits(store, row.chain_id, row.hash, count - 1);
    if at == count - 1 {
        before.len() as int
    } else {
        lemma_block_is_hit(store, at, count - 1)
    }
}

/// A lookup of the transaction's hash finds it in the segment, at its place.
pub open spec fn transaction_is_found(
    store: HistoryStore,
    chain_id: ChainId,
    id: Seq<char>,
    locator: (TransactionHash, BlockNumber, u32),
) -> bool {
    let hits = transaction_hits(store, chain_id, locator.0, store.transaction_locators@.len() as int);
    exists|h: int|
        0 <= h < hits.len() && (#[trigger] hits[h]).locator.segment_id@ == id
            && hits[h].locator.block_number == locator.1
            && hits[h].locator.transaction_index == locator.2
}

proof fn lemma_transaction_is_hit(store: HistoryStore, at: int, count: int) -> (h: int)
    requires
        0 <= at < count <= store.transaction_locators@.len(),
        readable(store.segments@, store.transaction_locators@[at].locator.segment_id@) is Some,
    ensures
        ({
            let row = store.transaction_locators@[at];
            let hits = transaction_hits(store, row.chain_id, row.hash, count);
            0 <= h < hits.len() && hits[h].locator == row.locator
        }),
    decreases count,
{
    let row = store.transaction_locators@[at];
    let before = transaction_hits(store, row.chain_id, row.hash, count - 1);
    if at == count - 1 {
        before.len() as int
    } else {
        lemma_transaction_is_hit(store, at, count - 1)
    }
}

/// A segment that was committed is readable under its name, exactly once and
/// as it was written, and every other name is answered as before. Its owners
/// are those that claimed it, its blocks and transactions are found in it, and
/// its reservation is gone.
pub proof fn law_committed_segments_are_readable(
    pending: PendingSegment,
    before: HistoryStore,
    after: HistoryStore,
    owners: Seq<SegmentOwnerClaim>,
    index: Seq<u8>,
    now: u64,
    outcome: Result<PublishedSegment, CommitFailure>,
)
    requires
        before.consistent(),
        after.consistent(),
        pending.commit_answers(before, after, owners, index, now, outcome),
        outcome is Ok,
    ensures
        readable(before.segments@, pending.id@) is None,
        readable(after.segments@, pending.id@) is Some,
        readable(after.segments@, pending.id@)->0@ == pending.record_view(index, now),
        outcome->Ok_0.record@ == pending.record_view(index, now),
        forall|i: int|
            0 <= i < after.segments@.len() - 1 ==> (
            #[trigger] after.segments@[i]).record.metadata.id@ != pending.id@,
        same_elsewhere(before.segments@, after.segments@, pending.id@),
        forall|k: int|
            0 <= k < owners.len() ==> owned_by(
                after.owners@,
                pending.id@,
                (#[trigger] owners[k]).kind,
                owners[k].owner_id@,
            ),
        forall|i: int|
            0 <= i < after.owners@.len() && (#[trigger] after.owners@[i]).segment_id@ == pending.id@
                ==> claimed(owners, after.owners@[i]),
        forall|i: int|
            0 <= i < before.owners@.len() ==> (#[trigger] before.owners@[i]).segment_id@
                != pending.id@ && after.owners@[i] == before.owners@[i],
        first_reserved(after.reservations@, pending.id@, 0) is None,
        forall|k: int|
            0 <= k < pending.block_locators@.len() ==> block_is_found(
                after,
                pending.writer@.descriptor.chain_id,
                pending.id@,
                #[trigger] pending.block_locators@[k],
            ),
        forall|k: int|
            0 <= k < pending.transaction_locators@.len() ==> transaction_is_found(
                after,
                pending.writer@.descriptor.chain_id,
                pending.id@,
                #[trigger] pending.transaction_locators@[k],
            ),
{
    let id = pending.id@;
    let claims = choose|claims: Seq<SegmentOwnerClaim>|
        #[trigger] normal_list(owners, claims) && pending.publish_problem(
            before,
            claims,
            index,
            now,
        ) is None && pending.is_published(before, after, claims, index, now);
    let last = before.segments@.len() as int;
    lemma_first_segment(before.segments@, id, 0);
    lemma_first_closed(before.segments@, id, 0);
    assert forall|i: int| 0 <= i < last implies after.segments@[i] == (
    #[trigger] before.segments@[i]) by {
        assert(after.segments@.drop_last()[i] == after.segments@[i]);
    }
    assert(after.segments@[last] == after.segments@.last());
    assert(after.segments@[last].record@.id == id);
    lemma_readable(after.segments@, last);
    assert forall|other: Seq<char>| other != id implies #[trigger] readable(after.segments@, other)
        == readable(before.segments@, other) by {
        lemma_first_closed(before.segments@, other, 0);
        lemma_first_closed(after.segments@, other, 0);
        match readable(before.segments@, other) {
            Some(_) => {
                let at = first_closed(before.segments@, other, 0)->0;
                assert(after.segments@[at] == before.segments@[at]);
                lemma_readable(after.segments@, at);
            },
            None => {
                if let Some(at) = first_closed(after.segments@, other, 0) {
                    assert(after.segments@[at] == before.segments@[at]);
                    assert(before.segments@[at].is_closed(other));
                }
            },
        }
    }
    let held = before.owners@.len() as int;
    let rows = after.owners@.skip(held);
    assert forall|i: int| 0 <= i < held implies (#[trigger] before.owners@[i]).segment_id@ != id
        && after.owners@[i] == before.owners@[i] by {
        assert(after.owners@.take(held)[i] == after.owners@[i]);
        assert(first_segment(before.segments@, before.owners@[i].segment_id@, 0) is Some);
    }
    assert forall|k: int| 0 <= k < owners.len() implies owned_by(
        after.owners@,
        id,
        (#[trigger] owners[k]).kind,
        owners[k].owner_id@,
    ) by {
        assert(has_key(owners, owners[k].key()));
        assert(has_key(claims, owners[k].key()));
        let c = choose|c: int| 0 <= c < claims.len() && #[trigger] claims[c].key()
            == owners[k].key();
        lemma_claim_key(claims[c], owners[k]);
        assert(rows[c] == after.owners@[held + c]);
        assert(rows[c].holds(id, claims[c].kind, claims[c].owner_id@));
        assert(after.owners@[held + c].holds(id, owners[k].kind, owners[k].owner_id@));
    }
    assert forall|i: int|
        0 <= i < after.owners@.len() && (#[trigger] after.owners@[i]).segment_id@
            == id implies claimed(owners, after.owners@[i]) by {
        if i < held {
            assert(before.owners@[i].segment_id@ != id);
        } else {
            let c = i - held;
            assert(rows[c] == after.owners@[i]);
            assert(rows[c].holds(id, claims[c].kind, claims[c].owner_id@));
            assert(owners.contains(claims[c]));
            let k = choose|k: int| 0 <= k < owners.len() && owners[k] == claims[c];
            assert(owners[k].kind == after.owners@[i].kind);
        }
    }
    let at = first_reserved(before.reservations@, id, 0)->0;
    lemma_first_reserved(before.reservations@, id, 0);
    lemma_first_reserved(after.reservations@, id, 0);
    assert forall|i: int| 0 <= i < after.reservations@.len() implies (
    #[trigger] after.reservations@[i]).id@ != id by {
        if i < at {
            assert(after.reservations@[i] == before.reservations@[i]);
        } else {
            assert(after.reservations@[i] == before.reservations@[i + 1]);
            assert(before.reservations@[at].id@ != before.reservations@[i + 1].id@);
        }
    }
    assert forall|k: int| 0 <= k < pending.block_locators@.len() implies block_is_found(
        after,
        pending.writer@.descriptor.chain_id,
        id,
        #[trigger] pending.block_locators@[k],
    ) by {
        let held = before.block_locators@.len() as int;
        let row = after.block_locators@[held + k];
        assert(after.block_locators@.skip(held)[k] == row);
        let h = lemma_block_is_hit(after, held + k, after.block_locators@.len() as int);
        let hits = block_hits(after, row.chain_id, row.hash, after.block_locators@.len() as int);
        assert(hits[h].locator.segment_id@ == id);
    }
    assert forall|k: int| 0 <= k < pending.transaction_locators@.len() implies transaction_is_found(
        after,
        pending.writer@.descriptor.chain_id,
        id,
        #[trigger] pending.transaction_locators@[k],
    ) by {
        let held = before.transaction_locators@.len() as int;
        let row = after.transaction_locators@[held + k];
        assert(after.transaction_locators@.skip(held)[k] == row);
        let h = lemma_transaction_is_hit(after, held + k, after.transaction_locators@.len() as int);
        let hits = transaction_hits(after, row.chain_id, row.hash, after.transaction_locators@.len() as int);
        assert(hits[h].locator.segment_id@ == id);
    }
}

/// A commit that was refused publishes nothing. Where it gives its reservation
/// up, that is all that changes; otherwise nothing changes.
pub proof fn law_refused_commits_publish_nothing(
    pending: PendingSegment,
    before: HistoryStore,
    after: HistoryStore,
    owners: Seq<SegmentOwnerClaim>,
    index: Seq<u8>,
    now: u64,
    failure: CommitFailure,
)
    requires
        pending.commit_answers(
            before,
            after,
            owners,
            index,
            now,
            Err::<PublishedSegment, CommitFailure>(failure),
        ),
    ensures
        after.same_but_reservations(before),
        !failure.released ==> after.same_rows(before),
        failure.released ==> after.reservations@ == (match first_reserved(
            before.reservations@,
            pending.id@,
            0,
        ) {
            Some(at) => before.reservations@.remove(at),
            None => before.reservations@,
        }),
{
}

/// A refused commit that gives its reservation up undoes the admission of its
/// segment: the tables are those from before it was begun.
pub proof fn law_refused_commits_undo_admission(
    initial: HistoryStore,
    admitted: HistoryStore,
    after: HistoryStore,
    pending: PendingSegment,
    row: ReservedSegment,
    owners: Seq<SegmentOwnerClaim>,
    index: Seq<u8>,
    now: u64,
    failure: CommitFailure,
)
    requires
        first_reserved(initial.reservations@, row.id@, 0) is None,
        row.id@ == pending.id@,
        admitted.same_but_reservations(initial),
        admitted.reservations@ == initial.reservations@.push(row),
        pending.commit_answers(
            admitted,
            after,
            owners,
            index,
            now,
            Err::<PublishedSegment, CommitFailure>(failure),
        ),
        failure.released,
    ensures
        after.same_rows(initial),
        forall|disk: DiskUsage| #[trigger] after.spec_stats(disk) == initial.spec_stats(disk),
{
    law_refused_commits_publish_nothing(pending, admitted, after, owners, index, now, failure);
    law_release_undoes_admission(initial, admitted, after, row);
}

proof fn lemma_refused_claim(
    store: HistoryStore,
    claims: Seq<SegmentOwnerClaim>,
    descriptor: SegmentDescriptor,
    from: int,
    at: int,
)
    requires
        0 <= from <= at < claims.len(),
        store.claim_problem(claims[at], descriptor) is Some,
    ensures
        store.first_claim_problem(claims, descriptor, from) is Some,
        store.first_claim_problem(claims, descriptor, from)->0 is InvalidJob
            || store.first_claim_problem(claims, descriptor, from)->0 is UnknownJob,
    decreases at - from,
{
    if store.claim_problem(claims[from], descriptor) is None {
        lemma_refused_claim(store, claims, descriptor, from + 1, at);
    }
}

/// A commit under the claim of a raw-history job that is unknown, has ended or
/// cannot use the material is refused and undoes the admission of its segment:
/// the tables, and all that is counted of them, are those from before it was
/// begun.
pub proof fn law_refused_claims_undo_admission(
    initial: HistoryStore,
    admitted: HistoryStore,
    after: HistoryStore,
    pending: PendingSegment,
    row: ReservedSegment,
    owners: Seq<SegmentOwnerClaim>,
    refused: int,
    index: Seq<u8>,
    now: u64,
    outcome: Result<PublishedSegment, CommitFailure>,
)
    requires
        first_reserved(initial.reservations@, row.id@, 0) is None,
        row.id@ == pending.id@,
        admitted.same_but_reservations(initial),
        admitted.reservations@ == initial.reservations@.push(row),
        first_bad_owner(owners, 0) is None,
        0 <= refused < owners.len(),
        admitted.claim_problem(owners[refused], pending.writer@.descriptor) is Some,
        pending.commit_answers(admitted, after, owners, index, now, outcome),
    ensures
        outcome is Err,
        outcome->Err_0.error is InvalidJob || outcome->Err_0.error is UnknownJob,
        after.same_rows(initial),
        forall|disk: DiskUsage| #[trigger] after.spec_stats(disk) == initial.spec_stats(disk),
{
    let descriptor = pending.writer@.descriptor;
    let claims = choose|claims: Seq<SegmentOwnerClaim>|
        #[trigger] normal_list(owners, claims) && match outcome {
            Ok(published) => pending.publish_problem(admitted, claims, index, now) is None,
            Err(failure) => match pending.publish_problem(admitted, claims, index, now) {
                Some(problem) => failure == problem,
                None => true,
            },
        };
    assert(has_key(owners, owners[refused].key()));
    assert(has_key(claims, owners[refused].key()));
    let c = choose|c: int| 0 <= c < claims.len() && #[trigger] claims[c].key()
        == owners[refused].key();
    lemma_claim_key(claims[c], owners[refused]);
    assert(admitted.claim_problem(claims[c], descriptor) is Some);
    lemma_refused_claim(admitted, claims, descriptor, 0, c);
    assert(pending.publish_problem(admitted, claims, index, now) is Some);
    law_refused_commits_undo_admission(
        initial,
        admitted,
        after,
        pending,
        row,
        owners,
        index,
        now,
        outcome->Err_0,
    );
}

} // verus!
