//! Where a lookup by hash leads.

use crate::frame::{BlockFrame, Material};
use crate::history::catalog::{first_closed, HistoryStore, SegmentOwnerClaim};
use crate::history::deletion_laws::{lemma_first_closed, lemma_readable};
use crate::history::error::HistoryStoreError;
use crate::history::job::normal_list;
use crate::history::layout::VerificationClass;
use crate::history::locators::Locates;
use crate::history::lookups::{block_hits, transaction_hits, RankedBlock, RankedTransaction};
use crate::history::pending::PendingSegment;
use crate::history::publish::{CommitFailure, PublishedSegment};
use crate::history::publish_laws::law_committed_segments_are_readable;
use crate::history::retention::OfSegment;
use crate::history::rows::SegmentRecord;
use crate::history::segment::AppendedRecord;
use crate::order::{has_key, precedes, Keyed};
use crate::primitives::{BlockHash, ChainId, TransactionHash, TrustModel};
use vstd::prelude::*;
use vstd::utf8::{encode_utf8, encode_utf8_decode_utf8};

verus! {

/// The first class guarantees more than the second.
pub open spec fn verified_more(left: VerificationClass, right: VerificationClass) -> bool {
    (left is Cryptographic && !(right is Cryptographic)) || (left is TrustedDataset
        && right is BestEffort)
}

/// The first level is trusted more than the second.
pub open spec fn trusted_more(left: TrustModel, right: TrustModel) -> bool {
    (left is ProtocolVerified && !(right is ProtocolVerified)) || (left is TrustedDataset && (
    right is TrustedManifest || right is Untrusted)) || (left is TrustedManifest
        && right is Untrusted)
}

/// The first segment guarantees more than the second: verification counts
/// first, and then trust.
pub open spec fn guarantees_more(left: SegmentRecord, right: SegmentRecord) -> bool {
    let first = left.metadata.descriptor;
    let second = right.metadata.descriptor;
    verified_more(first.verification, second.verification) || (first.verification
        == second.verification && trusted_more(first.trust, second.trust))
}

/// Appending a frame notes where it can be found again, if that is asked for:
/// its hash with its number, and the hash of every transaction with its
/// block's number and its own index. Nothing noted before is lost, and a frame
/// that is refused is not noted.
pub proof fn law_appends_note_where_a_frame_is(
    before: PendingSegment,
    after: PendingSegment,
    frame: BlockFrame,
    shape_problem: Option<&'static str>,
    logical: Seq<u8>,
    outcome: Result<AppendedRecord, HistoryStoreError>,
)
    requires
        before.append_answers(after, frame, shape_problem, logical, outcome),
    ensures
        after.id == before.id,
        after.indexes == before.indexes,
        after.writer@.descriptor == before.writer@.descriptor,
        before.block_locators@.len() <= after.block_locators@.len(),
        forall|k: int|
            0 <= k < before.block_locators@.len() ==> after.block_locators@[k]
                == #[trigger] before.block_locators@[k],
        before.transaction_locators@.len() <= after.transaction_locators@.len(),
        forall|k: int|
            0 <= k < before.transaction_locators@.len() ==> after.transaction_locators@[k]
                == #[trigger] before.transaction_locators@[k],
        outcome is Err ==> after.block_locators@ == before.block_locators@
            && after.transaction_locators@ == before.transaction_locators@,
        outcome is Ok ==> if before.indexes.block_hash {
            after.block_locators@.len() == before.block_locators@.len() + 1
                && after.block_locators@.last() == (frame.block.hash, frame.block.number)
        } else {
            after.block_locators@.len() == before.block_locators@.len()
        },
        outcome is Ok ==> if before.indexes.transaction_hash {
            frame.transactions matches Material::Complete(transactions) && {
                &&& after.transaction_locators@.len() == before.transaction_locators@.len()
                    + transactions@.len()
                &&& forall|i: int|
                    0 <= i < transactions@.len()
                        ==> after.transaction_locators@[before.transaction_locators@.len() + i]
                        == ((#[trigger] transactions@[i]).hash, frame.block.number, transactions@[i].index)
            }
        } else {
            after.transaction_locators@.len() == before.transaction_locators@.len()
        },
{
}

proof fn lemma_block_hit_is_row(
    store: HistoryStore,
    chain_id: ChainId,
    hash: BlockHash,
    count: int,
    h: int,
)
    requires
        0 <= count <= store.block_locators@.len(),
        0 <= h < block_hits(store, chain_id, hash, count).len(),
    ensures
        ({
            let hit = block_hits(store, chain_id, hash, count)[h];
            let at = first_closed(store.segments@, hit.locator.segment_id@, 0);
            &&& at is Some
            &&& hit.verification
                == store.segments@[at->0].record.metadata.descriptor.verification.spec_rank()
            &&& hit.trust == store.segments@[at->0].record.metadata.descriptor.trust.spec_rank()
            &&& exists|r: int|
                0 <= r < count && (#[trigger] store.block_locators@[r]).chain_id == chain_id
                    && store.block_locators@[r].hash == hash && store.block_locators@[r].locator == hit.locator
        }),
    decreases count,
{
    let before = block_hits(store, chain_id, hash, count - 1);
    if h < before.len() {
        lemma_block_hit_is_row(store, chain_id, hash, count - 1, h);
        let hit = before[h];
        let r = choose|r: int|
            0 <= r < count - 1 && (#[trigger] store.block_locators@[r]).chain_id == chain_id
                && store.block_locators@[r].hash == hash && store.block_locators@[r].locator == hit.locator;
        assert(store.block_locators@[r].locator == hit.locator);
    } else {
        assert(store.block_locators@[count - 1].hash == hash);
    }
}

proof fn lemma_block_row_is_hit(
    store: HistoryStore,
    chain_id: ChainId,
    hash: BlockHash,
    count: int,
    r: int,
) -> (h: int)
    requires
        0 <= r < count <= store.block_locators@.len(),
        store.block_locators@[r].chain_id == chain_id,
        store.block_locators@[r].hash == hash,
        first_closed(store.segments@, store.block_locators@[r].locator.segment_id@, 0) is Some,
    ensures
        0 <= h < block_hits(store, chain_id, hash, count).len(),
        block_hits(store, chain_id, hash, count)[h].locator == store.block_locators@[r].locator,
    decreases count,
{
    let before = block_hits(store, chain_id, hash, count - 1);
    if r == count - 1 {
        before.len() as int
    } else {
        lemma_block_row_is_hit(store, chain_id, hash, count - 1, r)
    }
}

proof fn lemma_block_key(left: RankedBlock, right: RankedBlock)
    requires
        left.key() == right.key(),
    ensures
        left.locator.segment_id@ == right.locator.segment_id@,
{
    assert(left.key().skip(2) =~= encode_utf8(left.locator.segment_id@));
    assert(right.key().skip(2) =~= encode_utf8(right.locator.segment_id@));
    encode_utf8_decode_utf8(left.locator.segment_id@);
    encode_utf8_decode_utf8(right.locator.segment_id@);
}

/// Every answer to a lookup of a block hash is the place that some row of that
/// chain and hash names, in a readable segment.
pub proof fn law_block_hits_are_rows_of_the_hash(
    store: HistoryStore,
    chain_id: ChainId,
    hash: BlockHash,
    hits: Seq<RankedBlock>,
    h: int,
) -> (place: (int, int))
    requires
        store.consistent(),
        normal_list(block_hits(store, chain_id, hash, store.block_locators@.len() as int), hits),
        0 <= h < hits.len(),
    ensures
        0 <= place.0 < store.block_locators@.len(),
        store.block_locators@[place.0].chain_id == chain_id,
        store.block_locators@[place.0].hash == hash,
        store.block_locators@[place.0].locator == hits[h].locator,
        0 <= place.1 < store.segments@.len(),
        !store.segments@[place.1].deleting,
        store.segments@[place.1].record.metadata.id@ == hits[h].locator.segment_id@,
{
    let count = store.block_locators@.len() as int;
    let all = block_hits(store, chain_id, hash, count);
    assert(all.contains(hits[h]));
    let a = choose|a: int| 0 <= a < all.len() && all[a] == hits[h];
    lemma_block_hit_is_row(store, chain_id, hash, count, a);
    let r = choose|r: int|
        0 <= r < count && (#[trigger] store.block_locators@[r]).chain_id == chain_id
            && store.block_locators@[r].hash == hash && store.block_locators@[r].locator == all[a].locator;
    lemma_first_closed(store.segments@, hits[h].locator.segment_id@, 0);
    (r, first_closed(store.segments@, hits[h].locator.segment_id@, 0)->0)
}

/// Every row of the chain and the hash that leads into a readable segment is
/// among the answers to a lookup of the block hash.
pub proof fn law_block_rows_of_the_hash_are_hit(
    store: HistoryStore,
    chain_id: ChainId,
    hash: BlockHash,
    hits: Seq<RankedBlock>,
    r: int,
    s: int,
) -> (h: int)
    requires
        store.consistent(),
        normal_list(block_hits(store, chain_id, hash, store.block_locators@.len() as int), hits),
        0 <= r < store.block_locators@.len(),
        store.block_locators@[r].chain_id == chain_id,
        store.block_locators@[r].hash == hash,
        0 <= s < store.segments@.len(),
        !store.segments@[s].deleting,
        store.segments@[s].record.metadata.id@ == store.block_locators@[r].locator.segment_id@,
    ensures
        0 <= h < hits.len(),
        hits[h].locator == store.block_locators@[r].locator,
{
    let count = store.block_locators@.len() as int;
    let all = block_hits(store, chain_id, hash, count);
    lemma_first_closed(store.segments@, store.block_locators@[r].locator.segment_id@, 0);
    assert(store.segments@[s].is_closed(store.block_locators@[r].locator.segment_id@));
    let a = lemma_block_row_is_hit(store, chain_id, hash, count, r);
    assert(has_key(all, all[a].key()));
    assert(has_key(hits, all[a].key()));
    let h = choose|h: int| 0 <= h < hits.len() && #[trigger] hits[h].key() == all[a].key();
    lemma_block_key(hits[h], all[a]);
    let place = law_block_hits_are_rows_of_the_hash(store, chain_id, hash, hits, h);
    let q = place.0;
    assert(store.block_locators@[q].located() == store.block_locators@[r].located());
    assert(store.block_locators@[q].segment() == store.block_locators@[r].segment());
    assert(q == r);
    h
}

/// No two answers to a lookup of a block hash lead into one segment.
pub proof fn law_block_hits_are_in_different_segments(
    store: HistoryStore,
    chain_id: ChainId,
    hash: BlockHash,
    hits: Seq<RankedBlock>,
    h: int,
    k: int,
)
    requires
        normal_list(block_hits(store, chain_id, hash, store.block_locators@.len() as int), hits),
        0 <= h < k < hits.len(),
    ensures
        hits[h].locator.segment_id@ != hits[k].locator.segment_id@,
{
    let count = store.block_locators@.len() as int;
    let all = block_hits(store, chain_id, hash, count);
    if hits[h].locator.segment_id@ == hits[k].locator.segment_id@ {
        assert(all.contains(hits[h]));
        assert(all.contains(hits[k]));
        let a = choose|a: int| 0 <= a < all.len() && all[a] == hits[h];
        let b = choose|b: int| 0 <= b < all.len() && all[b] == hits[k];
        lemma_block_hit_is_row(store, chain_id, hash, count, a);
        lemma_block_hit_is_row(store, chain_id, hash, count, b);
        assert(hits[h].key() =~= hits[k].key());
        assert(precedes(hits[h].key(), hits[k].key()));
        crate::order::lemma_irreflexive(hits[h].key());
    }
}

/// Of two answers to a lookup of a block hash, the later one is not from a
/// segment that guarantees more.
pub proof fn law_block_hits_come_strongest_first(
    store: HistoryStore,
    chain_id: ChainId,
    hash: BlockHash,
    hits: Seq<RankedBlock>,
    h: int,
    k: int,
    s: int,
    t: int,
)
    requires
        store.consistent(),
        normal_list(block_hits(store, chain_id, hash, store.block_locators@.len() as int), hits),
        0 <= h < k < hits.len(),
        0 <= s < store.segments@.len(),
        !store.segments@[s].deleting,
        store.segments@[s].record.metadata.id@ == hits[h].locator.segment_id@,
        0 <= t < store.segments@.len(),
        !store.segments@[t].deleting,
        store.segments@[t].record.metadata.id@ == hits[k].locator.segment_id@,
    ensures
        !guarantees_more(store.segments@[t].record, store.segments@[s].record),
{
    let count = store.block_locators@.len() as int;
    let all = block_hits(store, chain_id, hash, count);
    assert(all.contains(hits[h]));
    assert(all.contains(hits[k]));
    let a = choose|a: int| 0 <= a < all.len() && all[a] == hits[h];
    let b = choose|b: int| 0 <= b < all.len() && all[b] == hits[k];
    lemma_block_hit_is_row(store, chain_id, hash, count, a);
    lemma_block_hit_is_row(store, chain_id, hash, count, b);
    lemma_readable(store.segments@, s);
    lemma_readable(store.segments@, t);
    let left = hits[h].key();
    let right = hits[k].key();
    assert(precedes(left, right));
    assert(left[0] == 255 - hits[h].verification && left[1] == 255 - hits[h].trust);
    assert(right[0] == 255 - hits[k].verification && right[1] == 255 - hits[k].trust);
    if left[0] == right[0] {
        assert(precedes(left.drop_first(), right.drop_first()));
        assert(left.drop_first()[0] == left[1] && right.drop_first()[0] == right[1]);
    }
}

/// Once a segment is committed, a lookup of a block that was noted in it leads
/// into it, to the place that was noted, and to no other place in it.
pub proof fn law_committed_blocks_are_looked_up(
    pending: PendingSegment,
    before: HistoryStore,
    after: HistoryStore,
    owners: Seq<SegmentOwnerClaim>,
    index: Seq<u8>,
    now: u64,
    outcome: Result<PublishedSegment, CommitFailure>,
    k: int,
    hits: Seq<RankedBlock>,
)
    requires
        before.consistent(),
        after.consistent(),
        pending.commit_answers(before, after, owners, index, now, outcome),
        outcome is Ok,
        0 <= k < pending.block_locators@.len(),
        normal_list(
            block_hits(
                after,
                pending.writer@.descriptor.chain_id,
                pending.block_locators@[k].0,
                after.block_locators@.len() as int,
            ),
            hits,
        ),
    ensures
        exists|h: int|
            0 <= h < hits.len() && (#[trigger] hits[h]).locator.segment_id@ == pending.id@
                && hits[h].locator.block_number == pending.block_locators@[k].1,
        forall|h: int|
            0 <= h < hits.len() && (#[trigger] hits[h]).locator.segment_id@ == pending.id@
                ==> hits[h].locator.block_number == pending.block_locators@[k].1,
{
    let chain_id = pending.writer@.descriptor.chain_id;
    let hash = pending.block_locators@[k].0;
    law_committed_segments_are_readable(pending, before, after, owners, index, now, outcome);
    let claims = choose|claims: Seq<SegmentOwnerClaim>|
        #[trigger] normal_list(owners, claims) && pending.publish_problem(before, claims, index, now)
            is None && pending.is_published(before, after, claims, index, now);
    let held = before.block_locators@.len() as int;
    let row = after.block_locators@[held + k];
    assert(after.block_locators@.skip(held)[k] == row);
    assert(row.hash == hash && row.chain_id == chain_id && row.locator.segment_id@ == pending.id@);
    let last = after.segments@.len() - 1;
    assert(after.segments@[last] == after.segments@.last());
    assert(after.segments@[last].record@.id == pending.id@);
    assert(!after.segments@[last].deleting);
    let h = law_block_rows_of_the_hash_are_hit(after, chain_id, hash, hits, held + k, last);
    assert(hits[h].locator.segment_id@ == pending.id@);
    assert forall|g: int|
        0 <= g < hits.len() && (#[trigger] hits[g]).locator.segment_id@
            == pending.id@ implies hits[g].locator.block_number == pending.block_locators@[k].1 by {
        if g < h {
            law_block_hits_are_in_different_segments(after, chain_id, hash, hits, g, h);
        } else if h < g {
            law_block_hits_are_in_different_segments(after, chain_id, hash, hits, h, g);
        }
    }
}

proof fn lemma_transaction_hit_is_row(
    store: HistoryStore,
    chain_id: ChainId,
    hash: TransactionHash,
    count: int,
    h: int,
)
    requires
        0 <= count <= store.transaction_locators@.len(),
        0 <= h < transaction_hits(store, chain_id, hash, count).len(),
    ensures
        ({
            let hit = transaction_hits(store, chain_id, hash, count)[h];
            let at = first_closed(store.segments@, hit.locator.segment_id@, 0);
            &&& at is Some
            &&& hit.verification
                == store.segments@[at->0].record.metadata.descriptor.verification.spec_rank()
            &&& hit.trust == store.segments@[at->0].record.metadata.descriptor.trust.spec_rank()
            &&& exists|r: int|
                0 <= r < count && (#[trigger] store.transaction_locators@[r]).chain_id == chain_id
                    && store.transaction_locators@[r].hash == hash && store.transaction_locators@[r].locator == hit.locator
        }),
    decreases count,
{
    let before = transaction_hits(store, chain_id, hash, count - 1);
    if h < before.len() {
        lemma_transaction_hit_is_row(store, chain_id, hash, count - 1, h);
        let hit = before[h];
        let r = choose|r: int|
            0 <= r < count - 1 && (#[trigger] store.transaction_locators@[r]).chain_id == chain_id
                && store.transaction_locators@[r].hash == hash && store.transaction_locators@[r].locator == hit.locator;
        assert(store.transaction_locators@[r].locator == hit.locator);
    } else {
        assert(store.transaction_locators@[count - 1].hash == hash);
    }
}

proof fn lemma_transaction_row_is_hit(
    store: HistoryStore,
    chain_id: ChainId,
    hash: TransactionHash,
    count: int,
    r: int,
) -> (h: int)
    requires
        0 <= r < count <= store.transaction_locators@.len(),
        store.transaction_locators@[r].chain_id == chain_id,
        store.transaction_locators@[r].hash == hash,
        first_closed(store.segments@, store.transaction_locators@[r].locator.segment_id@, 0) is Some,
    ensures
        0 <= h < transaction_hits(store, chain_id, hash, count).len(),
        transaction_hits(store, chain_id, hash, count)[h].locator == store.transaction_locators@[r].locator,
    decreases count,
{
    let before = transaction_hits(store, chain_id, hash, count - 1);
    if r == count - 1 {
        before.len() as int
    } else {
        lemma_transaction_row_is_hit(store, chain_id, hash, count - 1, r)
    }
}

proof fn lemma_transaction_key(left: RankedTransaction, right: RankedTransaction)
    requires
        left.key() == right.key(),
    ensures
        left.locator.segment_id@ == right.locator.segment_id@,
{
    assert(left.key().skip(2) =~= encode_utf8(left.locator.segment_id@));
    assert(right.key().skip(2) =~= encode_utf8(right.locator.segment_id@));
    encode_utf8_decode_utf8(left.locator.segment_id@);
    encode_utf8_decode_utf8(right.locator.segment_id@);
}

/// Every answer to a lookup of a transaction hash is the place that some row of that
/// chain and hash names, in a readable segment.
pub proof fn law_transaction_hits_are_rows_of_the_hash(
    store: HistoryStore,
    chain_id: ChainId,
    hash: TransactionHash,
    hits: Seq<RankedTransaction>,
    h: int,
) -> (place: (int, int))
    requires
        store.consistent(),
        normal_list(transaction_hits(store, chain_id, hash, store.transaction_locators@.len() as int), hits),
        0 <= h < hits.len(),
    ensures
        0 <= place.0 < store.transaction_locators@.len(),
        store.transaction_locators@[place.0].chain_id == chain_id,
        store.transaction_locators@[place.0].hash == hash,
        store.transaction_locators@[place.0].locator == hits[h].locator,
        0 <= place.1 < store.segments@.len(),
        !store.segments@[place.1].deleting,
        store.segments@[place.1].record.metadata.id@ == hits[h].locator.segment_id@,
{
    let count = store.transaction_locators@.len() as int;
    let all = transaction_hits(store, chain_id, hash, count);
    assert(all.contains(hits[h]));
    let a = choose|a: int| 0 <= a < all.len() && all[a] == hits[h];
    lemma_transaction_hit_is_row(store, chain_id, hash, count, a);
    let r = choose|r: int|
        0 <= r < count && (#[trigger] store.transaction_locators@[r]).chain_id == chain_id
            && store.transaction_locators@[r].hash == hash && store.transaction_locators@[r].locator == all[a].locator;
    lemma_first_closed(store.segments@, hits[h].locator.segment_id@, 0);
    (r, first_closed(store.segments@, hits[h].locator.segment_id@, 0)->0)
}

/// Every row of the chain and the hash that leads into a readable segment is
/// among the answers to a lookup of the transaction hash.
pub proof fn law_transaction_rows_of_the_hash_are_hit(
    store: HistoryStore,
    chain_id: ChainId,
    hash: TransactionHash,
    hits: Seq<RankedTransaction>,
    r: int,
    s: int,
) -> (h: int)
    requires
        store.consistent(),
        normal_list(transaction_hits(store, chain_id, hash, store.transaction_locators@.len() as int), hits),
        0 <= r < store.transaction_locators@.len(),
        store.transaction_locators@[r].chain_id == chain_id,
        store.transaction_locators@[r].hash == hash,
        0 <= s < store.segments@.len(),
        !store.segments@[s].deleting,
        store.segments@[s].record.metadata.id@ == store.transaction_locators@[r].locator.segment_id@,
    ensures
        0 <= h < hits.len(),
        hits[h].locator == store.transaction_locators@[r].locator,
{
    let count = store.transaction_locators@.len() as int;
    let all = transaction_hits(store, chain_id, hash, count);
    lemma_first_closed(store.segments@, store.transaction_locators@[r].locator.segment_id@, 0);
    assert(store.segments@[s].is_closed(store.transaction_locators@[r].locator.segment_id@));
    let a = lemma_transaction_row_is_hit(store, chain_id, hash, count, r);
    assert(has_key(all, all[a].key()));
    assert(has_key(hits, all[a].key()));
    let h = choose|h: int| 0 <= h < hits.len() && #[trigger] hits[h].key() == all[a].key();
    lemma_transaction_key(hits[h], all[a]);
    let place = law_transaction_hits_are_rows_of_the_hash(store, chain_id, hash, hits, h);
    let q = place.0;
    assert(store.transaction_locators@[q].located() == store.transaction_locators@[r].located());
    assert(store.transaction_locators@[q].segment() == store.transaction_locators@[r].segment());
    assert(q == r);
    h
}

/// No two answers to a lookup of a transaction hash lead into one segment.
pub proof fn law_transaction_hits_are_in_different_segments(
    store: HistoryStore,
    chain_id: ChainId,
    hash: TransactionHash,
    hits: Seq<RankedTransaction>,
    h: int,
    k: int,
)
    requires
        normal_list(transaction_hits(store, chain_id, hash, store.transaction_locators@.len() as int), hits),
        0 <= h < k < hits.len(),
    ensures
        hits[h].locator.segment_id@ != hits[k].locator.segment_id@,
{
    let count = store.transaction_locators@.len() as int;
    let all = transaction_hits(store, chain_id, hash, count);
    if hits[h].locator.segment_id@ == hits[k].locator.segment_id@ {
        assert(all.contains(hits[h]));
        assert(all.contains(hits[k]));
        let a = choose|a: int| 0 <= a < all.len() && all[a] == hits[h];
        let b = choose|b: int| 0 <= b < all.len() && all[b] == hits[k];
        lemma_transaction_hit_is_row(store, chain_id, hash, count, a);
        lemma_transaction_hit_is_row(store, chain_id, hash, count, b);
        assert(hits[h].key() =~= hits[k].key());
        assert(precedes(hits[h].key(), hits[k].key()));
        crate::order::lemma_irreflexive(hits[h].key());
    }
}

/// Of two answers to a lookup of a transaction hash, the later one is not from a
/// segment that guarantees more.
pub proof fn law_transaction_hits_come_strongest_first(
    store: HistoryStore,
    chain_id: ChainId,
    hash: TransactionHash,
    hits: Seq<RankedTransaction>,
    h: int,
    k: int,
    s: int,
    t: int,
)
    requires
        store.consistent(),
        normal_list(transaction_hits(store, chain_id, hash, store.transaction_locators@.len() as int), hits),
        0 <= h < k < hits.len(),
        0 <= s < store.segments@.len(),
        !store.segments@[s].deleting,
        store.segments@[s].record.metadata.id@ == hits[h].locator.segment_id@,
        0 <= t < store.segments@.len(),
        !store.segments@[t].deleting,
        store.segments@[t].record.metadata.id@ == hits[k].locator.segment_id@,
    ensures
        !guarantees_more(store.segments@[t].record, store.segments@[s].record),
{
    let count = store.transaction_locators@.len() as int;
    let all = transaction_hits(store, chain_id, hash, count);
    assert(all.contains(hits[h]));
    assert(all.contains(hits[k]));
    let a = choose|a: int| 0 <= a < all.len() && all[a] == hits[h];
    let b = choose|b: int| 0 <= b < all.len() && all[b] == hits[k];
    lemma_transaction_hit_is_row(store, chain_id, hash, count, a);
    lemma_transaction_hit_is_row(store, chain_id, hash, count, b);
    lemma_readable(store.segments@, s);
    lemma_readable(store.segments@, t);
    let left = hits[h].key();
    let right = hits[k].key();
    assert(precedes(left, right));
    assert(left[0] == 255 - hits[h].verification && left[1] == 255 - hits[h].trust);
    assert(right[0] == 255 - hits[k].verification && right[1] == 255 - hits[k].trust);
    if left[0] == right[0] {
        assert(precedes(left.drop_first(), right.drop_first()));
        assert(left.drop_first()[0] == left[1] && right.drop_first()[0] == right[1]);
    }
}

/// Once a segment is committed, a lookup of a transaction that was noted in it leads
/// into it, to the place that was noted, and to no other place in it.
pub proof fn law_committed_transactions_are_looked_up(
    pending: PendingSegment,
    before: HistoryStore,
    after: HistoryStore,
    owners: Seq<SegmentOwnerClaim>,
    index: Seq<u8>,
    now: u64,
    outcome: Result<PublishedSegment, CommitFailure>,
    k: int,
    hits: Seq<RankedTransaction>,
)
    requires
        before.consistent(),
        after.consistent(),
        pending.commit_answers(before, after, owners, index, now, outcome),
        outcome is Ok,
        0 <= k < pending.transaction_locators@.len(),
        normal_list(
            transaction_hits(
                after,
                pending.writer@.descriptor.chain_id,
                pending.transaction_locators@[k].0,
                after.transaction_locators@.len() as int,
            ),
            hits,
        ),
    ensures
        exists|h: int|
            0 <= h < hits.len() && (#[trigger] hits[h]).locator.segment_id@ == pending.id@
                && hits[h].locator.block_number == pending.transaction_locators@[k].1 && hits[h].locator.transaction_index == pending.transaction_locators@[k].2,
        forall|h: int|
            0 <= h < hits.len() && (#[trigger] hits[h]).locator.segment_id@ == pending.id@
                ==> hits[h].locator.block_number == pending.transaction_locators@[k].1 && hits[h].locator.transaction_index == pending.transaction_locators@[k].2,
{
    let chain_id = pending.writer@.descriptor.chain_id;
    let hash = pending.transaction_locators@[k].0;
    law_committed_segments_are_readable(pending, before, after, owners, index, now, outcome);
    let claims = choose|claims: Seq<SegmentOwnerClaim>|
        #[trigger] normal_list(owners, claims) && pending.publish_problem(before, claims, index, now)
            is None && pending.is_published(before, after, claims, index, now);
    let held = before.transaction_locators@.len() as int;
    let row = after.transaction_locators@[held + k];
    assert(after.transaction_locators@.skip(held)[k] == row);
    assert(row.hash == hash && row.chain_id == chain_id && row.locator.segment_id@ == pending.id@);
    let last = after.segments@.len() - 1;
    assert(after.segments@[last] == after.segments@.last());
    assert(after.segments@[last].record@.id == pending.id@);
    assert(!after.segments@[last].deleting);
    let h = law_transaction_rows_of_the_hash_are_hit(after, chain_id, hash, hits, held + k, last);
    assert(hits[h].locator.segment_id@ == pending.id@);
    assert forall|g: int|
        0 <= g < hits.len() && (#[trigger] hits[g]).locator.segment_id@
            == pending.id@ implies hits[g].locator.block_number == pending.transaction_locators@[k].1 && hits[g].locator.transaction_index == pending.transaction_locators@[k].2 by {
        if g < h {
            law_transaction_hits_are_in_different_segments(after, chain_id, hash, hits, g, h);
        } else if h < g {
            law_transaction_hits_are_in_different_segments(after, chain_id, hash, hits, h, g);
        }
    }
}

/// Once the segment of a frame is committed, with locators of transactions, a
/// lookup of the hash of any of the frame's transactions leads into the
/// segment, to the frame's block and to the place in it where the transaction
/// of that hash is.
pub proof fn law_appended_transactions_are_looked_up(
    written: PendingSegment,
    extended: PendingSegment,
    frame: BlockFrame,
    shape_problem: Option<&'static str>,
    logical: Seq<u8>,
    appended: Result<AppendedRecord, HistoryStoreError>,
    pending: PendingSegment,
    before: HistoryStore,
    after: HistoryStore,
    owners: Seq<SegmentOwnerClaim>,
    index: Seq<u8>,
    now: u64,
    outcome: Result<PublishedSegment, CommitFailure>,
    i: int,
    hits: Seq<RankedTransaction>,
)
    requires
        written.append_answers(extended, frame, shape_problem, logical, appended),
        appended is Ok,
        written.indexes.transaction_hash,
        extended.transaction_locators@.len() <= pending.transaction_locators@.len(),
        forall|k: int|
            0 <= k < extended.transaction_locators@.len() ==> pending.transaction_locators@[k]
                == #[trigger] extended.transaction_locators@[k],
        before.consistent(),
        after.consistent(),
        pending.commit_answers(before, after, owners, index, now, outcome),
        outcome is Ok,
        frame.transactions is Complete,
        0 <= i < frame.transactions->Complete_0@.len(),
        frame.transactions->Complete_0@[i].index == i,
        normal_list(
            transaction_hits(
                after,
                pending.writer@.descriptor.chain_id,
                frame.transactions->Complete_0@[i].hash,
                after.transaction_locators@.len() as int,
            ),
            hits,
        ),
    ensures
        exists|h: int|
            0 <= h < hits.len() && (#[trigger] hits[h]).locator.segment_id@ == pending.id@,
        forall|h: int|
            0 <= h < hits.len() && (#[trigger] hits[h]).locator.segment_id@ == pending.id@ ==> {
                let locator = hits[h].locator;
                let transactions = frame.transactions->Complete_0@;
                &&& locator.block_number == frame.block.number
                &&& locator.transaction_index == i
                &&& locator.transaction_index < transactions.len()
                &&& transactions[locator.transaction_index as int].hash == transactions[i].hash
            },
{
    law_appends_note_where_a_frame_is(written, extended, frame, shape_problem, logical, appended);
    let k = written.transaction_locators@.len() + i;
    let transactions = frame.transactions->Complete_0@;
    assert(extended.transaction_locators@[k] == (
        transactions[i].hash,
        frame.block.number,
        transactions[i].index,
    ));
    assert(pending.transaction_locators@[k] == extended.transaction_locators@[k]);
    law_committed_transactions_are_looked_up(
        pending,
        before,
        after,
        owners,
        index,
        now,
        outcome,
        k,
        hits,
    );
}

/// Once the segment of a frame is committed, with locators of blocks, a lookup
/// of the frame's hash leads into the segment, to the frame's number.
pub proof fn law_appended_blocks_are_looked_up(
    written: PendingSegment,
    extended: PendingSegment,
    frame: BlockFrame,
    shape_problem: Option<&'static str>,
    logical: Seq<u8>,
    appended: Result<AppendedRecord, HistoryStoreError>,
    pending: PendingSegment,
    before: HistoryStore,
    after: HistoryStore,
    owners: Seq<SegmentOwnerClaim>,
    index: Seq<u8>,
    now: u64,
    outcome: Result<PublishedSegment, CommitFailure>,
    hits: Seq<RankedBlock>,
)
    requires
        written.append_answers(extended, frame, shape_problem, logical, appended),
        appended is Ok,
        written.indexes.block_hash,
        extended.block_locators@.len() <= pending.block_locators@.len(),
        forall|k: int|
            0 <= k < extended.block_locators@.len() ==> pending.block_locators@[k]
                == #[trigger] extended.block_locators@[k],
        before.consistent(),
        after.consistent(),
        pending.commit_answers(before, after, owners, index, now, outcome),
        outcome is Ok,
        normal_list(
            block_hits(
                after,
                pending.writer@.descriptor.chain_id,
                frame.block.hash,
                after.block_locators@.len() as int,
            ),
            hits,
        ),
    ensures
        exists|h: int|
            0 <= h < hits.len() && (#[trigger] hits[h]).locator.segment_id@ == pending.id@,
        forall|h: int|
            0 <= h < hits.len() && (#[trigger] hits[h]).locator.segment_id@ == pending.id@
                ==> hits[h].locator.block_number == frame.block.number,
{
    law_appends_note_where_a_frame_is(written, extended, frame, shape_problem, logical, appended);
    let k = written.block_locators@.len() as int;
    assert(extended.block_locators@[k] == (frame.block.hash, frame.block.number));
    assert(pending.block_locators@[k] == extended.block_locators@[k]);
    law_committed_blocks_are_looked_up(
        pending,
        before,
        after,
        owners,
        index,
        now,
        outcome,
        k,
        hits,
    );
}

} // verus!
