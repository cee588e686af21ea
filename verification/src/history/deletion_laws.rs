//! What deleting a segment takes away, and what it leaves as it was.

use crate::history::catalog::{
    first_closed, first_segment, owner_count, BlockLocatorRow, HistoryStore, SegmentOwner,
    StoredSegment, TransactionLocatorRow,
};
use crate::history::error::HistoryStoreError;
use crate::history::layout::SegmentId;
use crate::history::lookups::{
    block_hits, closed_records, owners_of, transaction_hits, RankedBlock, RankedTransaction,
};
use crate::history::ownership::lemma_first_segment;
use crate::history::retention::{lemma_held_is_counted, rows_of_others, OfSegment};
use crate::history::rows::SegmentRecord;
use crate::primitives::{BlockHash, ChainId, TransactionHash};
use vstd::prelude::*;

verus! {

/// What a lookup of this name answers.
pub open spec fn readable(segments: Seq<StoredSegment>, id: Seq<char>) -> Option<SegmentRecord> {
    match first_closed(segments, id, 0) {
        Some(at) => Some(segments[at].record),
        None => None,
    }
}

/// Every other name is answered alike.
pub open spec fn same_elsewhere(
    before: Seq<StoredSegment>,
    after: Seq<StoredSegment>,
    id: Seq<char>,
) -> bool {
    forall|other: Seq<char>|
        other != id ==> #[trigger] readable(after, other) == readable(before, other)
}

/// A record of another segment.
pub open spec fn record_elsewhere(id: Seq<char>) -> spec_fn(SegmentRecord) -> bool {
    |record: SegmentRecord| record.metadata.id@ != id
}

/// A block that is found in another segment.
pub open spec fn block_elsewhere(id: Seq<char>) -> spec_fn(RankedBlock) -> bool {
    |hit: RankedBlock| hit.locator.segment_id@ != id
}

/// A transaction that is found in another segment.
pub open spec fn transaction_elsewhere(id: Seq<char>) -> spec_fn(RankedTransaction) -> bool {
    |hit: RankedTransaction| hit.locator.segment_id@ != id
}

/// The names of the rows differ.
pub open spec fn distinct_names(segments: Seq<StoredSegment>) -> bool {
    forall|i: int, j: int|
        #![trigger segments[i], segments[j]]
        0 <= i < j < segments.len() ==> segments[i].record.metadata.id@
            != segments[j].record.metadata.id@
}

/// What the first readable row of a name is.
pub proof fn lemma_first_closed(segments: Seq<StoredSegment>, id: Seq<char>, from: int)
    requires
        0 <= from,
    ensures
        match first_closed(segments, id, from) {
            Some(at) => from <= at < segments.len() && segments[at].is_closed(id),
            None => forall|j: int| from <= j < segments.len() ==> !(#[trigger] segments[j]).is_closed(
                id,
            ),
        },
    decreases segments.len() - from,
{
    if from < segments.len() && !segments[from].is_closed(id) {
        lemma_first_closed(segments, id, from + 1);
    }
}

/// A readable row under a name that occurs once is what a lookup finds.
pub proof fn lemma_readable(segments: Seq<StoredSegment>, at: int)
    requires
        distinct_names(segments),
        0 <= at < segments.len(),
        !segments[at].deleting,
    ensures
        readable(segments, segments[at].record.metadata.id@) == Some(segments[at].record),
{
    let id = segments[at].record.metadata.id@;
    lemma_first_closed(segments, id, 0);
    assert(segments[at].is_closed(id));
    let found = first_closed(segments, id, 0)->0;
    if found < at {
        assert(segments[found].record.metadata.id@ != segments[at].record.metadata.id@);
    } else if at < found {
        assert(segments[at].record.metadata.id@ != segments[found].record.metadata.id@);
    }
}

/// Lookups answer alike where each readable row of either catalog, but for
/// those of one name, is in the other.
proof fn lemma_same_elsewhere(before: Seq<StoredSegment>, after: Seq<StoredSegment>, id: Seq<char>)
    requires
        distinct_names(before),
        distinct_names(after),
        forall|i: int|
            0 <= i < before.len() && (#[trigger] before[i]).record.metadata.id@ != id
                ==> after.contains(before[i]),
        forall|i: int|
            0 <= i < after.len() && (#[trigger] after[i]).record.metadata.id@ != id
                ==> before.contains(after[i]),
    ensures
        same_elsewhere(before, after, id),
{
    assert forall|other: Seq<char>| other != id implies #[trigger] readable(after, other)
        == readable(before, other) by {
        lemma_first_closed(before, other, 0);
        lemma_first_closed(after, other, 0);
        if let Some(at) = first_closed(before, other, 0) {
            assert(after.contains(before[at]));
            let j = choose|j: int| 0 <= j < after.len() && after[j] == before[at];
            lemma_readable(after, j);
        } else if let Some(at) = first_closed(after, other, 0) {
            assert(before.contains(after[at]));
            let j = choose|j: int| 0 <= j < before.len() && before[j] == after[at];
            assert(before[j].is_closed(other));
        }
    }
}

/// Marking a row leaves every other name as it was.
proof fn lemma_marked(segments: Seq<StoredSegment>, at: int, marked: Seq<StoredSegment>)
    requires
        distinct_names(segments),
        0 <= at < segments.len(),
        marked == segments.update(
            at,
            StoredSegment { record: segments[at].record, deleting: true },
        ),
    ensures
        distinct_names(marked),
        readable(marked, segments[at].record.metadata.id@) is None,
        same_elsewhere(segments, marked, segments[at].record.metadata.id@),
        first_segment(marked, segments[at].record.metadata.id@, 0) == Some(at),
{
    let id = segments[at].record.metadata.id@;
    assert forall|i: int| 0 <= i < marked.len() implies (#[trigger] marked[i]).record
        == segments[i].record by {}
    assert forall|i: int, j: int|
        #![trigger marked[i], marked[j]]
        0 <= i < j < marked.len() implies marked[i].record.metadata.id@
        != marked[j].record.metadata.id@ by {
        assert(segments[i].record.metadata.id@ != segments[j].record.metadata.id@);
    }
    lemma_first_closed(marked, id, 0);
    lemma_first_segment(marked, id, 0);
    assert forall|i: int| 0 <= i < marked.len() implies !(#[trigger] marked[i]).is_closed(id) by {
        if i < at {
            assert(marked[i].record.metadata.id@ != marked[at].record.metadata.id@);
        } else if at < i {
            assert(marked[at].record.metadata.id@ != marked[i].record.metadata.id@);
        }
    }
    assert(marked[at].record.metadata.id@ == id);
    let found = first_segment(marked, id, 0)->0;
    if found != at {
        assert(marked[found].record.metadata.id@ != marked[at].record.metadata.id@);
    }
    assert forall|i: int|
        0 <= i < segments.len() && (#[trigger] segments[i]).record.metadata.id@
            != id implies marked.contains(segments[i]) by {
        assert(marked[i] == segments[i]);
    }
    assert forall|i: int|
        0 <= i < marked.len() && (#[trigger] marked[i]).record.metadata.id@
            != id implies segments.contains(marked[i]) by {
        assert(marked[i] == segments[i]);
    }
    lemma_same_elsewhere(segments, marked, id);
}

/// Forgetting a row leaves every other name as it was.
proof fn lemma_forgotten(segments: Seq<StoredSegment>, at: int)
    requires
        distinct_names(segments),
        0 <= at < segments.len(),
    ensures
        distinct_names(segments.remove(at)),
        first_segment(segments.remove(at), segments[at].record.metadata.id@, 0) is None,
        readable(segments.remove(at), segments[at].record.metadata.id@) is None,
        same_elsewhere(segments, segments.remove(at), segments[at].record.metadata.id@),
{
    let id = segments[at].record.metadata.id@;
    let left = segments.remove(at);
    assert forall|i: int| 0 <= i < left.len() implies #[trigger] left[i] == segments[if i < at {
        i
    } else {
        i + 1
    }] by {}
    assert forall|i: int, j: int|
        #![trigger left[i], left[j]]
        0 <= i < j < left.len() implies left[i].record.metadata.id@
        != left[j].record.metadata.id@ by {
        let a = if i < at {
            i
        } else {
            i + 1
        };
        let b = if j < at {
            j
        } else {
            j + 1
        };
        assert(segments[a].record.metadata.id@ != segments[b].record.metadata.id@);
    }
    assert forall|i: int| 0 <= i < left.len() implies (#[trigger] left[i]).record.metadata.id@
        != id by {
        if i < at {
            assert(segments[i].record.metadata.id@ != segments[at].record.metadata.id@);
        } else {
            assert(segments[at].record.metadata.id@ != segments[i + 1].record.metadata.id@);
        }
    }
    lemma_first_segment(left, id, 0);
    lemma_first_closed(left, id, 0);
    assert forall|i: int|
        0 <= i < segments.len() && (#[trigger] segments[i]).record.metadata.id@
            != id implies left.contains(segments[i]) by {
        if i < at {
            assert(left[i] == segments[i]);
        } else {
            assert(left[i - 1] == segments[i]);
        }
    }
    assert forall|i: int|
        0 <= i < left.len() && (#[trigger] left[i]).record.metadata.id@
            != id implies segments.contains(left[i]) by {
        let a = if i < at {
            i
        } else {
            i + 1
        };
        assert(segments[a] == left[i]);
    }
    lemma_same_elsewhere(segments, left, id);
}

/// Marking a row takes its record, and no other, from the listing.
proof fn lemma_marked_records(
    segments: Seq<StoredSegment>,
    marked: Seq<StoredSegment>,
    at: int,
    count: int,
)
    requires
        distinct_names(segments),
        0 <= at < segments.len(),
        0 <= count <= segments.len(),
        marked == segments.update(
            at,
            StoredSegment { record: segments[at].record, deleting: true },
        ),
    ensures
        closed_records(marked, count) == closed_records(segments, count).filter(
            record_elsewhere(segments[at].record.metadata.id@),
        ),
    decreases count,
{
    reveal(Seq::filter);
    let id = segments[at].record.metadata.id@;
    if count > 0 {
        lemma_marked_records(segments, marked, at, count - 1);
        let shorter = closed_records(segments, count - 1);
        let row = segments[count - 1];
        if count - 1 < at {
            assert(segments[count - 1].record.metadata.id@ != segments[at].record.metadata.id@);
        } else if at < count - 1 {
            assert(segments[at].record.metadata.id@ != segments[count - 1].record.metadata.id@);
        }
        if !row.deleting {
            let longer = shorter.push(row.record);
            assert(longer.drop_last() =~= shorter);
            assert(longer.last() == row.record);
            assert(closed_records(segments, count) == longer);
        }
    }
}

/// A row that is not listed can be forgotten without changing the listing.
proof fn lemma_forgotten_records(segments: Seq<StoredSegment>, at: int, count: int)
    requires
        0 <= at < segments.len(),
        segments[at].deleting,
        0 <= count <= segments.len(),
    ensures
        count <= at ==> closed_records(segments.remove(at), count) == closed_records(
            segments,
            count,
        ),
        count > at ==> closed_records(segments.remove(at), count - 1) == closed_records(
            segments,
            count,
        ),
    decreases count,
{
    if count > 0 {
        lemma_forgotten_records(segments, at, count - 1);
    }
}

/// Rows of other segments alone are all rows, where one segment has none.
proof fn lemma_no_rows<T: OfSegment>(rows: Seq<T>, id: Seq<char>)
    requires
        forall|i: int| 0 <= i < rows.len() ==> (#[trigger] rows[i]).segment() != id,
    ensures
        rows_of_others(rows, id) == rows,
    decreases rows.len(),
{
    if rows.len() > 0 {
        let shorter = rows.drop_last();
        assert forall|i: int| 0 <= i < shorter.len() implies (#[trigger] shorter[i]).segment()
            != id by {
            assert(rows[i] == shorter[i]);
        }
        lemma_no_rows(shorter, id);
        assert(rows[rows.len() - 1] == rows.last());
        assert(shorter.push(rows.last()) =~= rows);
    }
}

proof fn lemma_no_owners(owners: Seq<SegmentOwner>, id: Seq<char>, count: int)
    requires
        0 <= count <= owners.len(),
        owner_count(owners, id) <= 0,
    ensures
        forall|i: int| 0 <= i < owners.len() ==> (#[trigger] owners[i]).segment() != id,
        owners_of(owners, id, count).len() == 0,
    decreases count,
{
    assert forall|i: int| 0 <= i < owners.len() implies (#[trigger] owners[i]).segment() != id by {
        lemma_held_is_counted(owners, i);
    }
    if count > 0 {
        lemma_no_owners(owners, id, count - 1);
        assert(owners[count - 1].segment() != id);
    }
}

/// What block rows answer, against these segments.
spec fn block_found(
    rows: Seq<BlockLocatorRow>,
    segments: Seq<StoredSegment>,
    chain_id: ChainId,
    hash: BlockHash,
) -> Seq<RankedBlock>
    decreases rows.len(),
{
    if rows.len() == 0 {
        Seq::empty()
    } else {
        let before = block_found(rows.drop_last(), segments, chain_id, hash);
        let row = rows.last();
        match readable(segments, row.locator.segment_id@) {
            Some(record) if row.chain_id == chain_id && row.hash == hash => before.push(
                RankedBlock {
                    verification: record.metadata.descriptor.verification.spec_rank(),
                    trust: record.metadata.descriptor.trust.spec_rank(),
                    locator: row.locator,
                },
            ),
            _ => before,
        }
    }
}

proof fn lemma_block_found(store: HistoryStore, chain_id: ChainId, hash: BlockHash, count: int)
    requires
        0 <= count <= store.block_locators@.len(),
    ensures
        block_hits(store, chain_id, hash, count) == block_found(
            store.block_locators@.take(count),
            store.segments@,
            chain_id,
            hash,
        ),
    decreases count,
{
    if count > 0 {
        lemma_block_found(store, chain_id, hash, count - 1);
        let rows = store.block_locators@.take(count);
        assert(rows.drop_last() =~= store.block_locators@.take(count - 1));
        assert(rows.last() == store.block_locators@[count - 1]);
    }
}

proof fn lemma_block_found_elsewhere(
    rows: Seq<BlockLocatorRow>,
    before: Seq<StoredSegment>,
    after: Seq<StoredSegment>,
    id: Seq<char>,
    chain_id: ChainId,
    hash: BlockHash,
)
    requires
        readable(after, id) is None,
        same_elsewhere(before, after, id),
    ensures
        block_found(rows, after, chain_id, hash) == block_found(rows, before, chain_id, hash).filter(
            block_elsewhere(id),
        ),
        block_found(rows_of_others(rows, id), after, chain_id, hash) == block_found(
            rows,
            after,
            chain_id,
            hash,
        ),
    decreases rows.len(),
{
    reveal(Seq::filter);
    if rows.len() > 0 {
        let shorter = rows.drop_last();
        let row = rows.last();
        lemma_block_found_elsewhere(shorter, before, after, id, chain_id, hash);
        let found = block_found(shorter, before, chain_id, hash);
        if let Some(record) = readable(before, row.locator.segment_id@) {
            let hit = RankedBlock {
                verification: record.metadata.descriptor.verification.spec_rank(),
                trust: record.metadata.descriptor.trust.spec_rank(),
                locator: row.locator,
            };
            assert(found.push(hit).drop_last() =~= found);
            assert(found.push(hit).last() == hit);
        }
        if row.locator.segment_id@ != id {
            assert(readable(after, row.locator.segment_id@) == readable(
                before,
                row.locator.segment_id@,
            ));
            let others = rows_of_others(shorter, id);
            assert(others.push(row).drop_last() =~= others);
            assert(others.push(row).last() == row);
            assert(rows_of_others(rows, id) == others.push(row));
        }
    }
}

/// What transaction rows answer, against these segments.
spec fn transaction_found(
    rows: Seq<TransactionLocatorRow>,
    segments: Seq<StoredSegment>,
    chain_id: ChainId,
    hash: TransactionHash,
) -> Seq<RankedTransaction>
    decreases rows.len(),
{
    if rows.len() == 0 {
        Seq::empty()
    } else {
        let before = transaction_found(rows.drop_last(), segments, chain_id, hash);
        let row = rows.last();
        match readable(segments, row.locator.segment_id@) {
            Some(record) if row.chain_id == chain_id && row.hash == hash => before.push(
                RankedTransaction {
                    verification: record.metadata.descriptor.verification.spec_rank(),
                    trust: record.metadata.descriptor.trust.spec_rank(),
                    locator: row.locator,
                },
            ),
            _ => before,
        }
    }
}

proof fn lemma_transaction_found(store: HistoryStore, chain_id: ChainId, hash: TransactionHash, count: int)
    requires
        0 <= count <= store.transaction_locators@.len(),
    ensures
        transaction_hits(store, chain_id, hash, count) == transaction_found(
            store.transaction_locators@.take(count),
            store.segments@,
            chain_id,
            hash,
        ),
    decreases count,
{
    if count > 0 {
        lemma_transaction_found(store, chain_id, hash, count - 1);
        let rows = store.transaction_locators@.take(count);
        assert(rows.drop_last() =~= store.transaction_locators@.take(count - 1));
        assert(rows.last() == store.transaction_locators@[count - 1]);
    }
}

proof fn lemma_transaction_found_elsewhere(
    rows: Seq<TransactionLocatorRow>,
    before: Seq<StoredSegment>,
    after: Seq<StoredSegment>,
    id: Seq<char>,
    chain_id: ChainId,
    hash: TransactionHash,
)
    requires
        readable(after, id) is None,
        same_elsewhere(before, after, id),
    ensures
        transaction_found(rows, after, chain_id, hash) == transaction_found(rows, before, chain_id, hash).filter(
            transaction_elsewhere(id),
        ),
        transaction_found(rows_of_others(rows, id), after, chain_id, hash) == transaction_found(
            rows,
            after,
            chain_id,
            hash,
        ),
    decreases rows.len(),
{
    reveal(Seq::filter);
    if rows.len() > 0 {
        let shorter = rows.drop_last();
        let row = rows.last();
        lemma_transaction_found_elsewhere(shorter, before, after, id, chain_id, hash);
        let found = transaction_found(shorter, before, chain_id, hash);
        if let Some(record) = readable(before, row.locator.segment_id@) {
            let hit = RankedTransaction {
                verification: record.metadata.descriptor.verification.spec_rank(),
                trust: record.metadata.descriptor.trust.spec_rank(),
                locator: row.locator,
            };
            assert(found.push(hit).drop_last() =~= found);
            assert(found.push(hit).last() == hit);
        }
        if row.locator.segment_id@ != id {
            assert(readable(after, row.locator.segment_id@) == readable(
                before,
                row.locator.segment_id@,
            ));
            let others = rows_of_others(shorter, id);
            assert(others.push(row).drop_last() =~= others);
            assert(others.push(row).last() == row);
            assert(rows_of_others(rows, id) == others.push(row));
        }
    }
}

/// A segment that somebody holds is not deleted: the answer names how many
/// hold it, and no row changes.
pub proof fn law_held_segments_are_not_deleted(
    before: HistoryStore,
    after: HistoryStore,
    id: SegmentId,
    outcome: Result<String, HistoryStoreError>,
    held: int,
)
    requires
        before.deletion_started(after, id, outcome),
        0 <= held < before.owners@.len(),
        before.owners@[held].segment_id@ == id@,
    ensures
        outcome == Err::<String, HistoryStoreError>(
            HistoryStoreError::OwnedSegment {
                id,
                owners: owner_count(before.owners@, id@) as u64,
            },
        ),
        after.same_rows(before),
{
    lemma_held_is_counted(before.owners@, held);
}

/// From the moment that the deletion of a segment is started, no lookup
/// answers from it, and every other answer is what it was.
pub proof fn law_started_deletions_answer_nothing(
    before: HistoryStore,
    started: HistoryStore,
    id: SegmentId,
    outcome: Result<String, HistoryStoreError>,
    chain_id: ChainId,
    block: BlockHash,
    transaction: TransactionHash,
)
    requires
        before.consistent(),
        before.deletion_started(started, id, outcome),
        outcome is Ok,
    ensures
        readable(started.segments@, id@) is None,
        same_elsewhere(before.segments@, started.segments@, id@),
        closed_records(started.segments@, started.segments@.len() as int) == closed_records(
            before.segments@,
            before.segments@.len() as int,
        ).filter(record_elsewhere(id@)),
        started.owners@ == before.owners@,
        block_hits(started, chain_id, block, started.block_locators@.len() as int) == block_hits(
            before,
            chain_id,
            block,
            before.block_locators@.len() as int,
        ).filter(block_elsewhere(id@)),
        transaction_hits(
            started,
            chain_id,
            transaction,
            started.transaction_locators@.len() as int,
        ) == transaction_hits(
            before,
            chain_id,
            transaction,
            before.transaction_locators@.len() as int,
        ).filter(transaction_elsewhere(id@)),
{
    let rows = before.segments@;
    assert(distinct_names(rows));
    lemma_first_closed(rows, id@, 0);
    let at = first_closed(rows, id@, 0)->0;
    lemma_marked(rows, at, started.segments@);
    lemma_marked_records(rows, started.segments@, at, rows.len() as int);
    let blocks = before.block_locators@;
    let transactions = before.transaction_locators@;
    assert(blocks.take(blocks.len() as int) =~= blocks);
    assert(transactions.take(transactions.len() as int) =~= transactions);
    lemma_block_found(before, chain_id, block, blocks.len() as int);
    lemma_block_found(started, chain_id, block, blocks.len() as int);
    lemma_block_found_elsewhere(blocks, rows, started.segments@, id@, chain_id, block);
    lemma_transaction_found(before, chain_id, transaction, transactions.len() as int);
    lemma_transaction_found(started, chain_id, transaction, transactions.len() as int);
    lemma_transaction_found_elsewhere(
        transactions,
        rows,
        started.segments@,
        id@,
        chain_id,
        transaction,
    );
}

/// Once a deletion is finished, the segment has neither row nor owner nor
/// locator, and every answer that did not come from it is what it was.
pub proof fn law_deleted_segments_are_forgotten(
    before: HistoryStore,
    started: HistoryStore,
    after: HistoryStore,
    id: SegmentId,
    outcome: Result<String, HistoryStoreError>,
    removed: bool,
    chain_id: ChainId,
    block: BlockHash,
    transaction: TransactionHash,
)
    requires
        before.consistent(),
        before.deletion_started(started, id, outcome),
        outcome is Ok,
        started.deletion_finished(after, id@, removed),
    ensures
        removed,
        first_segment(after.segments@, id@, 0) is None,
        readable(after.segments@, id@) is None,
        same_elsewhere(before.segments@, after.segments@, id@),
        closed_records(after.segments@, after.segments@.len() as int) == closed_records(
            before.segments@,
            before.segments@.len() as int,
        ).filter(record_elsewhere(id@)),
        after.owners@ == before.owners@,
        owners_of(after.owners@, id@, after.owners@.len() as int).len() == 0,
        after.jobs@ == before.jobs@,
        after.reservations@ == before.reservations@,
        after.block_locators@ == rows_of_others(before.block_locators@, id@),
        after.transaction_locators@ == rows_of_others(before.transaction_locators@, id@),
        block_hits(after, chain_id, block, after.block_locators@.len() as int) == block_hits(
            before,
            chain_id,
            block,
            before.block_locators@.len() as int,
        ).filter(block_elsewhere(id@)),
        transaction_hits(
            after,
            chain_id,
            transaction,
            after.transaction_locators@.len() as int,
        ) == transaction_hits(
            before,
            chain_id,
            transaction,
            before.transaction_locators@.len() as int,
        ).filter(transaction_elsewhere(id@)),
{
    law_started_deletions_answer_nothing(
        before,
        started,
        id,
        outcome,
        chain_id,
        block,
        transaction,
    );
    let rows = before.segments@;
    assert(distinct_names(rows));
    lemma_first_closed(rows, id@, 0);
    let at = first_closed(rows, id@, 0)->0;
    lemma_marked(rows, at, started.segments@);
    lemma_forgotten(started.segments@, at);
    assert(same_elsewhere(rows, after.segments@, id@)) by {
        assert forall|other: Seq<char>| other != id@ implies #[trigger] readable(
            after.segments@,
            other,
        ) == readable(rows, other) by {
            assert(readable(started.segments@, other) == readable(rows, other));
        }
    }
    lemma_forgotten_records(started.segments@, at, rows.len() as int);
    lemma_no_owners(before.owners@, id@, before.owners@.len() as int);
    lemma_no_rows(before.owners@, id@);
    let blocks = before.block_locators@;
    let transactions = before.transaction_locators@;
    let fewer_blocks = after.block_locators@;
    let fewer_transactions = after.transaction_locators@;
    assert(blocks.take(blocks.len() as int) =~= blocks);
    assert(transactions.take(transactions.len() as int) =~= transactions);
    assert(fewer_blocks.take(fewer_blocks.len() as int) =~= fewer_blocks);
    assert(fewer_transactions.take(fewer_transactions.len() as int) =~= fewer_transactions);
    lemma_block_found(before, chain_id, block, blocks.len() as int);
    lemma_block_found(after, chain_id, block, fewer_blocks.len() as int);
    lemma_block_found_elsewhere(blocks, rows, after.segments@, id@, chain_id, block);
    lemma_transaction_found(before, chain_id, transaction, transactions.len() as int);
    lemma_transaction_found(after, chain_id, transaction, fewer_transactions.len() as int);
    lemma_transaction_found_elsewhere(
        transactions,
        rows,
        after.segments@,
        id@,
        chain_id,
        transaction,
    );
}

} // verus!
