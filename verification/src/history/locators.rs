//! Rows that lead from a hash into a segment.

use crate::bytes::same_array;
use crate::history::catalog::{
    first_segment, BlockLocatorRow, StoredSegment, TransactionLocatorRow,
};
use crate::history::ownership::lemma_first_segment;
use crate::history::retention::{law_deletion_leaves_other_rows, rows_of_others, OfSegment};
use crate::primitives::{BlockHash, BlockNumber, ChainId, TransactionHash};
use vstd::prelude::*;

verus! {

/// A row that locates a hash in a segment.
pub trait Locates: OfSegment {
    /// The chain and the hash that the row locates.
    spec fn located(&self) -> (ChainId, Seq<u8>);

    fn locates_same(&self, other: &Self) -> (same: bool)
        ensures
            same == (self.located() == other.located() && self.segment() == other.segment()),
    ;
}

impl Locates for BlockLocatorRow {
    open spec fn located(&self) -> (ChainId, Seq<u8>) {
        (self.chain_id, self.hash.0@)
    }

    fn locates_same(&self, other: &Self) -> (same: bool) {
        self.chain_id.0 == other.chain_id.0 && same_array(&self.hash.0, &other.hash.0)
            && self.locator.segment_id.same(&other.locator.segment_id)
    }
}

impl Locates for TransactionLocatorRow {
    open spec fn located(&self) -> (ChainId, Seq<u8>) {
        (self.chain_id, self.hash.0@)
    }

    fn locates_same(&self, other: &Self) -> (same: bool) {
        self.chain_id.0 == other.chain_id.0 && same_array(&self.hash.0, &other.hash.0)
            && self.locator.segment_id.same(&other.locator.segment_id)
    }
}

/// Every row leads into a segment of the catalog.
pub open spec fn lead_into<T: OfSegment>(rows: Seq<T>, segments: Seq<StoredSegment>) -> bool {
    forall|i: int|
        0 <= i < rows.len() ==> first_segment(segments, (#[trigger] rows[i]).segment(), 0) is Some
}

/// No hash is located twice in one segment.
pub open spec fn distinct_locators<T: Locates>(rows: Seq<T>) -> bool {
    forall|i: int, j: int|
        #![trigger rows[i], rows[j]]
        0 <= i < j < rows.len() ==> !(rows[i].located() == rows[j].located() && rows[i].segment()
            == rows[j].segment())
}

/// Whether every row leads into a segment of the catalog.
pub fn all_lead_into<T: OfSegment>(rows: &Vec<T>, segments: &Vec<StoredSegment>) -> (sound: bool)
    ensures
        sound == lead_into(rows@, segments@),
{
    let mut index: usize = 0;
    while index < rows.len()
        invariant
            index <= rows@.len(),
            forall|i: int|
                0 <= i < index ==> first_segment(
                    segments@,
                    (#[trigger] rows@[i]).segment(),
                    0,
                ) is Some,
        decreases rows@.len() - index,
    {
        let ghost id = rows@[index as int].segment();
        let mut at: usize = 0;
        while at < segments.len() && !rows[index].is_of(&segments[at].record.metadata.id)
            invariant
                index < rows@.len(),
                id == rows@[index as int].segment(),
                at <= segments@.len(),
                first_segment(segments@, id, 0) == first_segment(segments@, id, at as int),
            decreases segments@.len() - at,
        {
            at += 1;
        }
        if at == segments.len() {
            assert(first_segment(segments@, rows@[index as int].segment(), 0) is None);
            return false;
        }
        index += 1;
    }
    true
}

/// Whether no hash is located twice in one segment.
pub fn are_distinct<T: Locates>(rows: &Vec<T>) -> (distinct: bool)
    ensures
        distinct == distinct_locators(rows@),
{
    let mut outer: usize = 0;
    while outer < rows.len()
        invariant
            outer <= rows@.len(),
            forall|i: int, j: int|
                #![trigger rows@[i], rows@[j]]
                0 <= i < j < rows@.len() && i < outer ==> !(rows@[i].located() == rows@[j].located()
                    && rows@[i].segment() == rows@[j].segment()),
        decreases rows@.len() - outer,
    {
        let mut inner: usize = outer + 1;
        while inner < rows.len()
            invariant
                outer < inner <= rows@.len(),
                forall|j: int|
                    outer < j < inner ==> !(rows@[outer as int].located() == (
                    #[trigger] rows@[j]).located() && rows@[outer as int].segment()
                        == rows@[j].segment()),
            decreases rows@.len() - inner,
        {
            if rows[outer].locates_same(&rows[inner]) {
                assert(!distinct_locators(rows@)) by {
                    let (i, j) = (outer as int, inner as int);
                    assert(rows@[i].located() == rows@[j].located());
                }
                return false;
            }
            inner += 1;
        }
        outer += 1;
    }
    true
}

/// The hash of some block occurs twice.
pub open spec fn repeats_block(locators: Seq<(BlockHash, BlockNumber)>) -> bool {
    exists|i: int, j: int|
        #![trigger locators[i], locators[j]]
        0 <= i < j < locators.len() && locators[i].0.0@ == locators[j].0.0@
}

/// The hash of some transaction occurs twice.
pub open spec fn repeats_transaction(locators: Seq<(TransactionHash, BlockNumber, u32)>) -> bool {
    exists|i: int, j: int|
        #![trigger locators[i], locators[j]]
        0 <= i < j < locators.len() && locators[i].0.0@ == locators[j].0.0@
}

/// Whether the hash of some block occurs twice.
pub fn holds_block_twice(locators: &Vec<(BlockHash, BlockNumber)>) -> (repeats: bool)
    ensures
        repeats == repeats_block(locators@),
{
    let mut outer: usize = 0;
    while outer < locators.len()
        invariant
            outer <= locators@.len(),
            forall|i: int, j: int|
                #![trigger locators@[i], locators@[j]]
                0 <= i < j < locators@.len() && i < outer ==> locators@[i].0.0@
                    != locators@[j].0.0@,
        decreases locators@.len() - outer,
    {
        let mut inner: usize = outer + 1;
        while inner < locators.len()
            invariant
                outer < inner <= locators@.len(),
                forall|j: int|
                    outer < j < inner ==> locators@[outer as int].0.0@ != (
                    #[trigger] locators@[j]).0.0@,
            decreases locators@.len() - inner,
        {
            if same_array(&locators[outer].0.0, &locators[inner].0.0) {
                assert(locators@[outer as int].0.0@ == locators@[inner as int].0.0@);
                return true;
            }
            inner += 1;
        }
        outer += 1;
    }
    false
}

/// Whether the hash of some transaction occurs twice.
pub fn holds_transaction_twice(locators: &Vec<(TransactionHash, BlockNumber, u32)>) -> (repeats:
    bool)
    ensures
        repeats == repeats_transaction(locators@),
{
    let mut outer: usize = 0;
    while outer < locators.len()
        invariant
            outer <= locators@.len(),
            forall|i: int, j: int|
                #![trigger locators@[i], locators@[j]]
                0 <= i < j < locators@.len() && i < outer ==> locators@[i].0.0@
                    != locators@[j].0.0@,
        decreases locators@.len() - outer,
    {
        let mut inner: usize = outer + 1;
        while inner < locators.len()
            invariant
                outer < inner <= locators@.len(),
                forall|j: int|
                    outer < j < inner ==> locators@[outer as int].0.0@ != (
                    #[trigger] locators@[j]).0.0@,
            decreases locators@.len() - inner,
        {
            if same_array(&locators[outer].0.0, &locators[inner].0.0) {
                assert(locators@[outer as int].0.0@ == locators@[inner as int].0.0@);
                return true;
            }
            inner += 1;
        }
        outer += 1;
    }
    false
}

/// Rows lead into a catalog that holds every segment of another into which
/// they lead.
pub proof fn lemma_lead_into<T: OfSegment>(
    rows: Seq<T>,
    segments: Seq<StoredSegment>,
    others: Seq<StoredSegment>,
)
    requires
        lead_into(rows, segments),
        forall|i: int|
            0 <= i < segments.len() ==> exists|j: int|
                0 <= j < others.len() && (#[trigger] others[j]).record.metadata.id@ == (
                #[trigger] segments[i]).record.metadata.id@,
    ensures
        lead_into(rows, others),
{
    assert forall|i: int| 0 <= i < rows.len() implies first_segment(
        others,
        (#[trigger] rows[i]).segment(),
        0,
    ) is Some by {
        let id = rows[i].segment();
        assert(first_segment(segments, rows[i].segment(), 0) is Some);
        lemma_first_segment(segments, id, 0);
        lemma_first_segment(others, id, 0);
        let k = first_segment(segments, id, 0)->0;
        assert(segments[k].record.metadata.id@ == id);
    }
}

/// The rows of other segments still lead into the catalog without a segment,
/// and are still distinct.
pub proof fn lemma_locators_of_others<T: Locates>(
    rows: Seq<T>,
    segments: Seq<StoredSegment>,
    id: Seq<char>,
    at: int,
)
    requires
        lead_into(rows, segments),
        distinct_locators(rows),
        0 <= at < segments.len(),
        segments[at].record.metadata.id@ == id,
    ensures
        lead_into(rows_of_others(rows, id), segments.remove(at)),
        distinct_locators(rows_of_others(rows, id)),
{
    let kept = segments.remove(at);
    let left = rows_of_others(rows, id);
    law_deletion_leaves_other_rows(rows, id);
    assert forall|i: int| 0 <= i < left.len() implies first_segment(
        kept,
        (#[trigger] left[i]).segment(),
        0,
    ) is Some by {
        let row = left[i];
        assert(row.segment() != id && rows.contains(row));
        let o = choose|o: int| 0 <= o < rows.len() && rows[o] == row;
        assert(first_segment(segments, rows[o].segment(), 0) is Some);
        lemma_first_segment(segments, row.segment(), 0);
        lemma_first_segment(kept, row.segment(), 0);
        let k = first_segment(segments, row.segment(), 0)->0;
        let a = if k < at {
            k
        } else {
            k - 1
        };
        assert(kept[a] == segments[k]);
    }
    lemma_others_distinct(rows, id);
}

proof fn lemma_others_distinct<T: Locates>(rows: Seq<T>, id: Seq<char>)
    requires
        distinct_locators(rows),
    ensures
        distinct_locators(rows_of_others(rows, id)),
    decreases rows.len(),
{
    if rows.len() > 0 {
        let shorter = rows.drop_last();
        let before = rows_of_others(shorter, id);
        let left = rows_of_others(rows, id);
        assert forall|i: int, j: int|
            #![trigger shorter[i], shorter[j]]
            0 <= i < j < shorter.len() implies !(shorter[i].located() == shorter[j].located()
            && shorter[i].segment() == shorter[j].segment()) by {
            assert(shorter[i] == rows[i] && shorter[j] == rows[j]);
        }
        lemma_others_distinct(shorter, id);
        law_deletion_leaves_other_rows(shorter, id);
        assert forall|i: int, j: int|
            #![trigger left[i], left[j]]
            0 <= i < j < left.len() implies !(left[i].located() == left[j].located()
            && left[i].segment() == left[j].segment()) by {
            assert(left[i] == before[i]);
            if j < before.len() {
                assert(left[j] == before[j]);
            } else {
                assert(shorter.contains(before[i]));
                let a = choose|a: int| 0 <= a < shorter.len() && shorter[a] == before[i];
                assert(rows[a] == left[i]);
                assert(rows[rows.len() - 1] == left[j]);
            }
        }
    }
}

/// Rows of a segment that had none, each of another hash, keep the rows
/// distinct and leading into the catalog.
pub proof fn lemma_locators_added<T: Locates>(
    before: Seq<T>,
    after: Seq<T>,
    segments: Seq<StoredSegment>,
    grown: Seq<StoredSegment>,
    id: Seq<char>,
)
    requires
        lead_into(before, segments),
        distinct_locators(before),
        first_segment(segments, id, 0) is None,
        grown.len() == segments.len() + 1,
        grown.drop_last() == segments,
        grown.last().record.metadata.id@ == id,
        before.len() <= after.len(),
        after.take(before.len() as int) == before,
        forall|i: int| before.len() <= i < after.len() ==> (#[trigger] after[i]).segment() == id,
        forall|i: int, j: int|
            #![trigger after[i], after[j]]
            before.len() <= i < j < after.len() ==> after[i].located() != after[j].located(),
    ensures
        lead_into(after, grown),
        distinct_locators(after),
{
    assert forall|i: int| 0 <= i < before.len() implies after[i] == (#[trigger] before[i]) by {
        assert(after.take(before.len() as int)[i] == after[i]);
    }
    assert forall|i: int| 0 <= i < after.len() implies first_segment(
        grown,
        (#[trigger] after[i]).segment(),
        0,
    ) is Some by {
        let name = after[i].segment();
        lemma_first_segment(grown, name, 0);
        if i < before.len() {
            assert(after[i] == before[i]);
            assert(first_segment(segments, before[i].segment(), 0) is Some);
            lemma_first_segment(segments, name, 0);
            let k = first_segment(segments, name, 0)->0;
            assert(grown.drop_last()[k] == grown[k]);
        } else {
            assert(grown[grown.len() - 1].record.metadata.id@ == name);
        }
    }
    assert forall|i: int, j: int|
        #![trigger after[i], after[j]]
        0 <= i < j < after.len() implies !(after[i].located() == after[j].located()
        && after[i].segment() == after[j].segment()) by {
        if j < before.len() {
            assert(after[i] == before[i]);
            assert(after[j] == before[j]);
        } else if i < before.len() {
            assert(after[i] == before[i]);
            assert(first_segment(segments, before[i].segment(), 0) is Some);
        }
    }
}

} // verus!
