//! Stable sorting by key, and grouping.

use crate::order::{lemma_irreflexive, lemma_total, lemma_transitive, place, precedes, Keyed, Place};
use vstd::prelude::*;

verus! {

/// How many values of a sorted list come before a key.
pub open spec fn insertion_place<T: Keyed>(sorted: Seq<T>, key: Seq<u8>) -> int
    decreases sorted.len(),
{
    if sorted.len() == 0 || !precedes(sorted[0].key(), key) {
        0
    } else {
        1 + insertion_place(sorted.drop_first(), key)
    }
}

/// The values by ascending key. Values of one key keep their order.
pub open spec fn stable_order<T: Keyed>(values: Seq<T>) -> Seq<T>
    decreases values.len(),
{
    if values.len() == 0 {
        values
    } else {
        let rest = stable_order(values.drop_first());
        rest.insert(insertion_place(rest, values[0].key()), values[0])
    }
}

proof fn lemma_insertion_place<T: Keyed>(sorted: Seq<T>, key: Seq<u8>)
    ensures
        0 <= insertion_place(sorted, key) <= sorted.len(),
        forall|i: int|
            0 <= i < insertion_place(sorted, key) ==> precedes((#[trigger] sorted[i]).key(), key),
        insertion_place(sorted, key) < sorted.len() ==> !precedes(
            sorted[insertion_place(sorted, key)].key(),
            key,
        ),
    decreases sorted.len(),
{
    if sorted.len() > 0 && precedes(sorted[0].key(), key) {
        let rest = sorted.drop_first();
        lemma_insertion_place(rest, key);
        assert forall|i: int| 0 <= i < insertion_place(sorted, key) implies precedes(
            (#[trigger] sorted[i]).key(),
            key,
        ) by {
            if i > 0 {
                assert(rest[i - 1] == sorted[i]);
            }
        }
    }
}

proof fn lemma_place_is_first<T: Keyed>(sorted: Seq<T>, key: Seq<u8>, at: int)
    requires
        0 <= at <= sorted.len(),
        forall|i: int| 0 <= i < at ==> precedes((#[trigger] sorted[i]).key(), key),
        at < sorted.len() ==> !precedes(sorted[at].key(), key),
    ensures
        insertion_place(sorted, key) == at,
    decreases sorted.len(),
{
    if at > 0 {
        let rest = sorted.drop_first();
        assert forall|i: int| 0 <= i < at - 1 implies precedes((#[trigger] rest[i]).key(), key) by {
            assert(rest[i] == sorted[i + 1]);
        }
        lemma_place_is_first(rest, key, at - 1);
    }
}

/// Sorts by ascending key. Values of one key keep their order.
pub fn stable_sort<T: Keyed>(values: Vec<T>) -> (sorted: Vec<T>)
    ensures
        sorted@ == stable_order(values@),
{
    let ghost all = values@;
    let mut rest: Vec<T> = values;
    let mut sorted: Vec<T> = Vec::new();
    proof {
        assert(all.skip(all.len() as int) =~= Seq::<T>::empty());
        assert(rest@ =~= all.take(rest@.len() as int));
    }
    while rest.len() > 0
        invariant
            rest@.len() <= all.len(),
            rest@ == all.take(rest@.len() as int),
            sorted@ == stable_order(all.skip(rest@.len() as int)),
        decreases rest@.len(),
    {
        let ghost count = rest@.len() as int;
        match rest.pop() {
            Some(value) => {
                let key: Vec<u8> = value.key_bytes();
                let at: usize = insertion_index(&sorted, &key);
                proof {
                    assert(value == all[count - 1]);
                    assert(rest@ =~= all.take(count - 1));
                    assert(all.skip(count - 1).drop_first() =~= all.skip(count));
                    assert(all.skip(count - 1)[0] == value);
                    lemma_insertion_place(sorted@, value.key());
                }
                sorted.insert(at, value);
            },
            None => {},
        }
    }
    assert(all.skip(0) =~= all);
    sorted
}

fn insertion_index<T: Keyed>(sorted: &Vec<T>, key: &Vec<u8>) -> (at: usize)
    ensures
        at == insertion_place(sorted@, key@),
        at <= sorted.len(),
{
    let mut at: usize = 0;
    while at < sorted.len()
        invariant
            at <= sorted.len(),
            forall|i: int| 0 <= i < at ==> precedes((#[trigger] sorted@[i]).key(), key@),
        decreases sorted.len() - at,
    {
        let other: Vec<u8> = sorted[at].key_bytes();
        if place(other.as_slice(), key.as_slice()) != Place::Before {
            proof {
                lemma_place_is_first(sorted@, key@, at as int);
            }
            return at;
        }
        at += 1;
    }
    proof {
        lemma_place_is_first(sorted@, key@, at as int);
    }
    at
}

/// No key comes before an earlier one.
pub open spec fn keys_ascend<T: Keyed>(values: Seq<T>) -> bool {
    forall|i: int, j: int|
        #![trigger values[i], values[j]]
        0 <= i < j < values.len() ==> !precedes(values[j].key(), values[i].key())
}

/// Sorting gives the same values by ascending key.
pub proof fn law_sorting_orders<T: Keyed>(values: Seq<T>)
    ensures
        keys_ascend(stable_order(values)),
        stable_order(values).to_multiset() == values.to_multiset(),
        stable_order(values).len() == values.len(),
    decreases values.len(),
{
    if values.len() > 0 {
        let tail = values.drop_first();
        let rest = stable_order(tail);
        let value = values[0];
        let at = insertion_place(rest, value.key());
        law_sorting_orders(tail);
        lemma_insertion_place(rest, value.key());
        let sorted = stable_order(values);
        assert forall|i: int, j: int|
            #![trigger sorted[i], sorted[j]]
            0 <= i < j < sorted.len() implies !precedes(sorted[j].key(), sorted[i].key()) by {
            let from = if i < at { i } else { i - 1 };
            let to = if j < at { j } else { j - 1 };
            if i == at {
                assert(sorted[j] == rest[to]);
                assert(sorted[i] == value);
                if to > at {
                    assert(!precedes(rest[to].key(), rest[at].key()));
                    if precedes(rest[to].key(), value.key()) {
                        lemma_total(rest[at].key(), value.key());
                        if precedes(value.key(), rest[at].key()) {
                            lemma_transitive(rest[to].key(), value.key(), rest[at].key());
                        }
                    }
                }
            } else if j == at {
                assert(sorted[i] == rest[i]);
                assert(sorted[j] == value);
                if precedes(value.key(), rest[i].key()) {
                    lemma_transitive(value.key(), rest[i].key(), value.key());
                    lemma_irreflexive(value.key());
                }
            } else {
                assert(sorted[i] == rest[from]);
                assert(sorted[j] == rest[to]);
            }
        }
        vstd::seq_lib::to_multiset_insert(rest, at, value);
        assert(values =~= seq![value] + tail);
        assert(values =~= tail.insert(0, value));
        vstd::seq_lib::to_multiset_insert(tail, 0, value);
    } else {
        assert(stable_order(values) == values);
    }
}

/// The values of one group, in order.
pub open spec fn group_of<T>(rows: Seq<(u64, T)>, group: u64) -> Seq<T>
    decreases rows.len(),
{
    if rows.len() == 0 {
        Seq::empty()
    } else {
        let before = group_of(rows.drop_last(), group);
        if rows.last().0 == group {
            before.push(rows.last().1)
        } else {
            before
        }
    }
}

/// The rows that are not of a group, in order.
pub open spec fn without_group<T>(rows: Seq<(u64, T)>, group: u64) -> Seq<(u64, T)>
    decreases rows.len(),
{
    if rows.len() == 0 {
        Seq::empty()
    } else {
        let before = without_group(rows.drop_last(), group);
        if rows.last().0 == group {
            before
        } else {
            before.push(rows.last())
        }
    }
}

/// Taking one group away leaves every other as it was.
pub proof fn lemma_other_groups<T>(rows: Seq<(u64, T)>, group: u64, other: u64)
    ensures
        group_of(without_group(rows, group), other) == if other == group {
            Seq::<T>::empty()
        } else {
            group_of(rows, other)
        },
    decreases rows.len(),
{
    if rows.len() > 0 {
        lemma_other_groups(rows.drop_last(), group, other);
        if rows.last().0 != group {
            let before = without_group(rows.drop_last(), group);
            assert(without_group(rows, group).drop_last() =~= before);
        }
    }
}

/// Takes the values of one group out of a table.
pub fn take_group<T>(rows: &mut Vec<(u64, T)>, group: u64) -> (values: Vec<T>)
    ensures
        values@ == group_of(old(rows)@, group),
        final(rows)@ == without_group(old(rows)@, group),
{
    let ghost all = rows@;
    let mut backwards: Vec<(u64, T)> = Vec::new();
    let mut values: Vec<T> = Vec::new();
    proof {
        assert(all.take(all.len() as int) =~= all);
    }
    while rows.len() > 0
        invariant
            rows@.len() + backwards@.len() == all.len(),
            rows@ == all.take(rows@.len() as int),
            forall|i: int|
                0 <= i < backwards@.len() ==> #[trigger] backwards@[i] == all[all.len() - 1 - i],
        decreases rows@.len(),
    {
        let ghost count = rows@.len() as int;
        if let Some(row) = rows.pop() {
            backwards.push(row);
            assert(rows@ =~= all.take(count - 1));
        }
    }
    proof {
        assert(all.take(0) =~= Seq::<(u64, T)>::empty());
        assert(rows@ =~= Seq::<(u64, T)>::empty());
    }
    while backwards.len() > 0
        invariant
            backwards@.len() <= all.len(),
            forall|i: int|
                0 <= i < backwards@.len() ==> #[trigger] backwards@[i] == all[all.len() - 1 - i],
            values@ == group_of(all.take(all.len() - backwards@.len()), group),
            rows@ == without_group(all.take(all.len() - backwards@.len()), group),
        decreases backwards@.len(),
    {
        let ghost done = all.len() - backwards@.len();
        if let Some(row) = backwards.pop() {
            proof {
                let longer = all.take(done + 1);
                assert(longer.drop_last() =~= all.take(done));
                assert(longer.last() == row);
            }
            if row.0 == group {
                values.push(row.1);
            } else {
                rows.push(row);
            }
        }
    }
    assert(all.take(all.len() as int) =~= all);
    values
}

/// Copies the values of one group of a table.
pub fn copy_group<T: Copy>(rows: &Vec<(u64, T)>, group: u64) -> (values: Vec<T>)
    ensures
        values@ == group_of(rows@, group),
{
    let mut values: Vec<T> = Vec::new();
    let mut index: usize = 0;
    while index < rows.len()
        invariant
            index <= rows@.len(),
            values@ == group_of(rows@.take(index as int), group),
        decreases rows@.len() - index,
    {
        proof {
            let longer = rows@.take(index + 1);
            assert(longer.drop_last() =~= rows@.take(index as int));
            assert(longer.last() == rows@[index as int]);
        }
        if rows[index].0 == group {
            values.push(rows[index].1);
        }
        index += 1;
    }
    assert(rows@.take(index as int) =~= rows@);
    values
}

/// The values from the last to the first.
pub fn reversed<T>(values: Vec<T>) -> (backwards: Vec<T>)
    ensures
        backwards@.len() == values@.len(),
        forall|i: int|
            0 <= i < backwards@.len() ==> #[trigger] backwards@[i] == values@[values@.len() - 1 - i],
{
    let ghost all = values@;
    let mut rest: Vec<T> = values;
    let mut backwards: Vec<T> = Vec::new();
    while rest.len() > 0
        invariant
            rest@.len() + backwards@.len() == all.len(),
            rest@ == all.take(rest@.len() as int),
            forall|i: int|
                0 <= i < backwards@.len() ==> #[trigger] backwards@[i] == all[all.len() - 1 - i],
        decreases rest@.len(),
    {
        let ghost count = rest@.len() as int;
        if let Some(value) = rest.pop() {
            backwards.push(value);
            assert(rest@ =~= all.take(count - 1));
        }
    }
    backwards
}

} // verus!
