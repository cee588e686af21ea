//! Byte-wise lexicographic order, and sorting without repetition by it.

use vstd::prelude::*;

verus! {

/// `left` comes before `right` in byte-wise lexicographic order.
pub open spec fn precedes(left: Seq<u8>, right: Seq<u8>) -> bool
    decreases left.len(),
{
    if right.len() == 0 {
        false
    } else if left.len() == 0 {
        true
    } else if left[0] != right[0] {
        left[0] < right[0]
    } else {
        precedes(left.drop_first(), right.drop_first())
    }
}

/// Nothing precedes itself.
pub proof fn lemma_irreflexive(value: Seq<u8>)
    ensures
        !precedes(value, value),
    decreases value.len(),
{
    if value.len() > 0 {
        lemma_irreflexive(value.drop_first());
    }
}

/// The order is transitive.
pub proof fn lemma_transitive(first: Seq<u8>, second: Seq<u8>, third: Seq<u8>)
    requires
        precedes(first, second),
        precedes(second, third),
    ensures
        precedes(first, third),
    decreases first.len(),
{
    if first.len() > 0 && second.len() > 0 && third.len() > 0 && first[0] == second[0] && second[0]
        == third[0] {
        lemma_transitive(first.drop_first(), second.drop_first(), third.drop_first());
    }
}

/// Of two different values one precedes the other.
pub proof fn lemma_total(left: Seq<u8>, right: Seq<u8>)
    ensures
        left == right || precedes(left, right) || precedes(right, left),
    decreases left.len(),
{
    if left.len() > 0 && right.len() > 0 {
        if left[0] == right[0] {
            lemma_total(left.drop_first(), right.drop_first());
            if left.drop_first() == right.drop_first() {
                assert(left =~= seq![left[0]] + left.drop_first());
                assert(right =~= seq![right[0]] + right.drop_first());
            }
        }
    } else if left.len() == 0 && right.len() == 0 {
        assert(left =~= right);
    }
}

/// The place of one value relative to another.
#[derive(Clone, Copy, Debug, PartialEq, Eq, Structural)]
pub enum Place {
    Before,
    Same,
    After,
}

/// Where `left` stands relative to `right`.
pub fn place(left: &[u8], right: &[u8]) -> (place: Place)
    ensures
        place == Place::Before <==> precedes(left@, right@),
        place == Place::Same <==> left@ == right@,
        place == Place::After <==> precedes(right@, left@),
{
    let mut index: usize = 0;
    proof {
        assert(left@.skip(0) =~= left@);
        assert(right@.skip(0) =~= right@);
        lemma_irreflexive(left@);
        lemma_irreflexive(right@);
        if precedes(left@, right@) && precedes(right@, left@) {
            lemma_transitive(left@, right@, left@);
        }
    }
    while index < left.len() && index < right.len()
        invariant
            index <= left@.len(),
            index <= right@.len(),
            left@.take(index as int) == right@.take(index as int),
            precedes(left@, right@) == precedes(left@.skip(index as int), right@.skip(index as int)),
            precedes(right@, left@) == precedes(right@.skip(index as int), left@.skip(index as int)),
            !(precedes(left@, right@) && precedes(right@, left@)),
            left@ == right@ ==> !precedes(left@, right@),
        decreases left@.len() - index,
    {
        let first: u8 = left[index];
        let second: u8 = right[index];
        proof {
            assert(left@.skip(index as int)[0] == first);
            assert(right@.skip(index as int)[0] == second);
            assert(left@.skip(index as int).drop_first() =~= left@.skip(index + 1));
            assert(right@.skip(index as int).drop_first() =~= right@.skip(index + 1));
        }
        if first < second {
            return Place::Before;
        }
        if first > second {
            return Place::After;
        }
        proof {
            assert(left@.take(index + 1) =~= left@.take(index as int).push(first));
            assert(right@.take(index + 1) =~= right@.take(index as int).push(second));
        }
        index += 1;
    }
    if left.len() == right.len() {
        proof {
            assert(left@ =~= left@.take(index as int));
            assert(right@ =~= right@.take(index as int));
        }
        Place::Same
    } else if index == left.len() {
        assert(left@.skip(index as int).len() == 0);
        Place::Before
    } else {
        assert(right@.skip(index as int).len() == 0);
        Place::After
    }
}

/// A value that is ordered by bytes.
pub trait Keyed: Sized {
    /// The bytes that order the value.
    spec fn key(&self) -> Seq<u8>;

    fn key_bytes(&self) -> (bytes: Vec<u8>)
        ensures
            bytes@ == self.key(),
    ;
}

/// Keys that ascend without repetition.
pub open spec fn ascending<T: Keyed>(values: Seq<T>) -> bool {
    forall|i: int, j: int|
        #![trigger values[i], values[j]]
        0 <= i < j < values.len() ==> precedes(values[i].key(), values[j].key())
}

/// Some value has this key.
pub open spec fn has_key<T: Keyed>(values: Seq<T>, key: Seq<u8>) -> bool {
    exists|i: int| 0 <= i < values.len() && #[trigger] values[i].key() == key
}

/// Ascending keys are determined by which keys there are.
pub proof fn lemma_ascending_unique<T: Keyed>(left: Seq<T>, right: Seq<T>)
    requires
        ascending(left),
        ascending(right),
        forall|key: Seq<u8>| #[trigger] has_key(left, key) <==> has_key(right, key),
    ensures
        left.len() == right.len(),
        forall|i: int| 0 <= i < left.len() ==> (#[trigger] left[i]).key() == right[i].key(),
    decreases left.len(),
{
    if left.len() == 0 {
        if right.len() > 0 {
            assert(has_key(right, right[0].key()));
            assert(has_key(left, right[0].key()));
        }
    } else {
        assert(has_key(left, left[0].key()));
        assert(has_key(right, left[0].key()));
        let l = left.len() - 1;
        let r = right.len() - 1;
        assert(has_key(left, left[l].key()));
        assert(has_key(right, left[l].key()));
        assert(has_key(right, right[r].key()));
        assert(has_key(left, right[r].key()));
        let i = choose|i: int| 0 <= i < left.len() && #[trigger] left[i].key() == right[r].key();
        let j = choose|j: int| 0 <= j < right.len() && #[trigger] right[j].key() == left[l].key();
        if i < l && j < r {
            lemma_transitive(left[i].key(), left[l].key(), right[r].key());
            lemma_irreflexive(left[i].key());
        }
        assert(left[l].key() == right[r].key());
        let top = left[l].key();
        let shorter_left = left.drop_last();
        let shorter_right = right.drop_last();
        assert forall|key: Seq<u8>| #[trigger]
            has_key(shorter_left, key) <==> has_key(shorter_right, key) by {
            lemma_irreflexive(top);
            if has_key(shorter_left, key) {
                let a = choose|a: int|
                    0 <= a < shorter_left.len() && #[trigger] shorter_left[a].key() == key;
                assert(left[a].key() == key);
                assert(precedes(left[a].key(), left[l].key()));
                assert(has_key(left, key));
                assert(has_key(right, key));
                let b = choose|b: int| 0 <= b < right.len() && #[trigger] right[b].key() == key;
                assert(b != r);
                assert(shorter_right[b].key() == key);
            }
            if has_key(shorter_right, key) {
                let a = choose|a: int|
                    0 <= a < shorter_right.len() && #[trigger] shorter_right[a].key() == key;
                assert(right[a].key() == key);
                assert(precedes(right[a].key(), right[r].key()));
                assert(has_key(right, key));
                assert(has_key(left, key));
                let b = choose|b: int| 0 <= b < left.len() && #[trigger] left[b].key() == key;
                assert(b != l);
                assert(shorter_left[b].key() == key);
            }
        }
        assert(ascending(shorter_left)) by {
            assert forall|a: int, b: int|
                #![trigger shorter_left[a], shorter_left[b]]
                0 <= a < b < shorter_left.len() implies precedes(
                shorter_left[a].key(),
                shorter_left[b].key(),
            ) by {
                assert(shorter_left[a] == left[a] && shorter_left[b] == left[b]);
            }
        }
        assert(ascending(shorter_right)) by {
            assert forall|a: int, b: int|
                #![trigger shorter_right[a], shorter_right[b]]
                0 <= a < b < shorter_right.len() implies precedes(
                shorter_right[a].key(),
                shorter_right[b].key(),
            ) by {
                assert(shorter_right[a] == right[a] && shorter_right[b] == right[b]);
            }
        }
        lemma_ascending_unique(shorter_left, shorter_right);
        assert forall|a: int| 0 <= a < left.len() implies (#[trigger] left[a]).key()
            == right[a].key() by {
            if a < l {
                assert(shorter_left[a] == left[a] && shorter_right[a] == right[a]);
            }
        }
    }
}

/// Puts `value` in its place, unless its key is there already.
fn insert_sorted<T: Keyed>(sorted: &mut Vec<T>, value: T)
    requires
        ascending(old(sorted)@),
    ensures
        ascending(final(sorted)@),
        forall|key: Seq<u8>| #[trigger]
            has_key(final(sorted)@, key) <==> has_key(old(sorted)@, key) || key == value.key(),
        forall|i: int|
            0 <= i < final(sorted)@.len() ==> (#[trigger] final(sorted)@[i] == value || old(
                sorted,
            )@.contains(final(sorted)@[i])),
{
    let ghost before = sorted@;
    let mut at: usize = 0;
    while at < sorted.len()
        invariant_except_break
            at <= sorted@.len(),
            sorted@ == before,
            ascending(before),
            forall|i: int| 0 <= i < at ==> precedes(#[trigger] before[i].key(), value.key()),
        ensures
            at <= sorted@.len(),
            sorted@ == before,
            forall|i: int| 0 <= i < at ==> precedes(#[trigger] before[i].key(), value.key()),
            at < before.len() ==> precedes(value.key(), before[at as int].key()),
        decreases sorted@.len() - at,
    {
        match place(sorted[at].key_bytes().as_slice(), value.key_bytes().as_slice()) {
            Place::Before => {
                at += 1;
            },
            Place::Same => {
                proof {
                    assert(has_key(before, value.key())) by {
                        assert(before[at as int].key() == value.key());
                    }
                }
                return ;
            },
            Place::After => {
                break;
            },
        }
    }
    sorted.insert(at, value);
    proof {
        let after = sorted@;
        assert(after == before.insert(at as int, value));
        assert forall|i: int, j: int|
            #![trigger after[i], after[j]]
            0 <= i < j < after.len() implies precedes(after[i].key(), after[j].key()) by {
            if j == at {
                assert(after[i] == before[i]);
            } else if i == at {
                assert(after[j] == before[j - 1]);
                if j - 1 > at {
                    assert(precedes(before[at as int].key(), before[j - 1].key()));
                    lemma_transitive(value.key(), before[at as int].key(), before[j - 1].key());
                }
            } else {
                let a = if i < at {
                    i
                } else {
                    i - 1
                };
                let b = if j < at {
                    j
                } else {
                    j - 1
                };
                assert(after[i] == before[a]);
                assert(after[j] == before[b]);
            }
        }
        assert forall|key: Seq<u8>| #[trigger]
            has_key(after, key) <==> has_key(before, key) || key == value.key() by {
            if has_key(after, key) {
                let i = choose|i: int| 0 <= i < after.len() && #[trigger] after[i].key() == key;
                if i < at {
                    assert(after[i] == before[i]);
                } else if i > at {
                    assert(after[i] == before[i - 1]);
                }
            }
            if has_key(before, key) {
                let i = choose|i: int| 0 <= i < before.len() && #[trigger] before[i].key() == key;
                if i < at {
                    assert(after[i] == before[i]);
                } else {
                    assert(after[i + 1] == before[i]);
                }
            }
            if key == value.key() {
                assert(after[at as int] == value);
            }
        }
        assert forall|i: int| 0 <= i < after.len() implies (#[trigger] after[i] == value
            || before.contains(after[i])) by {
            if i < at {
                assert(before[i] == after[i]);
            } else if i > at {
                assert(before[i - 1] == after[i]);
            }
        }
    }
}

/// Sorts by key and keeps one value per key.
pub fn sort_dedup<T: Keyed>(values: Vec<T>) -> (sorted: Vec<T>)
    ensures
        ascending(sorted@),
        forall|key: Seq<u8>| #[trigger] has_key(sorted@, key) <==> has_key(values@, key),
        forall|i: int| 0 <= i < sorted@.len() ==> values@.contains(#[trigger] sorted@[i]),
{
    let ghost all = values@;
    let mut rest: Vec<T> = values;
    let mut sorted: Vec<T> = Vec::new();
    proof {
        assert(all.skip(all.len() as int).len() == 0);
        assert forall|key: Seq<u8>| #[trigger]
            has_key(sorted@, key) <==> has_key(all.skip(rest@.len() as int), key) by {}
    }
    while rest.len() > 0
        invariant
            rest@ == all.take(rest@.len() as int),
            rest@.len() <= all.len(),
            ascending(sorted@),
            forall|key: Seq<u8>| #[trigger]
                has_key(sorted@, key) <==> has_key(all.skip(rest@.len() as int), key),
            forall|i: int| 0 <= i < sorted@.len() ==> all.contains(#[trigger] sorted@[i]),
        decreases rest@.len(),
    {
        let ghost count = rest@.len() as int;
        let ghost held = sorted@;
        match rest.pop() {
            Some(value) => {
                proof {
                    assert(value == all[count - 1]);
                    assert(rest@ =~= all.take(count - 1));
                }
                insert_sorted(&mut sorted, value);
                proof {
                    let tail = all.skip(count - 1);
                    let shorter = all.skip(count);
                    assert forall|key: Seq<u8>| #[trigger]
                        has_key(sorted@, key) <==> has_key(tail, key) by {
                        assert(has_key(held, key) <==> has_key(shorter, key));
                        if has_key(tail, key) {
                            let i = choose|i: int|
                                0 <= i < tail.len() && #[trigger] tail[i].key() == key;
                            if i > 0 {
                                assert(shorter[i - 1] == tail[i]);
                            }
                        }
                        if has_key(shorter, key) {
                            let i = choose|i: int|
                                0 <= i < shorter.len() && #[trigger] shorter[i].key() == key;
                            assert(tail[i + 1] == shorter[i]);
                        }
                        if key == value.key() {
                            assert(tail[0] == value);
                        }
                    }
                    assert forall|i: int| 0 <= i < sorted@.len() implies all.contains(
                        #[trigger] sorted@[i],
                    ) by {
                        if sorted@[i] == value {
                            assert(all[count - 1] == sorted@[i]);
                        } else {
                            let j = choose|j: int| 0 <= j < held.len() && held[j] == sorted@[i];
                            assert(all.contains(held[j]));
                        }
                    }
                }
            },
            None => {},
        }
    }
    proof {
        assert(all.skip(0) =~= all);
    }
    sorted
}

} // verus!
