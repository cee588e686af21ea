//! In-memory reducer transaction.

use crate::bytes::{push_bytes, same_bytes};
use crate::frame_view::views;
use crate::order::{
    lemma_irreflexive, lemma_total, lemma_transitive, place, precedes, Place,
};
use crate::text::same_text;
use vstd::prelude::*;

verus! {

/// What a change does to its key.
#[derive(Clone, Copy, Debug, PartialEq, Eq, Structural)]
pub enum ChangeOperation {
    Upsert,
    Delete,
}

/// One change of a processor's output.
#[derive(Debug)]
pub struct DomainChange {
    pub kind: String,
    pub key: Vec<u8>,
    pub operation: ChangeOperation,
    pub payload: Vec<u8>,
}

/// A change by value.
pub struct ChangeView {
    pub kind: Seq<char>,
    pub key: Seq<u8>,
    pub operation: ChangeOperation,
    pub payload: Seq<u8>,
}

impl View for DomainChange {
    type V = ChangeView;

    open spec fn view(&self) -> ChangeView {
        ChangeView {
            kind: self.kind@,
            key: self.key@,
            operation: self.operation,
            payload: self.payload@,
        }
    }
}

/// Copies bytes.
pub(crate) fn copy_bytes(bytes: &[u8]) -> (copy: Vec<u8>)
    ensures
        copy@ == bytes@,
{
    let mut copy: Vec<u8> = Vec::new();
    push_bytes(&mut copy, bytes);
    assert(copy@ =~= bytes@);
    copy
}

impl Clone for DomainChange {
    fn clone(&self) -> (copy: DomainChange)
        ensures
            copy@ == self@,
    {
        DomainChange {
            kind: self.kind.clone(),
            key: copy_bytes(self.key.as_slice()),
            operation: self.operation,
            payload: copy_bytes(self.payload.as_slice()),
        }
    }
}

/// One value of a collection.
#[derive(Debug)]
pub struct Entity {
    pub collection: String,
    pub key: Vec<u8>,
    pub value: Vec<u8>,
}

/// One value of a collection, by value.
pub struct EntityView {
    pub collection: Seq<char>,
    pub key: Seq<u8>,
    pub value: Seq<u8>,
}

impl View for Entity {
    type V = EntityView;

    open spec fn view(&self) -> EntityView {
        EntityView { collection: self.collection@, key: self.key@, value: self.value@ }
    }
}

/// The keys of one collection ascend.
pub open spec fn keys_ordered(entities: Seq<EntityView>) -> bool {
    forall|i: int, j: int|
        #![trigger entities[i], entities[j]]
        0 <= i < j < entities.len() && entities[i].collection == entities[j].collection ==> precedes(
            entities[i].key,
            entities[j].key,
        )
}

/// Where a key stands, or would stand, among those of its collection.
pub open spec fn slot(
    entities: Seq<EntityView>,
    collection: Seq<char>,
    key: Seq<u8>,
    from: int,
) -> int
    decreases entities.len() - from,
{
    if from >= entities.len() {
        entities.len() as int
    } else if entities[from].collection == collection && !precedes(entities[from].key, key) {
        from
    } else {
        slot(entities, collection, key, from + 1)
    }
}

/// The value of a key is at its slot.
pub open spec fn is_at(
    entities: Seq<EntityView>,
    at: int,
    collection: Seq<char>,
    key: Seq<u8>,
) -> bool {
    0 <= at < entities.len() && entities[at].collection == collection && entities[at].key == key
}

/// The value of a key, if it has one.
pub open spec fn value_of(
    entities: Seq<EntityView>,
    collection: Seq<char>,
    key: Seq<u8>,
) -> Option<Seq<u8>> {
    let at = slot(entities, collection, key, 0);
    if is_at(entities, at, collection, key) {
        Some(entities[at].value)
    } else {
        None
    }
}

/// The values with a key set.
pub open spec fn with_value(
    entities: Seq<EntityView>,
    collection: Seq<char>,
    key: Seq<u8>,
    value: Seq<u8>,
) -> Seq<EntityView> {
    let at = slot(entities, collection, key, 0);
    let entity = EntityView { collection, key, value };
    if is_at(entities, at, collection, key) {
        entities.update(at, entity)
    } else {
        entities.insert(at, entity)
    }
}

/// The values without a key.
pub open spec fn without_value(
    entities: Seq<EntityView>,
    collection: Seq<char>,
    key: Seq<u8>,
) -> Seq<EntityView> {
    let at = slot(entities, collection, key, 0);
    if is_at(entities, at, collection, key) {
        entities.remove(at)
    } else {
        entities
    }
}

proof fn lemma_slot(entities: Seq<EntityView>, collection: Seq<char>, key: Seq<u8>, from: int)
    requires
        0 <= from <= entities.len(),
    ensures
        from <= slot(entities, collection, key, from) <= entities.len(),
        forall|i: int|
            from <= i < slot(entities, collection, key, from) && (
            #[trigger] entities[i]).collection == collection ==> precedes(entities[i].key, key),
        slot(entities, collection, key, from) < entities.len() ==> {
            let next = entities[slot(entities, collection, key, from)];
            next.collection == collection && !precedes(next.key, key)
        },
    decreases entities.len() - from,
{
    if from < entities.len() && !(entities[from].collection == collection && !precedes(
        entities[from].key,
        key,
    )) {
        lemma_slot(entities, collection, key, from + 1);
    }
}

/// A key stands in at most one place, and a lookup finds it there.
proof fn lemma_found(
    entities: Seq<EntityView>,
    at: int,
    collection: Seq<char>,
    key: Seq<u8>,
)
    requires
        keys_ordered(entities),
        is_at(entities, at, collection, key),
    ensures
        slot(entities, collection, key, 0) == at,
{
    lemma_slot(entities, collection, key, 0);
    let found = slot(entities, collection, key, 0);
    lemma_irreflexive(key);
    if found < at {
        assert(precedes(entities[found].key, entities[at].key));
    } else if at < found {
        assert(precedes(entities[at].key, key));
    }
}

/// Setting a key keeps the keys of every collection in order.
pub proof fn lemma_with_value_ordered(
    entities: Seq<EntityView>,
    collection: Seq<char>,
    key: Seq<u8>,
    value: Seq<u8>,
)
    requires
        keys_ordered(entities),
    ensures
        keys_ordered(with_value(entities, collection, key, value)),
{
    let at = slot(entities, collection, key, 0);
    lemma_slot(entities, collection, key, 0);
    let after = with_value(entities, collection, key, value);
    if is_at(entities, at, collection, key) {
        assert forall|i: int, j: int|
            #![trigger after[i], after[j]]
            0 <= i < j < after.len() && after[i].collection == after[j].collection implies precedes(
            after[i].key,
            after[j].key,
        ) by {
            assert(entities[i].key == after[i].key && entities[j].key == after[j].key);
            assert(entities[i].collection == after[i].collection && entities[j].collection
                == after[j].collection);
        }
    } else {
        assert forall|i: int, j: int|
            #![trigger after[i], after[j]]
            0 <= i < j < after.len() && after[i].collection == after[j].collection implies precedes(
            after[i].key,
            after[j].key,
        ) by {
            if i == at {
                assert(after[j] == entities[j - 1]);
                lemma_total(entities[at].key, key);
                if j - 1 > at {
                    assert(precedes(entities[at].key, entities[j - 1].key));
                    lemma_transitive(key, entities[at].key, entities[j - 1].key);
                }
            } else if j == at {
                assert(after[i] == entities[i]);
            } else {
                let left = if i < at {
                    i
                } else {
                    i - 1
                };
                let right = if j < at {
                    j
                } else {
                    j - 1
                };
                assert(after[i] == entities[left] && after[j] == entities[right]);
            }
        }
    }
}

/// What was put is got, and every other key keeps its value.
pub proof fn law_put_is_got(
    entities: Seq<EntityView>,
    collection: Seq<char>,
    key: Seq<u8>,
    value: Seq<u8>,
    other_collection: Seq<char>,
    other_key: Seq<u8>,
)
    requires
        keys_ordered(entities),
    ensures
        value_of(with_value(entities, collection, key, value), collection, key) == Some(value),
        other_collection != collection || other_key != key ==> value_of(
            with_value(entities, collection, key, value),
            other_collection,
            other_key,
        ) == value_of(entities, other_collection, other_key),
{
    let at = slot(entities, collection, key, 0);
    lemma_slot(entities, collection, key, 0);
    lemma_with_value_ordered(entities, collection, key, value);
    let after = with_value(entities, collection, key, value);
    assert(after[at] == (EntityView { collection, key, value }));
    lemma_found(after, at, collection, key);
    if other_collection != collection || other_key != key {
        let old_at = slot(entities, other_collection, other_key, 0);
        lemma_slot(entities, other_collection, other_key, 0);
        let new_at = slot(after, other_collection, other_key, 0);
        lemma_slot(after, other_collection, other_key, 0);
        let replaced = is_at(entities, at, collection, key);
        if is_at(entities, old_at, other_collection, other_key) {
            let moved = if replaced || old_at < at {
                old_at
            } else {
                old_at + 1
            };
            assert(after[moved] == entities[old_at]);
            lemma_found(after, moved, other_collection, other_key);
        } else if is_at(after, new_at, other_collection, other_key) {
            assert(new_at != at);
            let before = if replaced || new_at < at {
                new_at
            } else {
                new_at - 1
            };
            assert(after[new_at] == entities[before]);
            lemma_found(entities, before, other_collection, other_key);
        }
    }
}

/// What was deleted is gone, and every other key keeps its value.
pub proof fn law_delete_removes(
    entities: Seq<EntityView>,
    collection: Seq<char>,
    key: Seq<u8>,
    other_collection: Seq<char>,
    other_key: Seq<u8>,
)
    requires
        keys_ordered(entities),
    ensures
        keys_ordered(without_value(entities, collection, key)),
        value_of(without_value(entities, collection, key), collection, key) is None,
        other_collection != collection || other_key != key ==> value_of(
            without_value(entities, collection, key),
            other_collection,
            other_key,
        ) == value_of(entities, other_collection, other_key),
{
    let at = slot(entities, collection, key, 0);
    lemma_slot(entities, collection, key, 0);
    let after = without_value(entities, collection, key);
    if is_at(entities, at, collection, key) {
        assert forall|i: int, j: int|
            #![trigger after[i], after[j]]
            0 <= i < j < after.len() && after[i].collection == after[j].collection implies precedes(
            after[i].key,
            after[j].key,
        ) by {
            let left = if i < at {
                i
            } else {
                i + 1
            };
            let right = if j < at {
                j
            } else {
                j + 1
            };
            assert(after[i] == entities[left] && after[j] == entities[right]);
        }
        let again = slot(after, collection, key, 0);
        lemma_slot(after, collection, key, 0);
        if is_at(after, again, collection, key) {
            let before = if again < at {
                again
            } else {
                again + 1
            };
            assert(after[again] == entities[before]);
            lemma_found(entities, before, collection, key);
        }
        if other_collection != collection || other_key != key {
            let old_at = slot(entities, other_collection, other_key, 0);
            lemma_slot(entities, other_collection, other_key, 0);
            let new_at = slot(after, other_collection, other_key, 0);
            lemma_slot(after, other_collection, other_key, 0);
            if is_at(entities, old_at, other_collection, other_key) {
                let moved = if old_at < at {
                    old_at
                } else {
                    old_at - 1
                };
                assert(after[moved] == entities[old_at]);
                lemma_found(after, moved, other_collection, other_key);
            } else if is_at(after, new_at, other_collection, other_key) {
                let before = if new_at < at {
                    new_at
                } else {
                    new_at + 1
                };
                assert(after[new_at] == entities[before]);
                lemma_found(entities, before, other_collection, other_key);
            }
        }
    }
}

fn find_slot(entities: &Vec<Entity>, collection: &str, key: &[u8]) -> (at: usize)
    ensures
        at == slot(views(entities@), collection@, key@, 0),
        at <= entities@.len(),
{
    let mut at: usize = 0;
    while at < entities.len()
        invariant
            at <= entities@.len(),
            slot(views(entities@), collection@, key@, 0) == slot(
                views(entities@),
                collection@,
                key@,
                at as int,
            ),
        decreases entities@.len() - at,
    {
        assert(views(entities@)[at as int] == entities@[at as int]@);
        if same_text(entities[at].collection.as_str(), collection) && place(
            entities[at].key.as_slice(),
            key,
        ) != Place::Before {
            return at;
        }
        at += 1;
    }
    at
}

fn holds_key(entities: &Vec<Entity>, at: usize, collection: &str, key: &[u8]) -> (holds: bool)
    ensures
        holds == is_at(views(entities@), at as int, collection@, key@),
{
    if at >= entities.len() {
        return false;
    }
    assert(views(entities@)[at as int] == entities@[at as int]@);
    same_text(entities[at].collection.as_str(), collection) && same_bytes(
        entities[at].key.as_slice(),
        key,
    )
}

fn look_up<'a>(entities: &'a Vec<Entity>, collection: &str, key: &[u8]) -> (value: Option<
    &'a Vec<u8>,
>)
    ensures
        match (value, value_of(views(entities@), collection@, key@)) {
            (Some(value), Some(expected)) => value@ == expected,
            (None, None) => true,
            _ => false,
        },
{
    let at: usize = find_slot(entities, collection, key);
    if holds_key(entities, at, collection, key) {
        Some(&entities[at].value)
    } else {
        None
    }
}

fn set_value(entities: &mut Vec<Entity>, collection: &str, key: Vec<u8>, value: Vec<u8>)
    requires
        keys_ordered(views(old(entities)@)),
    ensures
        views(final(entities)@) == with_value(views(old(entities)@), collection@, key@, value@),
        keys_ordered(views(final(entities)@)),
{
    let ghost before = views(entities@);
    proof {
        lemma_with_value_ordered(before, collection@, key@, value@);
    }
    let at: usize = find_slot(entities, collection, key.as_slice());
    let held = holds_key(entities, at, collection, key.as_slice());
    let ghost entity = EntityView { collection: collection@, key: key@, value: value@ };
    let entry = Entity { collection: collection.to_owned(), key, value };
    if held {
        entities.set(at, entry);
        assert(views(entities@) =~= before.update(at as int, entity));
    } else {
        entities.insert(at, entry);
        assert(views(entities@) =~= before.insert(at as int, entity));
    }
}

/// One entry of an index.
#[derive(Debug)]
pub struct IndexEntry {
    pub index: String,
    pub index_key: Vec<u8>,
    pub entity_key: Vec<u8>,
}

/// One entry of an index, by value.
pub struct IndexView {
    pub index: Seq<char>,
    pub index_key: Seq<u8>,
    pub entity_key: Seq<u8>,
}

impl View for IndexEntry {
    type V = IndexView;

    open spec fn view(&self) -> IndexView {
        IndexView {
            index: self.index@,
            index_key: self.index_key@,
            entity_key: self.entity_key@,
        }
    }
}

/// Everything a reducer holds. The indexes are a set.
#[verifier::ext_equal]
pub struct ReducerView {
    pub entities: Seq<EntityView>,
    pub states: Seq<EntityView>,
    pub indexes: Set<IndexView>,
    pub emitted: Seq<ChangeView>,
}

/// A reducer transaction in memory. Private state is kept apart from the
/// entities, under keys of its own; that is this library's choice.
#[derive(Debug)]
pub struct MemoryReducer {
    entities: Vec<Entity>,
    states: Vec<Entity>,
    indexes: Vec<IndexEntry>,
    emitted: Vec<DomainChange>,
}

impl View for MemoryReducer {
    type V = ReducerView;

    closed spec fn view(&self) -> ReducerView {
        ReducerView {
            entities: views(self.entities@),
            states: views(self.states@),
            indexes: views(self.indexes@).to_set(),
            emitted: views(self.emitted@),
        }
    }
}

impl Default for MemoryReducer {
    fn default() -> (reducer: MemoryReducer)
        ensures
            reducer.wf(),
            reducer@ == (ReducerView {
                entities: Seq::empty(),
                states: Seq::empty(),
                indexes: Set::empty(),
                emitted: Seq::empty(),
            }),
    {
        let reducer = MemoryReducer {
            entities: Vec::new(),
            states: Vec::new(),
            indexes: Vec::new(),
            emitted: Vec::new(),
        };
        proof {
            assert(reducer@.entities =~= Seq::empty());
            assert(reducer@.states =~= Seq::empty());
            assert(views(reducer.indexes@) =~= Seq::empty());
            assert(reducer@.indexes =~= Set::empty());
            assert(reducer@.emitted =~= Seq::empty());
        }
        reducer
    }
}

/// The values of a collection whose keys start with a prefix.
pub open spec fn with_prefix(
    entities: Seq<EntityView>,
    collection: Seq<char>,
    prefix: Seq<u8>,
) -> Seq<EntityView> {
    entities.filter(
        |entity: EntityView| entity.collection == collection && prefix.is_prefix_of(entity.key),
    )
}

fn starts_with(key: &[u8], prefix: &[u8]) -> (starts: bool)
    ensures
        starts == prefix@.is_prefix_of(key@),
{
    if key.len() < prefix.len() {
        return false;
    }
    let starts = same_bytes(&key[0..prefix.len()], prefix);
    assert(key@.subrange(0, prefix@.len() as int) =~= key@.take(prefix@.len() as int));
    starts
}

impl MemoryReducer {
    /// No key stands twice, and those of one collection ascend.
    pub closed spec fn wf(&self) -> bool {
        keys_ordered(views(self.entities@)) && keys_ordered(views(self.states@))
    }

    /// The stored value of a key.
    pub fn entity(&self, collection: &str, key: &[u8]) -> (value: Option<&[u8]>)
        ensures
            match (value, value_of(self@.entities, collection@, key@)) {
                (Some(value), Some(expected)) => value@ == expected,
                (None, None) => true,
                _ => false,
            },
    {
        match look_up(&self.entities, collection, key) {
            Some(value) => Some(value.as_slice()),
            None => None,
        }
    }

    /// The changes that were emitted, in order.
    pub fn emitted(&self) -> (emitted: &[DomainChange])
        ensures
            views(emitted@) == self@.emitted,
    {
        self.emitted.as_slice()
    }

    /// The value of a key.
    pub fn get(&self, collection: &str, key: &[u8]) -> (value: Option<Vec<u8>>)
        ensures
            match (value, value_of(self@.entities, collection@, key@)) {
                (Some(value), Some(expected)) => value@ == expected,
                (None, None) => true,
                _ => false,
            },
    {
        match look_up(&self.entities, collection, key) {
            Some(value) => Some(copy_bytes(value.as_slice())),
            None => None,
        }
    }

    /// Sets the value of a key.
    pub fn put(&mut self, collection: &str, key: Vec<u8>, value: Vec<u8>)
        requires
            old(self).wf(),
        ensures
            final(self).wf(),
            final(self)@ == (ReducerView {
                entities: with_value(old(self)@.entities, collection@, key@, value@),
                ..old(self)@
            }),
    {
        set_value(&mut self.entities, collection, key, value);
    }

    /// Removes a key. One that is not there is no fault.
    pub fn delete(&mut self, collection: &str, key: &[u8])
        requires
            old(self).wf(),
        ensures
            final(self).wf(),
            final(self)@ == (ReducerView {
                entities: without_value(old(self)@.entities, collection@, key@),
                ..old(self)@
            }),
    {
        let ghost before = views(self.entities@);
        proof {
            law_delete_removes(before, collection@, key@, collection@, key@);
        }
        let at: usize = find_slot(&self.entities, collection, key);
        if holds_key(&self.entities, at, collection, key) {
            self.entities.remove(at);
            assert(views(self.entities@) =~= before.remove(at as int));
        }
    }

    /// The private state of a key, which this library keeps apart from the
    /// entities.
    pub fn state_get(&self, collection: &str, key: &[u8]) -> (value: Option<Vec<u8>>)
        ensures
            match (value, value_of(self@.states, collection@, key@)) {
                (Some(value), Some(expected)) => value@ == expected,
                (None, None) => true,
                _ => false,
            },
    {
        match look_up(&self.states, collection, key) {
            Some(value) => Some(copy_bytes(value.as_slice())),
            None => None,
        }
    }

    /// Sets the private state of a key.
    pub fn state_put(&mut self, collection: &str, key: Vec<u8>, value: Vec<u8>)
        requires
            old(self).wf(),
        ensures
            final(self).wf(),
            final(self)@ == (ReducerView {
                states: with_value(old(self)@.states, collection@, key@, value@),
                ..old(self)@
            }),
    {
        set_value(&mut self.states, collection, key, value);
    }

    fn index_place(&self, index: &str, index_key: &[u8], entity_key: &[u8]) -> (at: Option<usize>)
        ensures
            ({
                let entry = IndexView {
                    index: index@,
                    index_key: index_key@,
                    entity_key: entity_key@,
                };
                match at {
                    Some(at) => at < self.indexes@.len() && self.indexes@[at as int]@ == entry,
                    None => !views(self.indexes@).contains(entry),
                }
            }),
    {
        let ghost entry = IndexView {
            index: index@,
            index_key: index_key@,
            entity_key: entity_key@,
        };
        let mut at: usize = 0;
        while at < self.indexes.len()
            invariant
                at <= self.indexes@.len(),
                entry == (IndexView {
                    index: index@,
                    index_key: index_key@,
                    entity_key: entity_key@,
                }),
                forall|i: int| 0 <= i < at ==> views(self.indexes@)[i] != entry,
            decreases self.indexes@.len() - at,
        {
            assert(views(self.indexes@)[at as int] == self.indexes@[at as int]@);
            if same_text(self.indexes[at].index.as_str(), index) && same_bytes(
                self.indexes[at].index_key.as_slice(),
                index_key,
            ) && same_bytes(self.indexes[at].entity_key.as_slice(), entity_key) {
                return Some(at);
            }
            at += 1;
        }
        None
    }

    /// Adds an entry to an index. One that is there already is no fault.
    pub fn index_put(&mut self, index: &str, index_key: Vec<u8>, entity_key: Vec<u8>)
        requires
            old(self).wf(),
        ensures
            final(self).wf(),
            final(self)@ == (ReducerView {
                indexes: old(self)@.indexes.insert(
                    IndexView {
                        index: index@,
                        index_key: index_key@,
                        entity_key: entity_key@,
                    },
                ),
                ..old(self)@
            }),
    {
        let ghost before = views(self.indexes@);
        let ghost entry = IndexView {
            index: index@,
            index_key: index_key@,
            entity_key: entity_key@,
        };
        match self.index_place(index, index_key.as_slice(), entity_key.as_slice()) {
            Some(at) => {
                proof {
                    assert(before[at as int] == entry);
                    assert(before.to_set() =~= before.to_set().insert(entry));
                }
            },
            None => {
                self.indexes.push(IndexEntry { index: index.to_owned(), index_key, entity_key });
                proof {
                    let after = views(self.indexes@);
                    assert(after =~= before.push(entry));
                    assert forall|each: IndexView| #[trigger] after.to_set().contains(each)
                        == before.to_set().insert(entry).contains(each) by {
                        if before.contains(each) {
                            let i = choose|i: int| 0 <= i < before.len() && before[i] == each;
                            assert(after[i] == each);
                        }
                        if each == entry {
                            assert(after[before.len() as int] == each);
                        }
                    }
                    assert(after.to_set() =~= before.to_set().insert(entry));
                }
            },
        }
    }

    /// Removes an entry from an index. One that is not there is no fault.
    pub fn index_delete(&mut self, index: &str, index_key: &[u8], entity_key: &[u8])
        requires
            old(self).wf(),
        ensures
            final(self).wf(),
            final(self)@ == (ReducerView {
                indexes: old(self)@.indexes.remove(
                    IndexView {
                        index: index@,
                        index_key: index_key@,
                        entity_key: entity_key@,
                    },
                ),
                ..old(self)@
            }),
    {
        let ghost entry = IndexView {
            index: index@,
            index_key: index_key@,
            entity_key: entity_key@,
        };
        let ghost start = self@;
        let mut found = self.index_place(index, index_key, entity_key);
        while found.is_some()
            invariant
                self.wf(),
                entry == (IndexView {
                    index: index@,
                    index_key: index_key@,
                    entity_key: entity_key@,
                }),
                self@ == (ReducerView { indexes: self@.indexes, ..start }),
                self@.indexes.remove(entry) == start.indexes.remove(entry),
                match found {
                    Some(at) => at < self.indexes@.len() && self.indexes@[at as int]@ == entry,
                    None => !views(self.indexes@).contains(entry),
                },
            decreases self.indexes@.len(),
        {
            if let Some(at) = found {
                let ghost before = views(self.indexes@);
                self.indexes.remove(at);
                proof {
                    let after = views(self.indexes@);
                    assert(after =~= before.remove(at as int));
                    assert forall|each: IndexView| #[trigger]
                        after.to_set().remove(entry).contains(each) == before.to_set().remove(
                            entry,
                        ).contains(each) by {
                        if each != entry && before.contains(each) {
                            let i = choose|i: int| 0 <= i < before.len() && before[i] == each;
                            assert(after[if i < at {
                                i
                            } else {
                                i - 1
                            }] == each);
                        }
                        if after.contains(each) {
                            let i = choose|i: int| 0 <= i < after.len() && after[i] == each;
                            assert(before[if i < at {
                                i
                            } else {
                                i + 1
                            }] == each);
                        }
                    }
                    assert(after.to_set().remove(entry) =~= before.to_set().remove(entry));
                }
            }
            found = self.index_place(index, index_key, entity_key);
        }
        proof {
            assert(self@.indexes =~= self@.indexes.remove(entry));
        }
    }

    /// At most `limit` values of a collection whose keys start with a prefix,
    /// by ascending key.
    pub fn scan_prefix(&self, collection: &str, prefix: &[u8], limit: usize) -> (values: Vec<
        Entity,
    >)
        ensures
            ({
                let all = with_prefix(self@.entities, collection@, prefix@);
                views(values@) == all.take(
                    if limit < all.len() {
                        limit as int
                    } else {
                        all.len() as int
                    },
                )
            }),
    {
        let ghost keep = |entity: EntityView|
            entity.collection == collection@ && prefix@.is_prefix_of(entity.key);
        let ghost all = views(self.entities@);
        let mut values: Vec<Entity> = Vec::new();
        let mut index: usize = 0;
        proof {
            reveal(Seq::filter);
            assert(views(values@) =~= all.take(0).filter(keep));
        }
        while index < self.entities.len() && values.len() < limit
            invariant
                index <= self.entities@.len(),
                values@.len() <= limit,
                all == views(self.entities@),
                keep == (|entity: EntityView|
                    entity.collection == collection@ && prefix@.is_prefix_of(entity.key)),
                views(values@) == all.take(index as int).filter(keep),
            decreases self.entities@.len() - index,
        {
            let entity = &self.entities[index];
            let ghost before = values@;
            proof {
                reveal(Seq::filter);
                assert(all.take(index + 1).drop_last() =~= all.take(index as int));
                assert(all.take(index + 1).last() == entity@);
            }
            if same_text(entity.collection.as_str(), collection) && starts_with(
                entity.key.as_slice(),
                prefix,
            ) {
                values.push(
                    Entity {
                        collection: entity.collection.clone(),
                        key: copy_bytes(entity.key.as_slice()),
                        value: copy_bytes(entity.value.as_slice()),
                    },
                );
                assert(views(values@) =~= views(before).push(entity@));
            }
            index += 1;
        }
        proof {
            assert(views(values@).len() == values@.len());
            lemma_filter_prefix(all, keep, index as int);
            assert(with_prefix(self@.entities, collection@, prefix@) == all.filter(keep));
            if index == all.len() {
                assert(all.take(index as int) =~= all);
            }
            let whole = all.filter(keep);
            let taken = if limit < whole.len() {
                limit as int
            } else {
                whole.len() as int
            };
            assert(views(values@) =~= whole.take(taken));
        }
        values
    }

    /// Emits a change.
    pub fn emit(&mut self, change: DomainChange)
        requires
            old(self).wf(),
        ensures
            final(self).wf(),
            final(self)@ == (ReducerView {
                emitted: old(self)@.emitted.push(change@),
                ..old(self)@
            }),
    {
        let ghost before = self.emitted@;
        let ghost added = change@;
        self.emitted.push(change);
        assert(views(self.emitted@) =~= views(before).push(added));
    }
}

/// What passes of the first values is the start of what passes of all.
proof fn lemma_filter_prefix(all: Seq<EntityView>, keep: spec_fn(EntityView) -> bool, count: int)
    requires
        0 <= count <= all.len(),
    ensures
        all.take(count).filter(keep).is_prefix_of(all.filter(keep)),
    decreases all.len() - count,
{
    reveal(Seq::filter);
    if count < all.len() {
        lemma_filter_prefix(all, keep, count + 1);
        assert(all.take(count + 1).drop_last() =~= all.take(count));
        let shorter = all.take(count).filter(keep);
        let longer = all.take(count + 1).filter(keep);
        assert(shorter =~= longer.take(shorter.len() as int));
        assert(shorter =~= all.filter(keep).take(shorter.len() as int));
    } else {
        assert(all.take(count) =~= all);
        assert(all.filter(keep).is_prefix_of(all.filter(keep)));
    }
}

} // verus!
