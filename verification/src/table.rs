//! A small table keyed by connection identity.
//!
//! The table keeps its entries in a vector and never holds two entries under
//! one identity. Its meaning is the finite map from identity to value; the
//! order of the entries is visible too, for callers that walk the table.

use crate::identity::ConnId;
use vstd::prelude::*;

verus! {

/// Whether some entry of `entries` is keyed by `id`.
pub open spec fn has_id<V>(entries: Seq<(ConnId, V)>, id: ConnId) -> bool {
    exists|i: int| 0 <= i < entries.len() && (#[trigger] entries[i]).0 == id
}

/// No identity keys two entries.
pub open spec fn distinct_ids<V>(entries: Seq<(ConnId, V)>) -> bool {
    forall|i: int, j: int|
        0 <= i < j < entries.len() ==> (#[trigger] entries[i]).0 != (#[trigger] entries[j]).0
}

/// The position of the entry keyed by `id`, where there is one.
pub open spec fn slot_of<V>(entries: Seq<(ConnId, V)>, id: ConnId) -> int {
    choose|i: int| 0 <= i < entries.len() && (#[trigger] entries[i]).0 == id
}

/// The map that a sequence of entries stands for.
pub open spec fn as_map<V>(entries: Seq<(ConnId, V)>) -> Map<ConnId, V> {
    Map::new(|id: ConnId| has_id(entries, id), |id: ConnId| entries[slot_of(entries, id)].1)
}

/// With distinct identities, the entry at `i` is the one its identity maps to.
pub proof fn lemma_entry_is_mapped<V>(entries: Seq<(ConnId, V)>, i: int)
    requires
        distinct_ids(entries),
        0 <= i < entries.len(),
    ensures
        has_id(entries, entries[i].0),
        slot_of(entries, entries[i].0) == i,
        as_map(entries).contains_key(entries[i].0),
        as_map(entries)[entries[i].0] == entries[i].1,
{
    let id = entries[i].0;
    assert(has_id(entries, id));
    let j = slot_of(entries, id);
    assert(0 <= j < entries.len() && entries[j].0 == id);
    if j < i {
        assert(entries[j].0 != entries[i].0);
    } else if i < j {
        assert(entries[i].0 != entries[j].0);
    }
}

/// Appending an entry under a fresh identity inserts it into the map.
pub proof fn lemma_push_entry<V>(entries: Seq<(ConnId, V)>, id: ConnId, value: V)
    requires
        distinct_ids(entries),
        !has_id(entries, id),
    ensures
        distinct_ids(entries.push((id, value))),
        as_map(entries.push((id, value))) == as_map(entries).insert(id, value),
{
    let after = entries.push((id, value));
    assert forall|i: int, j: int| 0 <= i < j < after.len() implies (#[trigger] after[i]).0 != (
    #[trigger] after[j]).0 by {
        if j < entries.len() {
            assert(entries[i].0 != entries[j].0);
        } else {
            assert(after[i] == entries[i]);
            assert(entries[i].0 != id);
        }
    }
    assert forall|k: ConnId| has_id(after, k) <==> (k == id || has_id(entries, k)) by {
        if has_id(after, k) {
            let i = slot_of(after, k);
            if i < entries.len() {
                assert(entries[i].0 == k);
            }
        }
        if has_id(entries, k) {
            let i = slot_of(entries, k);
            assert(after[i].0 == k);
        }
        if k == id {
            assert(after[entries.len() as int].0 == k);
        }
    }
    assert forall|k: ConnId| has_id(after, k) implies #[trigger] as_map(after)[k] == as_map(
        entries,
    ).insert(id, value)[k] by {
        let i = slot_of(after, k);
        lemma_entry_is_mapped(after, i);
        if i < entries.len() {
            assert(after[i] == entries[i]);
            lemma_entry_is_mapped(entries, i);
        }
    }
    assert(as_map(after) =~= as_map(entries).insert(id, value));
}

/// Replacing the value at `i` replaces what its identity maps to.
pub proof fn lemma_update_entry<V>(entries: Seq<(ConnId, V)>, i: int, value: V)
    requires
        distinct_ids(entries),
        0 <= i < entries.len(),
    ensures
        distinct_ids(entries.update(i, (entries[i].0, value))),
        as_map(entries.update(i, (entries[i].0, value))) == as_map(entries).insert(
            entries[i].0,
            value,
        ),
{
    let id = entries[i].0;
    let after = entries.update(i, (id, value));
    assert forall|a: int, b: int| 0 <= a < b < after.len() implies (#[trigger] after[a]).0 != (
    #[trigger] after[b]).0 by {
        assert(after[a].0 == entries[a].0);
        assert(after[b].0 == entries[b].0);
        assert(entries[a].0 != entries[b].0);
    }
    assert forall|k: ConnId| has_id(after, k) <==> has_id(entries, k) by {
        if has_id(after, k) {
            let a = slot_of(after, k);
            assert(entries[a].0 == k);
        }
        if has_id(entries, k) {
            let a = slot_of(entries, k);
            assert(after[a].0 == k);
        }
    }
    lemma_entry_is_mapped(entries, i);
    assert forall|k: ConnId| has_id(after, k) implies #[trigger] as_map(after)[k] == as_map(
        entries,
    ).insert(id, value)[k] by {
        let a = slot_of(after, k);
        lemma_entry_is_mapped(after, a);
        if a != i {
            assert(after[a] == entries[a]);
            lemma_entry_is_mapped(entries, a);
        }
    }
    assert(as_map(after) =~= as_map(entries).insert(id, value));
}

/// Taking the entry at `i` out removes its identity from the map.
pub proof fn lemma_remove_entry<V>(entries: Seq<(ConnId, V)>, i: int)
    requires
        distinct_ids(entries),
        0 <= i < entries.len(),
    ensures
        distinct_ids(entries.remove(i)),
        !has_id(entries.remove(i), entries[i].0),
        as_map(entries.remove(i)) == as_map(entries).remove(entries[i].0),
{
    let id = entries[i].0;
    let after = entries.remove(i);
    assert forall|a: int| 0 <= a < after.len() implies #[trigger] after[a] == entries[if a < i {
        a
    } else {
        a + 1
    }] by {}
    assert forall|a: int, b: int| 0 <= a < b < after.len() implies (#[trigger] after[a]).0 != (
    #[trigger] after[b]).0 by {
        let a0 = if a < i { a } else { a + 1 };
        let b0 = if b < i { b } else { b + 1 };
        assert(after[a] == entries[a0]);
        assert(after[b] == entries[b0]);
        assert(entries[a0].0 != entries[b0].0);
    }
    assert forall|k: ConnId| has_id(after, k) <==> (k != id && has_id(entries, k)) by {
        if has_id(after, k) {
            let a = slot_of(after, k);
            let a0 = if a < i { a } else { a + 1 };
            assert(after[a] == entries[a0]);
            assert(entries[a0].0 == k);
            if a0 < i {
                assert(entries[a0].0 != entries[i].0);
            } else {
                assert(entries[i].0 != entries[a0].0);
            }
        }
        if k != id && has_id(entries, k) {
            let a0 = slot_of(entries, k);
            let a = if a0 < i { a0 } else { a0 - 1 };
            assert(after[a] == entries[a0]);
            assert(after[a].0 == k);
        }
    }
    assert forall|k: ConnId| has_id(after, k) implies #[trigger] as_map(after)[k] == as_map(
        entries,
    ).remove(id)[k] by {
        let a = slot_of(after, k);
        let a0 = if a < i { a } else { a + 1 };
        lemma_entry_is_mapped(after, a);
        assert(after[a] == entries[a0]);
        lemma_entry_is_mapped(entries, a0);
    }
    assert(as_map(after) =~= as_map(entries).remove(id));
}

/// With distinct identities the map has as many keys as there are entries.
pub proof fn lemma_dom_len<V>(entries: Seq<(ConnId, V)>)
    requires
        distinct_ids(entries),
    ensures
        as_map(entries).dom().finite(),
        as_map(entries).dom().len() == entries.len(),
    decreases entries.len(),
{
    if entries.len() == 0 {
        assert(as_map(entries).dom() =~= Set::<ConnId>::empty());
    } else {
        let init = entries.drop_last();
        let last = entries.last();
        assert forall|i: int, j: int| 0 <= i < j < init.len() implies (#[trigger] init[i]).0 != (
        #[trigger] init[j]).0 by {
            assert(init[i] == entries[i]);
            assert(init[j] == entries[j]);
            assert(entries[i].0 != entries[j].0);
        }
        lemma_dom_len(init);
        if has_id(init, last.0) {
            let k = slot_of(init, last.0);
            assert(init[k] == entries[k]);
            assert(entries[k].0 != entries[entries.len() - 1].0);
        }
        lemma_push_entry(init, last.0, last.1);
        assert(init.push((last.0, last.1)) =~= entries);
        assert(as_map(entries).dom() =~= as_map(init).dom().insert(last.0));
    }
}

/// A table from connection identity to `V`.
pub struct IdTable<V> {
    entries: Vec<(ConnId, V)>,
}

impl<V> View for IdTable<V> {
    type V = Map<ConnId, V>;

    open spec fn view(&self) -> Map<ConnId, V> {
        as_map(self.entries())
    }
}

impl<V> IdTable<V> {
    /// The entries in the order in which the table holds them.
    pub closed spec fn entries(&self) -> Seq<(ConnId, V)> {
        self.entries@
    }

    /// The table's invariant: no identity keys two entries.
    pub open spec fn wf(&self) -> bool {
        distinct_ids(self.entries())
    }

    /// An empty table.
    pub fn new() -> (table: Self)
        ensures
            table.wf(),
            table.entries() == Seq::<(ConnId, V)>::empty(),
            table@ == Map::<ConnId, V>::empty(),
    {
        let table = IdTable { entries: Vec::new() };
        assert(table@ =~= Map::<ConnId, V>::empty());
        table
    }

    /// The number of entries.
    pub fn len(&self) -> (n: usize)
        ensures
            n == self.entries().len(),
    {
        self.entries.len()
    }

    /// The position of the entry under `id`, if the table has one.
    pub fn slot(&self, id: ConnId) -> (found: Option<usize>)
        ensures
            match found {
                Some(i) => i < self.entries().len() && self.entries()[i as int].0 == id,
                None => !has_id(self.entries(), id),
            },
    {
        let mut i: usize = 0;
        while i < self.entries.len()
            invariant
                i <= self.entries@.len(),
                forall|k: int| 0 <= k < i ==> (#[trigger] self.entries@[k]).0 != id,
            decreases self.entries@.len() - i,
        {
            if self.entries[i].0.same(&id) {
                return Some(i);
            }
            i += 1;
        }
        None
    }

    /// Whether the table has an entry under `id`.
    pub fn contains(&self, id: ConnId) -> (present: bool)
        ensures
            present == self@.contains_key(id),
    {
        self.slot(id).is_some()
    }

    /// The identity of the entry at position `i`.
    pub fn key_at(&self, i: usize) -> (id: ConnId)
        requires
            i < self.entries().len(),
        ensures
            id == self.entries()[i as int].0,
    {
        self.entries[i].0
    }

    /// The value of the entry at position `i`.
    pub fn value_at(&self, i: usize) -> (value: &V)
        requires
            i < self.entries().len(),
        ensures
            *value == self.entries()[i as int].1,
    {
        &self.entries[i].1
    }

    /// The value under `id`, if the table has one.
    pub fn get(&self, id: ConnId) -> (found: Option<&V>)
        requires
            self.wf(),
        ensures
            match found {
                Some(value) => self@.contains_key(id) && *value == self@[id],
                None => !self@.contains_key(id),
            },
    {
        match self.slot(id) {
            Some(i) => {
                proof {
                    lemma_entry_is_mapped(self.entries@, i as int);
                }
                Some(&self.entries[i].1)
            },
            None => None,
        }
    }

    /// Puts `value` under `id`. An entry that was under `id` keeps its
    /// position and gets the new value; a new entry goes to the end.
    pub fn insert(&mut self, id: ConnId, value: V)
        requires
            old(self).wf(),
        ensures
            final(self).wf(),
            final(self)@ == old(self)@.insert(id, value),
            final(self).entries() == (if has_id(old(self).entries(), id) {
                old(self).entries().update(slot_of(old(self).entries(), id), (id, value))
            } else {
                old(self).entries().push((id, value))
            }),
    {
        match self.slot(id) {
            Some(i) => {
                proof {
                    lemma_entry_is_mapped(self.entries@, i as int);
                    lemma_update_entry(self.entries@, i as int, value);
                }
                self.entries.set(i, (id, value));
            },
            None => {
                proof {
                    lemma_push_entry(self.entries@, id, value);
                }
                self.entries.push((id, value));
            },
        }
    }

    /// Takes the entry at position `i` out; later entries move up by one.
    pub fn remove_at(&mut self, i: usize) -> (entry: (ConnId, V))
        requires
            old(self).wf(),
            i < old(self).entries().len(),
        ensures
            final(self).wf(),
            entry == old(self).entries()[i as int],
            final(self).entries() == old(self).entries().remove(i as int),
            final(self)@ == old(self)@.remove(entry.0),
    {
        proof {
            lemma_remove_entry(self.entries@, i as int);
        }
        self.entries.remove(i)
    }

    /// Takes the entry under `id` out and returns its value, if there was one.
    pub fn remove(&mut self, id: ConnId) -> (removed: Option<V>)
        requires
            old(self).wf(),
        ensures
            final(self).wf(),
            final(self)@ == old(self)@.remove(id),
            removed == (if old(self)@.contains_key(id) {
                Some(old(self)@[id])
            } else {
                None
            }),
            final(self).entries() == (if has_id(old(self).entries(), id) {
                old(self).entries().remove(slot_of(old(self).entries(), id))
            } else {
                old(self).entries()
            }),
    {
        match self.slot(id) {
            Some(i) => {
                proof {
                    lemma_entry_is_mapped(self.entries@, i as int);
                }
                let entry = self.remove_at(i);
                Some(entry.1)
            },
            None => {
                assert(self@ =~= self@.remove(id));
                None
            },
        }
    }
}

} // verus!
