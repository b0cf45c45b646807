//! An ordered map keyed by strings.
//!
//! The entries are kept in the order of their keys, so a walk over the map
//! sees them sorted. The model is a mathematical map from the key's characters
//! to the value, beside the sorted sequence of entries.

use crate::text::{order, Order};
use vstd::prelude::*;

verus! {

/// A map from strings to values, sorted by key.
pub struct IdMap<V> {
    entries: Vec<(String, V)>,
}

/// Whether the keys of a sequence of entries strictly ascend.
pub open spec fn ascending<V>(entries: Seq<(Seq<char>, V)>) -> bool {
    forall|i: int, j: int|
        #![trigger entries[i], entries[j]]
        0 <= i < j < entries.len() ==> crate::text::before(entries[i].0, entries[j].0)
}

/// Whether `key` is the key of an entry.
pub open spec fn has_key<V>(entries: Seq<(Seq<char>, V)>, key: Seq<char>) -> bool {
    exists|i: int| 0 <= i < entries.len() && #[trigger] entries[i].0 == key
}

/// The value stored under `key`.
pub open spec fn value_at<V>(entries: Seq<(Seq<char>, V)>, key: Seq<char>) -> V {
    entries[choose|i: int| 0 <= i < entries.len() && #[trigger] entries[i].0 == key].1
}

/// The map that a sequence of entries denotes.
pub open spec fn map_of<V>(entries: Seq<(Seq<char>, V)>) -> Map<Seq<char>, V> {
    Map::new(|key: Seq<char>| has_key(entries, key), |key: Seq<char>| value_at(entries, key))
}

/// In an ascending sequence the entry at `i` is the one its key denotes, and
/// no other entry has that key.
pub proof fn lemma_ascending_entry<V>(entries: Seq<(Seq<char>, V)>, i: int)
    requires
        ascending(entries),
        0 <= i < entries.len(),
    ensures
        map_of(entries).dom().contains(entries[i].0),
        map_of(entries)[entries[i].0] == entries[i].1,
        forall|j: int| 0 <= j < entries.len() && j != i ==> #[trigger] entries[j].0 != entries[i].0,
{
    assert forall|j: int| 0 <= j < entries.len() && j != i implies #[trigger] entries[j].0
        != entries[i].0 by {
        crate::text::before_is_irreflexive(entries[i].0);
        let a = entries[i];
        if j < i {
            assert(crate::text::before(entries[j].0, entries[i].0));
        } else {
            assert(crate::text::before(entries[i].0, entries[j].0));
        }
    }
    let key = entries[i].0;
    assert(has_key(entries, key));
    let c = choose|c: int| 0 <= c < entries.len() && #[trigger] entries[c].0 == key;
    assert(0 <= c < entries.len() && entries[c].0 == key);
    assert(c == i);
}

impl<V> IdMap<V> {
    /// The entries in the order of their keys.
    pub closed spec fn entries(&self) -> Seq<(Seq<char>, V)> {
        Seq::new(self.entries@.len(), |i: int| (self.entries@[i].0@, self.entries@[i].1))
    }

    /// The keys strictly ascend, so no key occurs twice.
    pub closed spec fn wf(&self) -> bool {
        ascending(self.entries())
    }

    pub fn new() -> (map: Self)
        ensures
            map.wf(),
            map@ == Map::<Seq<char>, V>::empty(),
            map.entries() == Seq::<(Seq<char>, V)>::empty(),
    {
        let map = IdMap { entries: Vec::new() };
        assert(map@ =~= Map::<Seq<char>, V>::empty());
        map
    }

    pub fn len(&self) -> (n: usize)
        ensures
            n == self.entries().len(),
    {
        self.entries.len()
    }

    /// The key of the entry at `i`.
    pub fn key_at(&self, i: usize) -> (key: &String)
        requires
            i < self.entries().len(),
        ensures
            key@ == self.entries()[i as int].0,
    {
        &self.entries[i].0
    }

    /// The value of the entry at `i`.
    pub fn value_at(&self, i: usize) -> (value: &V)
        requires
            i < self.entries().len(),
        ensures
            *value == self.entries()[i as int].1,
    {
        &self.entries[i].1
    }

    /// Where `key` stands, or where it would have to be inserted.
    fn locate(&self, key: &str) -> (r: (usize, bool))
        requires
            self.wf(),
        ensures
            r.0 <= self.entries().len(),
            r.1 == self@.dom().contains(key@),
            r.1 ==> r.0 < self.entries().len() && self.entries()[r.0 as int].0 == key@,
            forall|j: int| 0 <= j < r.0 ==> crate::text::before(#[trigger] self.entries()[j].0, key@),
            !r.1 ==> forall|j: int|
                r.0 <= j < self.entries().len() ==> crate::text::before(key@, #[trigger] self.entries()[j].0),
    {
        let mut i: usize = 0;
        while i < self.entries.len()
            invariant
                self.wf(),
                i <= self.entries().len(),
                self.entries().len() == self.entries@.len(),
                forall|j: int|
                    0 <= j < i ==> crate::text::before(#[trigger] self.entries()[j].0, key@),
            decreases self.entries@.len() - i,
        {
            match order(self.entries[i].0.as_str(), key) {
                Order::Same => {
                    assert(self.entries()[i as int].0 == key@);
                    return (i, true);
                },
                Order::Before => {
                    assert(crate::text::before(self.entries()[i as int].0, key@));
                    i = i + 1;
                },
                Order::After => {
                    proof {
                        crate::text::before_is_total(self.entries()[i as int].0, key@);
                        let found = self.entries()[i as int].0;
                        assert forall|j: int| i <= j < self.entries().len() implies crate::text::before(
                            key@,
                            #[trigger] self.entries()[j].0,
                        ) by {
                            if j > i {
                                assert(crate::text::before(self.entries()[i as int].0, self.entries()[j].0));
                                crate::text::before_is_transitive(key@, found, self.entries()[j].0);
                            }
                        }
                        self.lemma_absent(key@, i as int);
                    }
                    return (i, false);
                },
            }
        }
        proof {
            self.lemma_absent(key@, i as int);
        }
        (i, false)
    }

    proof fn lemma_absent(&self, key: Seq<char>, i: int)
        requires
            0 <= i <= self.entries().len(),
            forall|j: int| 0 <= j < i ==> crate::text::before(#[trigger] self.entries()[j].0, key),
            forall|j: int|
                i <= j < self.entries().len() ==> crate::text::before(key, #[trigger] self.entries()[j].0),
        ensures
            !self@.dom().contains(key),
    {
        crate::text::before_is_irreflexive(key);
        if has_key(self.entries(), key) {
            let j = choose|j: int| 0 <= j < self.entries().len() && #[trigger] self.entries()[j].0 == key;
            assert(self.entries()[j].0 == key);
        }
    }

    /// Whether an entry has the key.
    pub fn contains_key(&self, key: &str) -> (r: bool)
        requires
            self.wf(),
        ensures
            r == self@.dom().contains(key@),
    {
        self.locate(key).1
    }

    /// The value stored under `key`.
    pub fn get(&self, key: &str) -> (r: Option<&V>)
        requires
            self.wf(),
        ensures
            match r {
                Some(v) => self@.dom().contains(key@) && *v == self@[key@],
                None => !self@.dom().contains(key@),
            },
    {
        let (i, found) = self.locate(key);
        if found {
            proof {
                lemma_ascending_entry(self.entries(), i as int);
            }
            Some(&self.entries[i].1)
        } else {
            None
        }
    }

    /// Store `value` under `key`, replacing what was there.
    pub fn insert(&mut self, key: String, value: V)
        requires
            old(self).wf(),
        ensures
            final(self).wf(),
            final(self)@ == old(self)@.insert(key@, value),
    {
        let ghost before = self.entries();
        let (i, found) = self.locate(key.as_str());
        if found {
            let ghost name = key@;
            self.entries.set(i, (key, value));
            proof {
                assert(self.entries() =~= before.update(i as int, (name, value)));
                assert(ascending(self.entries())) by {
                    assert forall|a: int, b: int|
                        #![trigger self.entries()[a], self.entries()[b]]
                        0 <= a < b < self.entries().len() implies crate::text::before(
                        self.entries()[a].0,
                        self.entries()[b].0,
                    ) by {
                        assert(before[a].0 == self.entries()[a].0);
                        assert(before[b].0 == self.entries()[b].0);
                    }
                }
                Self::lemma_set(before, i as int, name, value);
            }
        } else {
            let ghost name = key@;
            self.entries.insert(i, (key, value));
            proof {
                assert(self.entries() =~= before.insert(i as int, (name, value)));
                Self::lemma_insert(before, i as int, name, value);
            }
        }
    }

    proof fn lemma_set(entries: Seq<(Seq<char>, V)>, i: int, key: Seq<char>, value: V)
        requires
            ascending(entries),
            ascending(entries.update(i, (key, value))),
            0 <= i < entries.len(),
            entries[i].0 == key,
        ensures
            map_of(entries.update(i, (key, value))) == map_of(entries).insert(key, value),
    {
        let next = entries.update(i, (key, value));
        assert forall|k: Seq<char>| has_key(next, k) == (has_key(entries, k) || k == key) by {
            if has_key(next, k) {
                let j = choose|j: int| 0 <= j < next.len() && #[trigger] next[j].0 == k;
                assert(entries[j].0 == k);
            }
            if has_key(entries, k) {
                let j = choose|j: int| 0 <= j < entries.len() && #[trigger] entries[j].0 == k;
                assert(next[j].0 == k);
            }
            if k == key {
                assert(next[i].0 == key);
            }
        }
        assert forall|k: Seq<char>| has_key(next, k) implies map_of(next)[k] == map_of(entries).insert(
            key,
            value,
        )[k] by {
            let j = choose|j: int| 0 <= j < next.len() && #[trigger] next[j].0 == k;
            lemma_ascending_entry(next, j);
            if j != i {
                assert(next[i].0 == key);
                assert(entries[j] == next[j]);
                lemma_ascending_entry(entries, j);
            }
        }
        assert(map_of(next) =~= map_of(entries).insert(key, value));
    }

    proof fn lemma_insert(entries: Seq<(Seq<char>, V)>, i: int, key: Seq<char>, value: V)
        requires
            ascending(entries),
            0 <= i <= entries.len(),
            forall|j: int| 0 <= j < i ==> crate::text::before(#[trigger] entries[j].0, key),
            forall|j: int| i <= j < entries.len() ==> crate::text::before(key, #[trigger] entries[j].0),
        ensures
            ascending(entries.insert(i, (key, value))),
            map_of(entries.insert(i, (key, value))) == map_of(entries).insert(key, value),
    {
        let next = entries.insert(i, (key, value));
        assert forall|a: int, b: int|
            #![trigger next[a], next[b]]
            0 <= a < b < next.len() implies crate::text::before(next[a].0, next[b].0) by {
            let x = if a < i { entries[a] } else { entries[a - 1] };
            let y = if b < i { entries[b] } else { entries[b - 1] };
        }
        assert forall|k: Seq<char>| has_key(next, k) == (has_key(entries, k) || k == key) by {
            if has_key(next, k) {
                let j = choose|j: int| 0 <= j < next.len() && #[trigger] next[j].0 == k;
                if j < i {
                    assert(entries[j].0 == k);
                } else if j > i {
                    assert(entries[j - 1].0 == k);
                }
            }
            if has_key(entries, k) {
                let j = choose|j: int| 0 <= j < entries.len() && #[trigger] entries[j].0 == k;
                if j < i {
                    assert(next[j].0 == k);
                } else {
                    assert(next[j + 1].0 == k);
                }
            }
            if k == key {
                assert(next[i].0 == key);
            }
        }
        assert forall|k: Seq<char>| has_key(next, k) implies map_of(next)[k] == map_of(entries).insert(
            key,
            value,
        )[k] by {
            let j = choose|j: int| 0 <= j < next.len() && #[trigger] next[j].0 == k;
            lemma_ascending_entry(next, j);
            lemma_ascending_entry(next, i);
            if j < i {
                assert(entries[j] == next[j]);
                lemma_ascending_entry(entries, j);
            } else if j > i {
                assert(entries[j - 1] == next[j]);
                lemma_ascending_entry(entries, j - 1);
            }
        }
        assert(map_of(next) =~= map_of(entries).insert(key, value));
    }

    /// Take the value stored under `key` out of the map.
    pub fn remove(&mut self, key: &str) -> (r: Option<V>)
        requires
            old(self).wf(),
        ensures
            final(self).wf(),
            final(self)@ == old(self)@.remove(key@),
            match r {
                Some(v) => old(self)@.dom().contains(key@) && v == old(self)@[key@],
                None => !old(self)@.dom().contains(key@),
            },
    {
        let ghost before = self.entries();
        let (i, found) = self.locate(key);
        if found {
            let (_, value) = self.entries.remove(i);
            proof {
                assert(self.entries() =~= before.remove(i as int));
                Self::lemma_remove(before, i as int);
                lemma_ascending_entry(before, i as int);
            }
            Some(value)
        } else {
            assert(self@.remove(key@) =~= self@);
            None
        }
    }

    proof fn lemma_remove(entries: Seq<(Seq<char>, V)>, i: int)
        requires
            ascending(entries),
            0 <= i < entries.len(),
        ensures
            ascending(entries.remove(i)),
            map_of(entries.remove(i)) == map_of(entries).remove(entries[i].0),
    {
        let next = entries.remove(i);
        let key = entries[i].0;
        lemma_ascending_entry(entries, i);
        assert forall|a: int, b: int|
            #![trigger next[a], next[b]]
            0 <= a < b < next.len() implies crate::text::before(next[a].0, next[b].0) by {
            let x = if a < i { entries[a] } else { entries[a + 1] };
            let y = if b < i { entries[b] } else { entries[b + 1] };
        }
        assert forall|k: Seq<char>| has_key(next, k) == (has_key(entries, k) && k != key) by {
            if has_key(next, k) {
                let j = choose|j: int| 0 <= j < next.len() && #[trigger] next[j].0 == k;
                if j < i {
                    assert(entries[j].0 == k);
                } else {
                    assert(entries[j + 1].0 == k);
                }
            }
            if has_key(entries, k) && k != key {
                let j = choose|j: int| 0 <= j < entries.len() && #[trigger] entries[j].0 == k;
                if j < i {
                    assert(next[j].0 == k);
                } else {
                    assert(next[j - 1].0 == k);
                }
            }
        }
        assert forall|k: Seq<char>| has_key(next, k) implies map_of(next)[k] == map_of(entries)[k] by {
            let j = choose|j: int| 0 <= j < next.len() && #[trigger] next[j].0 == k;
            lemma_ascending_entry(next, j);
            if j < i {
                assert(entries[j] == next[j]);
                lemma_ascending_entry(entries, j);
            } else {
                assert(entries[j + 1] == next[j]);
                lemma_ascending_entry(entries, j + 1);
            }
        }
        assert(map_of(next) =~= map_of(entries).remove(key));
    }

    /// Drop every entry.
    pub fn clear(&mut self)
        ensures
            final(self).wf(),
            final(self)@ == Map::<Seq<char>, V>::empty(),
    {
        self.entries.clear();
        assert(self@ =~= Map::<Seq<char>, V>::empty());
    }

    /// The keys, sorted.
    pub fn keys(&self) -> (keys: Vec<String>)
        ensures
            keys@.len() == self.entries().len(),
            forall|i: int| 0 <= i < keys@.len() ==> #[trigger] keys@[i]@ == self.entries()[i].0,
    {
        let mut keys: Vec<String> = Vec::new();
        let mut i: usize = 0;
        while i < self.entries.len()
            invariant
                i <= self.entries@.len(),
                keys@.len() == i,
                forall|j: int| 0 <= j < i ==> #[trigger] keys@[j]@ == self.entries()[j].0,
            decreases self.entries@.len() - i,
        {
            keys.push(self.entries[i].0.clone());
            i = i + 1;
        }
        keys
    }

    /// The entries of a well-formed map strictly ascend and denote the map.
    pub proof fn lemma_sorted(&self)
        requires
            self.wf(),
        ensures
            ascending(self.entries()),
            self@ == map_of(self.entries()),
    {
    }
}

impl<V> View for IdMap<V> {
    type V = Map<Seq<char>, V>;

    closed spec fn view(&self) -> Map<Seq<char>, V> {
        map_of(self.entries())
    }
}

} // verus!
