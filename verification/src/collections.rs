//! Small keyed collections.
//!
//! A `KeySet` is a set of keys and a `KeyMap` a map from keys to values. Both
//! keep their entries in a vector that is searched from the front, and are
//! seen in contracts as a `Set` and a `Map`.
//!
//! The keys are `TypeId`s. Of a `TypeId` nothing is known here but whether
//! it equals another, so nothing could be proved of a hash map keyed by
//! it: what such a map holds after an insertion rests on how its keys
//! hash. A vector of entries needs the comparison only.

use crate::type_key::same_key;
use std::any::TypeId;
use vstd::prelude::*;

verus! {

/// Whether some entry of `entries` stands under `key`.
pub open spec fn has_key<V>(entries: Seq<(TypeId, V)>, key: TypeId) -> bool {
    exists|i: int| 0 <= i < entries.len() && #[trigger] entries[i].0 == key
}

/// Whether the entry at `i` is the first one under `key`.
pub open spec fn first_under<V>(entries: Seq<(TypeId, V)>, key: TypeId, i: int) -> bool {
    &&& 0 <= i < entries.len()
    &&& entries[i].0 == key
    &&& forall|j: int| 0 <= j < i ==> #[trigger] entries[j].0 != key
}

/// The map that a sequence of entries stands for: each key is mapped to the
/// value of the first entry under it.
pub open spec fn entries_map<V>(entries: Seq<(TypeId, V)>) -> Map<TypeId, V> {
    Map::new(
        |key: TypeId| has_key(entries, key),
        |key: TypeId| entries[choose|i: int| first_under(entries, key, i)].1,
    )
}

/// Where an entry stands under `key` at `i`, a first entry under `key`
/// stands at or before `i`.
pub proof fn lemma_first_under_exists<V>(entries: Seq<(TypeId, V)>, key: TypeId, i: int)
    requires
        0 <= i < entries.len(),
        entries[i].0 == key,
    ensures
        exists|f: int| 0 <= f <= i && first_under(entries, key, f),
    decreases i,
{
    if exists|j: int| 0 <= j < i && #[trigger] entries[j].0 == key {
        let j = choose|j: int| 0 <= j < i && #[trigger] entries[j].0 == key;
        lemma_first_under_exists(entries, key, j);
        let f = choose|f: int| 0 <= f <= j && first_under(entries, key, f);
        assert(0 <= f <= i && first_under(entries, key, f));
    } else {
        assert(first_under(entries, key, i));
    }
}

/// The map holds, under a key, the value of the first entry under that key.
pub proof fn lemma_entries_map_first<V>(entries: Seq<(TypeId, V)>, key: TypeId, i: int)
    requires
        first_under(entries, key, i),
    ensures
        entries_map(entries).contains_key(key),
        entries_map(entries)[key] == entries[i].1,
{
    let c = choose|c: int| first_under(entries, key, c);
    assert(first_under(entries, key, c));
    assert(c == i) by {
        if c < i {
            assert(entries[c].0 != key);
        }
        if i < c {
            assert(entries[i].0 != key);
        }
    }
}

/// Appending an entry under a key that is new adds it to the map; under a
/// key that is already there it changes nothing.
pub proof fn lemma_entries_map_push<V>(entries: Seq<(TypeId, V)>, key: TypeId, value: V)
    ensures
        entries_map(entries.push((key, value))) == if has_key(entries, key) {
            entries_map(entries)
        } else {
            entries_map(entries).insert(key, value)
        },
{
    let after = entries.push((key, value));
    let target = if has_key(entries, key) {
        entries_map(entries)
    } else {
        entries_map(entries).insert(key, value)
    };
    assert forall|q: TypeId| entries_map(after).contains_key(q) == target.contains_key(q) by {
        if has_key(entries, q) {
            let i = choose|i: int| 0 <= i < entries.len() && #[trigger] entries[i].0 == q;
            assert(after[i].0 == q);
        }
        if q == key {
            assert(after[entries.len() as int].0 == q);
        }
        if has_key(after, q) {
            let i = choose|i: int| 0 <= i < after.len() && #[trigger] after[i].0 == q;
            if i < entries.len() {
                assert(entries[i].0 == q);
            }
        }
    }
    assert forall|q: TypeId| entries_map(after).contains_key(q) implies entries_map(after)[q]
        == target[q] by {
        if has_key(entries, q) {
            let i = choose|i: int| 0 <= i < entries.len() && #[trigger] entries[i].0 == q;
            lemma_first_under_exists(entries, q, i);
            let f = choose|f: int| 0 <= f <= i && first_under(entries, q, f);
            lemma_entries_map_first(entries, q, f);
            assert(first_under(after, q, f)) by {
                assert(after[f] == entries[f]);
                assert forall|j: int| 0 <= j < f implies #[trigger] after[j].0 != q by {
                    assert(after[j] == entries[j]);
                    assert(entries[j].0 != q);
                }
            }
            lemma_entries_map_first(after, q, f);
        } else {
            let n = entries.len() as int;
            assert(q == key);
            assert(first_under(after, q, n)) by {
                assert forall|j: int| 0 <= j < n implies #[trigger] after[j].0 != q by {
                    assert(after[j] == entries[j]);
                    if entries[j].0 == q {
                        assert(has_key(entries, q));
                    }
                }
            }
            lemma_entries_map_first(after, q, n);
        }
    }
    assert(entries_map(after) =~= target);
}

/// Replacing the value of the first entry under a key replaces the value
/// that the map holds under it.
pub proof fn lemma_entries_map_update<V>(entries: Seq<(TypeId, V)>, i: int, value: V)
    requires
        0 <= i < entries.len(),
        first_under(entries, entries[i].0, i),
    ensures
        entries_map(entries.update(i, (entries[i].0, value))) == entries_map(entries).insert(
            entries[i].0,
            value,
        ),
{
    let key = entries[i].0;
    let after = entries.update(i, (key, value));
    let target = entries_map(entries).insert(key, value);
    assert forall|j: int| 0 <= j < entries.len() implies #[trigger] after[j].0 == entries[j].0 by {}
    assert forall|q: TypeId| entries_map(after).contains_key(q) == target.contains_key(q) by {
        if has_key(entries, q) {
            let j = choose|j: int| 0 <= j < entries.len() && #[trigger] entries[j].0 == q;
            assert(after[j].0 == q);
        }
        if q == key {
            assert(after[i].0 == q);
        }
        if has_key(after, q) {
            let j = choose|j: int| 0 <= j < after.len() && #[trigger] after[j].0 == q;
            assert(entries[j].0 == q);
        }
    }
    assert forall|q: TypeId| entries_map(after).contains_key(q) implies entries_map(after)[q]
        == target[q] by {
        let j = choose|j: int| 0 <= j < after.len() && #[trigger] after[j].0 == q;
        assert(entries[j].0 == q);
        lemma_first_under_exists(entries, q, j);
        let f = choose|f: int| 0 <= f <= j && first_under(entries, q, f);
        lemma_entries_map_first(entries, q, f);
        assert(first_under(after, q, f)) by {
            assert(after[f].0 == entries[f].0);
            assert forall|k: int| 0 <= k < f implies #[trigger] after[k].0 != q by {
                assert(after[k].0 == entries[k].0);
                assert(entries[k].0 != q);
            }
        }
        lemma_entries_map_first(after, q, f);
        if q == key {
            assert(f == i) by {
                if f < i {
                    assert(entries[f].0 != key);
                }
                if i < f {
                    assert(entries[i].0 != q);
                }
            }
        } else {
            assert(f != i);
            assert(after[f] == entries[f]);
        }
    }
    assert(entries_map(after) =~= target);
}

/// Putting an entry in front of a sequence puts its value into the map,
/// whatever stood under its key.
pub proof fn lemma_entries_map_front<V>(entries: Seq<(TypeId, V)>, key: TypeId, value: V)
    ensures
        entries_map(seq![(key, value)] + entries) == entries_map(entries).insert(key, value),
{
    let after = seq![(key, value)] + entries;
    let target = entries_map(entries).insert(key, value);
    assert forall|q: TypeId| entries_map(after).contains_key(q) == target.contains_key(q) by {
        if has_key(entries, q) {
            let j = choose|j: int| 0 <= j < entries.len() && #[trigger] entries[j].0 == q;
            assert(after[j + 1].0 == q);
        }
        if q == key {
            assert(after[0].0 == q);
        }
        if has_key(after, q) {
            let j = choose|j: int| 0 <= j < after.len() && #[trigger] after[j].0 == q;
            if j > 0 {
                assert(entries[j - 1].0 == q);
            }
        }
    }
    assert forall|q: TypeId| entries_map(after).contains_key(q) implies entries_map(after)[q]
        == target[q] by {
        if q == key {
            assert(first_under(after, q, 0));
            lemma_entries_map_first(after, q, 0);
        } else {
            let j = choose|j: int| 0 <= j < after.len() && #[trigger] after[j].0 == q;
            assert(j > 0);
            assert(entries[j - 1].0 == q);
            lemma_first_under_exists(entries, q, j - 1);
            let f = choose|f: int| 0 <= f <= j - 1 && first_under(entries, q, f);
            lemma_entries_map_first(entries, q, f);
            assert(first_under(after, q, f + 1)) by {
                assert(after[f + 1] == entries[f]);
                assert forall|k: int| 0 <= k < f + 1 implies #[trigger] after[k].0 != q by {
                    if k > 0 {
                        assert(after[k] == entries[k - 1]);
                        assert(entries[k - 1].0 != q);
                    }
                }
            }
            lemma_entries_map_first(after, q, f + 1);
        }
    }
    assert(entries_map(after) =~= target);
}

/// A set of keys.
pub struct KeySet {
    keys: Vec<TypeId>,
}

impl View for KeySet {
    type V = Set<TypeId>;

    closed spec fn view(&self) -> Set<TypeId> {
        self.keys@.to_set()
    }
}

impl KeySet {
    /// The empty set.
    pub fn new() -> (set: KeySet)
        ensures
            set@ == Set::<TypeId>::empty(),
    {
        let set = KeySet { keys: Vec::new() };
        assert(set.keys@.to_set() =~= Set::<TypeId>::empty());
        set
    }

    /// Whether `key` is in the set.
    pub fn contains(&self, key: &TypeId) -> (found: bool)
        ensures
            found == self@.contains(*key),
    {
        let mut i: usize = 0;
        while i < self.keys.len()
            invariant
                i <= self.keys.len(),
                forall|j: int| 0 <= j < i ==> self.keys@[j] != *key,
            decreases self.keys.len() - i,
        {
            if same_key(&self.keys[i], key) {
                return true;
            }
            i += 1;
        }
        false
    }

    /// Adds `key`, and says whether it was new.
    pub fn insert(&mut self, key: TypeId) -> (fresh: bool)
        ensures
            final(self)@ == old(self)@.insert(key),
            fresh == !old(self)@.contains(key),
    {
        if self.contains(&key) {
            assert(self@.insert(key) =~= self@);
            false
        } else {
            let ghost before = self.keys@;
            self.keys.push(key);
            proof {
                lemma_push_to_set(before, key);
            }
            true
        }
    }

    /// Adds every key of `other`.
    pub fn extend(&mut self, other: &KeySet)
        ensures
            final(self)@ == old(self)@.union(other@),
    {
        self.insert_all(&other.keys);
    }

    /// Adds every key of `keys`.
    pub fn insert_all(&mut self, keys: &Vec<TypeId>)
        ensures
            final(self)@ == old(self)@.union(keys@.to_set()),
    {
        let mut i: usize = 0;
        assert(keys@.take(0).to_set() =~= Set::<TypeId>::empty());
        assert(self@ =~= old(self)@.union(keys@.take(0).to_set()));
        while i < keys.len()
            invariant
                i <= keys.len(),
                self@ == old(self)@.union(keys@.take(i as int).to_set()),
            decreases keys.len() - i,
        {
            self.insert(keys[i]);
            proof {
                assert(keys@.take(i + 1) == keys@.take(i as int).push(keys@[i as int]));
                lemma_push_to_set(keys@.take(i as int), keys@[i as int]);
                assert(self@ =~= old(self)@.union(keys@.take(i + 1).to_set()));
            }
            i += 1;
        }
        assert(keys@.take(keys.len() as int) == keys@);
    }
}

/// The set of a sequence with one more item is the sequence's set with that
/// item.
pub proof fn lemma_push_to_set(keys: Seq<TypeId>, key: TypeId)
    ensures
        keys.push(key).to_set() == keys.to_set().insert(key),
{
    let after = keys.push(key);
    assert forall|k: TypeId| after.to_set().contains(k) == keys.to_set().insert(key).contains(
        k,
    ) by {
        if keys.contains(k) {
            let j = choose|j: int| 0 <= j < keys.len() && keys[j] == k;
            assert(after[j] == k);
        }
        if k == key {
            assert(after[keys.len() as int] == k);
        }
        if after.contains(k) {
            let j = choose|j: int| 0 <= j < after.len() && after[j] == k;
            if j < keys.len() {
                assert(keys[j] == k);
            }
        }
    }
    assert(after.to_set() =~= keys.to_set().insert(key));
}

/// Whether `key` occurs in `keys`.
pub fn holds(keys: &Vec<TypeId>, key: &TypeId) -> (found: bool)
    ensures
        found == keys@.contains(*key),
{
    let mut i: usize = 0;
    while i < keys.len()
        invariant
            i <= keys.len(),
            forall|j: int| 0 <= j < i ==> keys@[j] != *key,
        decreases keys.len() - i,
    {
        if same_key(&keys[i], key) {
            return true;
        }
        i += 1;
    }
    false
}

/// A map from keys to values.
pub struct KeyMap<V> {
    entries: Vec<(TypeId, V)>,
}

impl<V> View for KeyMap<V> {
    type V = Map<TypeId, V>;

    closed spec fn view(&self) -> Map<TypeId, V> {
        entries_map(self.entries@)
    }
}

impl<V> KeyMap<V> {
    /// The empty map.
    pub fn new() -> (map: KeyMap<V>)
        ensures
            map@ == Map::<TypeId, V>::empty(),
    {
        let map = KeyMap { entries: Vec::new() };
        assert(map@ =~= Map::<TypeId, V>::empty());
        map
    }

    /// The position of the first entry under `key`, if there is one.
    fn find(&self, key: &TypeId) -> (at: Option<usize>)
        ensures
            match at {
                Some(i) => first_under(self.entries@, *key, i as int),
                None => !has_key(self.entries@, *key),
            },
    {
        let mut i: usize = 0;
        while i < self.entries.len()
            invariant
                i <= self.entries.len(),
                forall|j: int| 0 <= j < i ==> #[trigger] self.entries@[j].0 != *key,
            decreases self.entries.len() - i,
        {
            if same_key(&self.entries[i].0, key) {
                return Some(i);
            }
            i += 1;
        }
        None
    }

    /// Whether the map holds a value under `key`.
    pub fn contains_key(&self, key: &TypeId) -> (found: bool)
        ensures
            found == self@.contains_key(*key),
    {
        match self.find(key) {
            Some(i) => {
                assert(self.entries@[i as int].0 == *key);
                true
            },
            None => false,
        }
    }

    /// The value under `key`, if there is one.
    pub fn get(&self, key: &TypeId) -> (value: Option<&V>)
        ensures
            match value {
                Some(v) => self@.contains_key(*key) && *v == self@[*key],
                None => !self@.contains_key(*key),
            },
    {
        match self.find(key) {
            Some(i) => {
                proof {
                    lemma_entries_map_first(self.entries@, *key, i as int);
                }
                Some(&self.entries[i].1)
            },
            None => None,
        }
    }

    /// Puts `value` under `key`, in place of what stood there.
    pub fn insert(&mut self, key: TypeId, value: V)
        ensures
            final(self)@ == old(self)@.insert(key, value),
    {
        match self.find(&key) {
            Some(i) => {
                proof {
                    lemma_entries_map_update(self.entries@, i as int, value);
                }
                self.entries.set(i, (key, value));
            },
            None => {
                proof {
                    lemma_entries_map_push(self.entries@, key, value);
                }
                self.entries.push((key, value));
            },
        }
    }

    /// Puts every entry of `other` into the map; where both hold a value
    /// under one key, that of `other` stays.
    pub fn extend(&mut self, other: KeyMap<V>)
        ensures
            final(self)@ == old(self)@.union_prefer_right(other@),
    {
        let ghost all = other.entries@;
        let mut rest = other.entries;
        assert(all.skip(all.len() as int) =~= Seq::<(TypeId, V)>::empty());
        assert(entries_map(Seq::<(TypeId, V)>::empty()) =~= Map::<TypeId, V>::empty());
        assert(self@ =~= old(self)@.union_prefer_right(entries_map(all.skip(all.len() as int))));
        while rest.len() > 0
            invariant
                rest.len() <= all.len(),
                rest@ == all.take(rest.len() as int),
                self@ == old(self)@.union_prefer_right(entries_map(all.skip(rest.len() as int))),
            decreases rest.len(),
        {
            let ghost m = rest.len() as int;
            let entry = rest.pop();
            match entry {
                Some((key, value)) => {
                    proof {
                        assert((key, value) == all[m - 1]);
                        assert(all.skip(m - 1) =~= seq![(key, value)] + all.skip(m));
                        lemma_entries_map_front(all.skip(m), key, value);
                        assert(rest@ =~= all.take(m - 1));
                    }
                    self.insert(key, value);
                    assert(self@ =~= old(self)@.union_prefer_right(
                        entries_map(all.skip(m - 1)),
                    ));
                },
                None => {},
            }
        }
        assert(all.skip(0) =~= all);
    }

    /// The keys under which the map holds a value.
    pub fn keys(&self) -> (keys: Vec<TypeId>)
        ensures
            keys@.to_set() == self@.dom(),
    {
        let mut keys: Vec<TypeId> = Vec::new();
        let mut i: usize = 0;
        while i < self.entries.len()
            invariant
                i <= self.entries.len(),
                keys@.len() == i,
                forall|j: int| 0 <= j < i ==> keys@[j] == #[trigger] self.entries@[j].0,
            decreases self.entries.len() - i,
        {
            keys.push(self.entries[i].0);
            i += 1;
        }
        proof {
            assert forall|k: TypeId| keys@.to_set().contains(k) == self@.dom().contains(k) by {
                if keys@.contains(k) {
                    let j = choose|j: int| 0 <= j < keys@.len() && keys@[j] == k;
                    assert(self.entries@[j].0 == k);
                }
                if has_key(self.entries@, k) {
                    let j = choose|j: int|
                        0 <= j < self.entries@.len() && #[trigger] self.entries@[j].0 == k;
                    assert(keys@[j] == k);
                }
            }
            assert(keys@.to_set() =~= self@.dom());
        }
        keys
    }
}

} // verus!
