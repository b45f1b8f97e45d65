//! A map keyed by strings.
//!
//! The tables of this crate (records, variables, plugin registries) are keyed
//! by names. [`StrMap`] keeps its entries in a vector in which no key occurs
//! twice, and is seen through its view as a finite map from character
//! sequences to values.

use crate::strings::str_eq;
use vstd::prelude::*;

verus! {

broadcast use vstd::string::group_string_axioms;

/// A finite map from string keys to values.
pub struct StrMap<V> {
    entries: Vec<(String, V)>,
}

/// Whether some entry has key `k`.
pub open spec fn has_key<V>(e: Seq<(String, V)>, k: Seq<char>) -> bool {
    exists|i: int| 0 <= i < e.len() && #[trigger] e[i].0@ == k
}

/// No key occurs in two entries.
pub open spec fn unique_keys<V>(e: Seq<(String, V)>) -> bool {
    forall|i: int, j: int| 0 <= i < e.len() && 0 <= j < e.len() && i != j ==> #[trigger] e[i].0@ != #[trigger] e[j].0@
}

/// The map that a sequence of entries with distinct keys stands for.
pub open spec fn entries_map<V>(e: Seq<(String, V)>) -> Map<Seq<char>, V> {
    Map::new(
        |k: Seq<char>| has_key(e, k),
        |k: Seq<char>| e[choose|i: int| 0 <= i < e.len() && #[trigger] e[i].0@ == k].1,
    )
}

/// In a sequence with distinct keys, the entry at `i` gives the value of its key.
proof fn lemma_entry_value<V>(e: Seq<(String, V)>, i: int)
    requires
        unique_keys(e),
        0 <= i < e.len(),
    ensures
        entries_map(e).contains_key(e[i].0@),
        entries_map(e)[e[i].0@] == e[i].1,
{
    let k = e[i].0@;
    assert(has_key(e, k));
    let j = choose|j: int| 0 <= j < e.len() && #[trigger] e[j].0@ == k;
    assert(e[j].0@ == k);
}

/// Appending an entry with a new key inserts it into the map.
proof fn lemma_push<V>(e: Seq<(String, V)>, key: String, value: V)
    requires
        unique_keys(e),
        !has_key(e, key@),
    ensures
        unique_keys(e.push((key, value))),
        entries_map(e.push((key, value))) =~= entries_map(e).insert(key@, value),
{
    let n = e.push((key, value));
    assert forall|i: int, j: int| 0 <= i < n.len() && 0 <= j < n.len() && i != j implies #[trigger] n[i].0@ != #[trigger] n[j].0@ by {
        if i == e.len() {
            assert(e[j].0@ == n[j].0@);
        } else if j == e.len() {
            assert(e[i].0@ == n[i].0@);
        } else {
            assert(e[i] == n[i] && e[j] == n[j]);
        }
    }
    let m = entries_map(n);
    let o = entries_map(e).insert(key@, value);
    assert forall|k: Seq<char>| m.contains_key(k) <==> o.contains_key(k) by {
        if has_key(n, k) && k != key@ {
            let i = choose|i: int| 0 <= i < n.len() && #[trigger] n[i].0@ == k;
            assert(e[i] == n[i]);
        }
        if has_key(e, k) {
            let i = choose|i: int| 0 <= i < e.len() && #[trigger] e[i].0@ == k;
            assert(e[i] == n[i]);
        }
        if k == key@ {
            assert(n[e.len() as int].0@ == k);
        }
    }
    assert forall|k: Seq<char>| #[trigger] m.contains_key(k) implies m[k] == o[k] by {
        let i = choose|i: int| 0 <= i < n.len() && #[trigger] n[i].0@ == k;
        lemma_entry_value(n, i);
        if i < e.len() {
            assert(e[i] == n[i]);
            lemma_entry_value(e, i);
        }
    }
}

/// Replacing the value of the entry at `i` updates its key in the map.
proof fn lemma_update<V>(e: Seq<(String, V)>, i: int, key: String, value: V)
    requires
        unique_keys(e),
        0 <= i < e.len(),
        e[i].0@ == key@,
    ensures
        unique_keys(e.update(i, (key, value))),
        entries_map(e.update(i, (key, value))) =~= entries_map(e).insert(key@, value),
{
    let n = e.update(i, (key, value));
    assert forall|a: int, b: int| 0 <= a < n.len() && 0 <= b < n.len() && a != b implies #[trigger] n[a].0@ != #[trigger] n[b].0@ by {
        assert(n[a].0@ == e[a].0@ && n[b].0@ == e[b].0@);
    }
    let m = entries_map(n);
    let o = entries_map(e).insert(key@, value);
    assert forall|k: Seq<char>| m.contains_key(k) <==> o.contains_key(k) by {
        if has_key(n, k) {
            let a = choose|a: int| 0 <= a < n.len() && #[trigger] n[a].0@ == k;
            assert(e[a].0@ == k);
        }
        if has_key(e, k) {
            let a = choose|a: int| 0 <= a < e.len() && #[trigger] e[a].0@ == k;
            assert(n[a].0@ == k);
        }
        if k == key@ {
            assert(n[i].0@ == k);
        }
    }
    assert forall|k: Seq<char>| #[trigger] m.contains_key(k) implies m[k] == o[k] by {
        let a = choose|a: int| 0 <= a < n.len() && #[trigger] n[a].0@ == k;
        lemma_entry_value(n, a);
        if a != i {
            assert(e[a] == n[a]);
            lemma_entry_value(e, a);
        }
    }
}

impl<V> View for StrMap<V> {
    type V = Map<Seq<char>, V>;

    closed spec fn view(&self) -> Map<Seq<char>, V> {
        entries_map(self.entries@)
    }
}

impl<V> StrMap<V> {
    #[verifier::type_invariant]
    closed spec fn keys_distinct(&self) -> bool {
        unique_keys(self.entries@)
    }

    /// An empty map.
    pub fn new() -> (m: Self)
        ensures
            m@ == Map::<Seq<char>, V>::empty(),
    {
        let m = StrMap { entries: Vec::new() };
        assert(m@ =~= Map::<Seq<char>, V>::empty());
        m
    }

    /// The number of keys.
    pub fn len(&self) -> (n: usize)
        ensures
            n == self@.dom().len(),
    {
        proof {
            use_type_invariant(self);
            lemma_dom_len(self.entries@);
        }
        self.entries.len()
    }

    /// Whether the map has no key.
    pub fn is_empty(&self) -> (b: bool)
        ensures
            b == (self@.dom().len() == 0),
    {
        proof {
            use_type_invariant(self);
            lemma_dom_len(self.entries@);
        }
        self.entries.len() == 0
    }

    /// The position of the entry with key `key`, if there is one.
    fn find(&self, key: &str) -> (r: Option<usize>)
        ensures
            match r {
                Some(i) => i < self.entries@.len() && self.entries@[i as int].0@ == key@,
                None => !has_key(self.entries@, key@),
            },
    {
        let mut i: usize = 0;
        while i < self.entries.len()
            invariant
                i <= self.entries@.len(),
                forall|j: int| 0 <= j < i ==> #[trigger] self.entries@[j].0@ != key@,
            decreases self.entries@.len() - i,
        {
            if str_eq(self.entries[i].0.as_str(), key) {
                return Some(i);
            }
            i = i + 1;
        }
        None
    }

    /// Whether `key` is a key of the map.
    pub fn contains_key(&self, key: &str) -> (b: bool)
        ensures
            b == self@.contains_key(key@),
    {
        self.find(key).is_some()
    }

    /// The value of `key`, if it is a key of the map.
    pub fn get(&self, key: &str) -> (r: Option<&V>)
        ensures
            match r {
                Some(v) => self@.contains_key(key@) && *v == self@[key@],
                None => !self@.contains_key(key@),
            },
    {
        proof {
            use_type_invariant(self);
        }
        match self.find(key) {
            Some(i) => {
                proof {
                    lemma_entry_value(self.entries@, i as int);
                }
                Some(&self.entries[i].1)
            },
            None => None,
        }
    }

    /// Sets the value of `key`, and returns the value it had.
    pub fn insert(&mut self, key: String, value: V) -> (old_value: Option<V>)
        ensures
            final(self)@ == old(self)@.insert(key@, value),
            old_value == (if old(self)@.contains_key(key@) {
                Some(old(self)@[key@])
            } else {
                None
            }),
    {
        proof {
            use_type_invariant(&*self);
        }
        let found = self.find(key.as_str());
        let mut entries: Vec<(String, V)> = Vec::new();
        std::mem::swap(&mut entries, &mut self.entries);
        let ghost e = entries@;
        let res = match found {
            Some(i) => {
                proof {
                    lemma_entry_value(e, i as int);
                    lemma_update(e, i as int, key, value);
                }
                let (_, old_value) = entries.remove(i);
                entries.insert(i, (key, value));
                proof {
                    assert(entries@ =~= e.update(i as int, (key, value)));
                }
                Some(old_value)
            },
            None => {
                proof {
                    lemma_push(e, key, value);
                }
                entries.push((key, value));
                None
            },
        };
        self.entries = entries;
        res
    }

    /// The keys, in the order the entries hold them.
    pub fn keys(&self) -> (ks: Vec<String>)
        ensures
            ks@.len() == self@.dom().len(),
            forall|i: int| 0 <= i < ks@.len() ==> #[trigger] self@.contains_key(ks@[i]@),
            forall|k: Seq<char>| #[trigger] self@.contains_key(k) ==> exists|i: int| 0 <= i < ks@.len() && ks@[i]@ == k,
    {
        proof {
            use_type_invariant(self);
            lemma_dom_len(self.entries@);
        }
        let mut ks: Vec<String> = Vec::new();
        let mut i: usize = 0;
        while i < self.entries.len()
            invariant
                i <= self.entries@.len(),
                ks@.len() == i,
                forall|j: int| 0 <= j < i ==> #[trigger] ks@[j]@ == self.entries@[j].0@,
            decreases self.entries@.len() - i,
        {
            ks.push(self.entries[i].0.clone());
            i = i + 1;
        }
        proof {
            assert forall|j: int| 0 <= j < ks@.len() implies #[trigger] self@.contains_key(ks@[j]@) by {
                lemma_entry_value(self.entries@, j);
            }
            assert forall|k: Seq<char>| #[trigger] self@.contains_key(k) implies exists|j: int| 0 <= j < ks@.len() && ks@[j]@ == k by {
                let j = choose|j: int| 0 <= j < self.entries@.len() && #[trigger] self.entries@[j].0@ == k;
                assert(ks@[j]@ == k);
            }
        }
        ks
    }

    /// Adds each entry of `other` whose key is not a key of the map yet.
    pub fn or_insert_all(&mut self, other: StrMap<V>)
        ensures
            final(self)@ == other@.union_prefer_right(old(self)@),
    {
        proof {
            use_type_invariant(&other);
        }
        let StrMap { entries } = other;
        let ghost all = entries@;
        let ghost base = self@;
        let mut entries = entries;
        let mut k: usize = 0;
        let n = entries.len();
        while k < n
            invariant
                n == all.len(),
                k <= n,
                unique_keys(all),
                entries@ == all.subrange(k as int, n as int),
                self@ == entries_map(all.subrange(0, k as int)).union_prefer_right(base),
            decreases n - k,
        {
            let ghost done = all.subrange(0, k as int);
            let (key, value) = entries.remove(0);
            proof {
                assert(entries@ =~= all.subrange(k as int + 1, n as int));
                assert(all[k as int] == (key, value));
                assert(unique_keys(done)) by {
                    assert forall|i: int, j: int| 0 <= i < done.len() && 0 <= j < done.len() && i != j implies #[trigger] done[i].0@ != #[trigger] done[j].0@ by {
                        assert(done[i] == all[i] && done[j] == all[j]);
                    }
                }
                assert(!has_key(done, key@)) by {
                    if has_key(done, key@) {
                        let i = choose|i: int| 0 <= i < done.len() && #[trigger] done[i].0@ == key@;
                        assert(done[i] == all[i]);
                    }
                }
                lemma_push(done, key, value);
                assert(done.push((key, value)) =~= all.subrange(0, k as int + 1));
            }
            if !self.contains_key(key.as_str()) {
                self.insert(key, value);
            }
            k = k + 1;
        }
        proof {
            assert(all.subrange(0, n as int) =~= all);
            assert(final(self)@ =~= other@.union_prefer_right(old(self)@));
        }
    }
}

impl<V> StrMap<V> {
    /// Inserts every entry of `other`, replacing the value of a key that the
    /// map already has.
    pub fn insert_all(&mut self, other: StrMap<V>)
        ensures
            final(self)@ == old(self)@.union_prefer_right(other@),
    {
        proof {
            use_type_invariant(&other);
        }
        let StrMap { entries } = other;
        let ghost all = entries@;
        let ghost base = self@;
        let mut entries = entries;
        let mut k: usize = 0;
        let n = entries.len();
        proof {
            assert(entries_map(all.subrange(0, 0)) =~= Map::<Seq<char>, V>::empty());
            assert(base.union_prefer_right(Map::<Seq<char>, V>::empty()) =~= base);
        }
        while k < n
            invariant
                n == all.len(),
                k <= n,
                unique_keys(all),
                entries@ == all.subrange(k as int, n as int),
                self@ == base.union_prefer_right(entries_map(all.subrange(0, k as int))),
            decreases n - k,
        {
            let ghost done = all.subrange(0, k as int);
            let (key, value) = entries.remove(0);
            proof {
                assert(entries@ =~= all.subrange(k as int + 1, n as int));
                assert(all[k as int] == (key, value));
                assert(unique_keys(done)) by {
                    assert forall|i: int, j: int| 0 <= i < done.len() && 0 <= j < done.len() && i != j implies #[trigger] done[i].0@ != #[trigger] done[j].0@ by {
                        assert(done[i] == all[i] && done[j] == all[j]);
                    }
                }
                assert(!has_key(done, key@)) by {
                    if has_key(done, key@) {
                        let i = choose|i: int| 0 <= i < done.len() && #[trigger] done[i].0@ == key@;
                        assert(done[i] == all[i]);
                    }
                }
                lemma_push(done, key, value);
                assert(done.push((key, value)) =~= all.subrange(0, k as int + 1));
                assert(base.union_prefer_right(entries_map(done)).insert(key@, value) =~= base.union_prefer_right(
                    entries_map(done).insert(key@, value),
                ));
            }
            self.insert(key, value);
            k = k + 1;
        }
        proof {
            assert(all.subrange(0, n as int) =~= all);
        }
    }
}

/// A sequence with distinct keys stands for a map with as many keys.
proof fn lemma_dom_len<V>(e: Seq<(String, V)>)
    requires
        unique_keys(e),
    ensures
        entries_map(e).dom().finite(),
        entries_map(e).dom().len() == e.len(),
    decreases e.len(),
{
    if e.len() == 0 {
        assert(entries_map(e).dom() =~= Set::<Seq<char>>::empty());
    } else {
        let p = e.drop_last();
        let last = e.last();
        assert(unique_keys(p)) by {
            assert forall|i: int, j: int| 0 <= i < p.len() && 0 <= j < p.len() && i != j implies #[trigger] p[i].0@ != #[trigger] p[j].0@ by {
                assert(p[i] == e[i] && p[j] == e[j]);
            }
        }
        assert(!has_key(p, last.0@)) by {
            if has_key(p, last.0@) {
                let i = choose|i: int| 0 <= i < p.len() && #[trigger] p[i].0@ == last.0@;
                assert(p[i] == e[i]);
                assert(e[i].0@ == e[e.len() - 1].0@);
            }
        }
        lemma_dom_len(p);
        lemma_push(p, last.0, last.1);
        assert(p.push((last.0, last.1)) =~= e);
    }
}

impl<V> Default for StrMap<V> {
    fn default() -> (m: Self)
        ensures
            m@ == Map::<Seq<char>, V>::empty(),
    {
        StrMap::new()
    }
}

impl<V: Clone> Clone for StrMap<V> {
    /// A map with the same keys, each with a clone of its value.
    fn clone(&self) -> (m: Self)
        ensures
            m@.dom() == self@.dom(),
            forall|k: Seq<char>| #[trigger] m@.contains_key(k) ==> cloned::<V>(self@[k], m@[k]),
    {
        proof {
            use_type_invariant(self);
        }
        let mut entries: Vec<(String, V)> = Vec::new();
        let mut i: usize = 0;
        while i < self.entries.len()
            invariant
                i <= self.entries@.len(),
                entries@.len() == i,
                unique_keys(self.entries@),
                forall|j: int| 0 <= j < i ==> #[trigger] entries@[j].0@ == self.entries@[j].0@,
                forall|j: int| 0 <= j < i ==> cloned::<V>(self.entries@[j].1, #[trigger] entries@[j].1),
            decreases self.entries@.len() - i,
        {
            let k = self.entries[i].0.clone();
            let v = self.entries[i].1.clone();
            entries.push((k, v));
            i = i + 1;
        }
        proof {
            assert(unique_keys(entries@)) by {
                assert forall|a: int, b: int| 0 <= a < entries@.len() && 0 <= b < entries@.len() && a != b implies #[trigger] entries@[a].0@ != #[trigger] entries@[b].0@ by {
                    assert(entries@[a].0@ == self.entries@[a].0@);
                    assert(entries@[b].0@ == self.entries@[b].0@);
                }
            }
            assert forall|k: Seq<char>| has_key(entries@, k) <==> has_key(self.entries@, k) by {
                if has_key(entries@, k) {
                    let a = choose|a: int| 0 <= a < entries@.len() && #[trigger] entries@[a].0@ == k;
                    assert(self.entries@[a].0@ == k);
                }
                if has_key(self.entries@, k) {
                    let a = choose|a: int| 0 <= a < self.entries@.len() && #[trigger] self.entries@[a].0@ == k;
                    assert(entries@[a].0@ == k);
                }
            }
            assert forall|k: Seq<char>| #[trigger] entries_map(entries@).contains_key(k) implies cloned::<V>(entries_map(self.entries@)[k], entries_map(entries@)[k]) by {
                let a = choose|a: int| 0 <= a < entries@.len() && #[trigger] entries@[a].0@ == k;
                lemma_entry_value(entries@, a);
                assert(self.entries@[a].0@ == k);
                lemma_entry_value(self.entries@, a);
            }
            assert(entries_map(entries@).dom() =~= entries_map(self.entries@).dom());
        }
        StrMap { entries }
    }
}

} // verus!
