//! A small map from text keys to values, kept in insertion order. Its view
//! is a `Map` over the characters of the keys, so that every lookup and every
//! insertion is stated and proved key by key, which a hash map keyed by
//! `String` does not allow: what its hasher does with a text is not known to
//! the proofs.

use vstd::prelude::*;
use vstd::string::*;
use crate::text::str_eq;

verus! {

/// A map keyed by text. Inserting under a key that is present replaces its value.
#[derive(Debug, Clone)]
pub struct Dict<V> {
    entries: Vec<(String, V)>,
}

/// The index of the first entry of `entries` at or after `from` under `key`,
/// or the length.
pub open spec fn key_index_from<V>(entries: Seq<(String, V)>, key: Seq<char>, from: int) -> int
    decreases entries.len() - from,
{
    if from < 0 || from >= entries.len() {
        entries.len() as int
    } else if entries[from].0@ == key {
        from
    } else {
        key_index_from(entries, key, from + 1)
    }
}

/// The index of the first entry of `entries` under `key`, or the length.
pub open spec fn key_index<V>(entries: Seq<(String, V)>, key: Seq<char>) -> int {
    key_index_from(entries, key, 0)
}

/// The map that a list of entries stands for: for each key its first entry.
pub open spec fn map_of<V>(entries: Seq<(String, V)>) -> Map<Seq<char>, V> {
    Map::new(
        |k: Seq<char>| 0 <= key_index(entries, k) < entries.len(),
        |k: Seq<char>| entries[key_index(entries, k)].1,
    )
}

/// `key_index_from` is the least index at or after `from` that holds the key.
proof fn lemma_key_index<V>(entries: Seq<(String, V)>, key: Seq<char>, from: int, k: int)
    requires
        0 <= from <= k <= entries.len(),
        forall|j: int| from <= j < k ==> (#[trigger] entries[j]).0@ != key,
        k == entries.len() || entries[k].0@ == key,
    ensures
        key_index_from(entries, key, from) == k,
    decreases k - from,
{
    if from < k {
        assert(entries[from].0@ != key);
        lemma_key_index(entries, key, from + 1, k);
    }
}

proof fn lemma_key_index_is_first<V>(entries: Seq<(String, V)>, key: Seq<char>, from: int)
    requires
        0 <= from <= entries.len(),
    ensures
        from <= key_index_from(entries, key, from) <= entries.len(),
        key_index_from(entries, key, from) < entries.len() ==> entries[key_index_from(
            entries,
            key,
            from,
        )].0@ == key,
        forall|j: int|
            from <= j < key_index_from(entries, key, from) ==> (#[trigger] entries[j]).0@ != key,
    decreases entries.len() - from,
{
    if from < entries.len() && entries[from].0@ != key {
        lemma_key_index_is_first(entries, key, from + 1);
    }
}

proof fn lemma_key_index_same<V>(a: Seq<(String, V)>, b: Seq<(String, V)>, key: Seq<char>)
    requires
        a.len() == b.len(),
        forall|j: int| 0 <= j < a.len() ==> (#[trigger] a[j]).0@ == b[j].0@,
    ensures
        key_index(a, key) == key_index(b, key),
{
    lemma_key_index_is_first(a, key, 0);
    let k = key_index(a, key);
    assert forall|j: int| 0 <= j < k implies (#[trigger] b[j]).0@ != key by {
        assert(a[j].0@ != key);
    }
    if k < a.len() {
        assert(a[k].0@ == key);
    }
    lemma_key_index(b, key, 0, k);
}

proof fn lemma_key_index_push<V>(a: Seq<(String, V)>, e: (String, V), key: Seq<char>)
    ensures
        key_index(a, key) < a.len() ==> key_index(a.push(e), key) == key_index(a, key),
        key_index(a, key) >= a.len() && e.0@ == key ==> key_index(a.push(e), key) == a.len(),
        key_index(a, key) >= a.len() && e.0@ != key ==> key_index(a.push(e), key) == a.len() + 1,
{
    let b = a.push(e);
    lemma_key_index_is_first(a, key, 0);
    let k = key_index(a, key);
    assert forall|j: int| 0 <= j < k implies (#[trigger] b[j]).0@ != key by {
        assert(b[j] == a[j]);
        assert(a[j].0@ != key);
    }
    if k < a.len() {
        assert(b[k] == a[k]);
        lemma_key_index(b, key, 0, k);
    } else if e.0@ == key {
        assert(b[a.len() as int] == e);
        lemma_key_index(b, key, 0, a.len() as int);
    } else {
        assert(b[a.len() as int] == e);
        lemma_key_index(b, key, 0, a.len() as int + 1);
    }
}

impl<V> View for Dict<V> {
    type V = Map<Seq<char>, V>;

    closed spec fn view(&self) -> Map<Seq<char>, V> {
        map_of(self.entries@)
    }
}

impl<V> Dict<V> {
    /// The keys in the order of their first insertion.
    pub closed spec fn keys(&self) -> Seq<Seq<char>> {
        Seq::new(self.entries@.len(), |i: int| self.entries@[i].0@)
    }

    /// No key stands twice in the list of keys.
    pub closed spec fn wf(&self) -> bool {
        forall|i: int, j: int|
            0 <= i < j < self.entries@.len() ==> (#[trigger] self.entries@[i]).0@ != (
            #[trigger] self.entries@[j]).0@
    }

    /// An empty map.
    pub fn new() -> (r: Self)
        ensures
            r@ == Map::<Seq<char>, V>::empty(),
            r.keys() == Seq::<Seq<char>>::empty(),
            r.wf(),
    {
        let r = Dict { entries: Vec::new() };
        assert(r@ =~= Map::<Seq<char>, V>::empty());
        assert(r.keys() =~= Seq::<Seq<char>>::empty());
        r
    }

    /// The number of keys.
    pub fn len(&self) -> (n: usize)
        ensures
            n == self.keys().len(),
    {
        self.entries.len()
    }

    /// The key at position `i` of the insertion order.
    pub fn key_at(&self, i: usize) -> (k: &str)
        requires
            i < self.keys().len(),
        ensures
            k@ == self.keys()[i as int],
    {
        self.entries[i].0.as_str()
    }

    /// The value at position `i` of the insertion order.
    pub fn value_at(&self, i: usize) -> (v: &V)
        requires
            i < self.keys().len(),
            self.wf(),
        ensures
            self@.contains_key(self.keys()[i as int]),
            *v == self@[self.keys()[i as int]],
    {
        proof {
            let key = self.entries@[i as int].0@;
            assert forall|j: int| 0 <= j < i implies (#[trigger] self.entries@[j]).0@ != key by {
                assert(self.entries@[j].0@ != self.entries@[i as int].0@);
            }
            lemma_key_index(self.entries@, key, 0, i as int);
            assert(self.keys()[i as int] == key);
        }
        &self.entries[i].1
    }

    /// The value under `key`.
    pub fn get(&self, key: &str) -> (r: Option<&V>)
        ensures
            match r {
                Some(v) => self@.contains_key(key@) && self@[key@] == *v,
                None => !self@.contains_key(key@),
            },
    {
        let mut i: usize = 0;
        while i < self.entries.len()
            invariant
                i <= self.entries.len(),
                forall|j: int| 0 <= j < i ==> (#[trigger] self.entries@[j]).0@ != key@,
            decreases self.entries.len() - i,
        {
            if str_eq(self.entries[i].0.as_str(), key) {
                proof {
                    lemma_key_index(self.entries@, key@, 0, i as int);
                }
                return Some(&self.entries[i].1);
            }
            i += 1;
        }
        proof {
            lemma_key_index(self.entries@, key@, 0, i as int);
        }
        None
    }

    /// Whether a value stands under `key`.
    pub fn contains_key(&self, key: &str) -> (r: bool)
        ensures
            r == self@.contains_key(key@),
    {
        self.get(key).is_some()
    }

    /// Puts `value` under `key`, in place of what was there.
    pub fn insert(&mut self, key: String, value: V)
        ensures
            final(self)@ == old(self)@.insert(key@, value),
            old(self).wf() ==> final(self).wf(),
            old(self)@.contains_key(key@) ==> final(self).keys() == old(self).keys(),
            !old(self)@.contains_key(key@) ==> final(self).keys() == old(self).keys().push(key@),
            final(self).keys().len() > 0,
    {
        let ghost before = self.entries@;
        let n = self.entries.len();
        let mut i: usize = 0;
        let mut found = false;
        while i < n && !found
            invariant
                i <= n,
                n == self.entries.len(),
                self.entries@ == before,
                forall|j: int| 0 <= j < i ==> (#[trigger] self.entries@[j]).0@ != key@,
                found ==> i < n && self.entries@[i as int].0@ == key@,
            decreases n - i + (if found { 0int } else { 1int }),
        {
            if str_eq(self.entries[i].0.as_str(), key.as_str()) {
                found = true;
            } else {
                i += 1;
            }
        }
        proof {
            lemma_key_index(before, key@, 0, i as int);
        }
        if i < n {
            self.entries.set(i, (key, value));
            proof {
                let after = self.entries@;
                assert forall|k: Seq<char>| #[trigger]
                    map_of(after).contains_key(k) == old(self)@.insert(key@, value).contains_key(
                        k,
                    ) && (map_of(after).contains_key(k) ==> map_of(after)[k] == old(self)@.insert(
                    key@,
                    value,
                )[k]) by {
                    lemma_key_index_same(before, after, k);
                    lemma_key_index_is_first(before, k, 0);
                    let idx = key_index(before, k);
                    if idx < before.len() && idx != i {
                        assert(after[idx] == before[idx]);
                    }
                }
                assert(self@ =~= old(self)@.insert(key@, value));
                assert(self.keys() =~= old(self).keys());
            }
        } else {
            self.entries.push((key, value));
            proof {
                let after = self.entries@;
                assert forall|k: Seq<char>| #[trigger]
                    map_of(after).contains_key(k) == old(self)@.insert(key@, value).contains_key(
                        k,
                    ) && (map_of(after).contains_key(k) ==> map_of(after)[k] == old(self)@.insert(
                    key@,
                    value,
                )[k]) by {
                    lemma_key_index_push(before, (key, value), k);
                }
                assert(self@ =~= old(self)@.insert(key@, value));
                assert(self.keys() =~= old(self).keys().push(key@));
                if old(self).wf() {
                    assert forall|a: int, b: int| 0 <= a < b < after.len() implies (
                    #[trigger] after[a]).0@ != (#[trigger] after[b]).0@ by {
                        if b == n {
                            assert(before[a].0@ != key@);
                        } else {
                            assert(before[a].0@ != before[b].0@);
                        }
                    }
                }
            }
        }
    }
}

/// The texts of a map of strings.
pub open spec fn texts(m: Map<Seq<char>, String>) -> Map<Seq<char>, Seq<char>> {
    Map::new(|k: Seq<char>| m.contains_key(k), |k: Seq<char>| m[k]@)
}

impl Dict<String> {
    /// A copy: the same texts under the same keys, in the same order.
    pub fn copy(&self) -> (r: Self)
        ensures
            texts(r@) == texts(self@),
            r.keys() == self.keys(),
            self.wf() ==> r.wf(),
    {
        let mut entries: Vec<(String, String)> = Vec::new();
        let mut i: usize = 0;
        while i < self.entries.len()
            invariant
                i <= self.entries.len(),
                entries@.len() == i,
                forall|j: int|
                    0 <= j < i ==> (#[trigger] entries@[j]).0@ == self.entries@[j].0@ && entries@[j].1@
                        == self.entries@[j].1@,
            decreases self.entries.len() - i,
        {
            entries.push((self.entries[i].0.clone(), self.entries[i].1.clone()));
            i += 1;
        }
        let r = Dict { entries };
        proof {
            assert forall|k: Seq<char>| #[trigger]
                texts(r@).contains_key(k) == texts(self@).contains_key(k) && (texts(
                    r@,
                ).contains_key(k) ==> texts(r@)[k] == texts(self@)[k]) by {
                lemma_key_index_same(r.entries@, self.entries@, k);
                let idx = key_index(self.entries@, k);
                if 0 <= idx < self.entries@.len() {
                    assert(r.entries@[idx].1@ == self.entries@[idx].1@);
                }
            }
            assert(texts(r@) =~= texts(self@));
            assert(r.keys() =~= self.keys());
            if self.wf() {
                assert forall|a: int, b: int| 0 <= a < b < r.entries@.len() implies (
                #[trigger] r.entries@[a]).0@ != (#[trigger] r.entries@[b]).0@ by {
                    assert(self.entries@[a].0@ != self.entries@[b].0@);
                }
            }
        }
        r
    }
}

} // verus!
