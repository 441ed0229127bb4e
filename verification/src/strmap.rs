//! A map keyed by strings whose entries stay in ascending key order.
#[allow(unused_imports)]
use vstd::prelude::*;
#[allow(unused_imports)]
use vstd::string::*;

use crate::text;

verus! {

/// Every key comes before every later key.
pub open spec fn ascending(keys: Seq<Seq<char>>) -> bool {
    forall|i: int, j: int|
        0 <= i < j < keys.len() ==> #[trigger] text::chars_lt(keys[i], keys[j])
}

/// The keys of a sequence of entries.
pub open spec fn entry_keys<V>(e: Seq<(String, V)>) -> Seq<Seq<char>> {
    Seq::new(e.len(), |i: int| e[i].0@)
}

/// The position of `key` among the entries, where it is one of them.
pub open spec fn entry_index<V>(e: Seq<(String, V)>, key: Seq<char>) -> int {
    choose|i: int| 0 <= i < e.len() && #[trigger] e[i].0@ == key
}

/// The entries as a map from keys to values.
pub open spec fn entry_map<V: View>(e: Seq<(String, V)>) -> Map<Seq<char>, V::V> {
    Map::new(
        |key: Seq<char>| exists|i: int| 0 <= i < e.len() && #[trigger] e[i].0@ == key,
        |key: Seq<char>| e[entry_index(e, key)].1@,
    )
}

/// A map from strings to `V`, iterated in ascending key order.
#[derive(Debug)]
pub struct StrMap<V> {
    entries: Vec<(String, V)>,
}

impl<V> StrMap<V> {
    #[verifier::type_invariant]
    spec fn sorted(self) -> bool {
        ascending(entry_keys(self.entries@))
    }

    /// The keys in iteration order.
    pub closed spec fn keys(self) -> Seq<Seq<char>> {
        entry_keys(self.entries@)
    }
}

impl<V: View> View for StrMap<V> {
    type V = Map<Seq<char>, V::V>;

    closed spec fn view(&self) -> Map<Seq<char>, V::V> {
        entry_map(self.entries@)
    }
}

/// In an ascending sequence a key has one position only.
proof fn lemma_unique<V>(e: Seq<(String, V)>, i: int, j: int)
    requires
        ascending(entry_keys(e)),
        0 <= i < e.len(),
        0 <= j < e.len(),
        e[i].0@ == e[j].0@,
    ensures
        i == j,
{
    let keys = entry_keys(e);
    if i < j {
        assert(text::chars_lt(keys[i], keys[j]));
        text::lemma_chars_lt_irreflexive(keys[i]);
    } else if j < i {
        assert(text::chars_lt(keys[j], keys[i]));
        text::lemma_chars_lt_irreflexive(keys[i]);
    }
}

/// What the map holds under the key at position `i`.
proof fn lemma_at<V: View>(e: Seq<(String, V)>, i: int)
    requires
        ascending(entry_keys(e)),
        0 <= i < e.len(),
    ensures
        entry_map(e).contains_key(e[i].0@),
        entry_map(e)[e[i].0@] == e[i].1@,
{
    let k = entry_index(e, e[i].0@);
    assert(0 <= k < e.len() && e[k].0@ == e[i].0@);
    lemma_unique(e, i, k);
}

impl<V: View> StrMap<V> {
    /// An empty map.
    pub fn new() -> (m: Self)
        ensures
            m@ == Map::<Seq<char>, V::V>::empty(),
            m.keys() == Seq::<Seq<char>>::empty(),
    {
        let m: StrMap<V> = StrMap { entries: Vec::new() };
        assert(m@ =~= Map::<Seq<char>, V::V>::empty());
        assert(m.keys() =~= Seq::<Seq<char>>::empty());
        m
    }

    /// The keys ascend and are exactly the keys of the map.
    pub proof fn lemma_keys(&self)
        requires
            ascending(self.keys()),
        ensures
            forall|key: Seq<char>| #[trigger]
                self@.contains_key(key) <==> self.keys().contains(key),
            self.keys().no_duplicates(),
    {
        assert forall|key: Seq<char>| #[trigger] self@.contains_key(key) implies self.keys().contains(
            key,
        ) by {
            let i = entry_index(self.entries@, key);
            assert(self.keys()[i] == key);
        }
        assert forall|key: Seq<char>| self.keys().contains(key) implies #[trigger] self@.contains_key(
            key,
        ) by {
            let i = self.keys().index_of(key);
            assert(self.entries@[i].0@ == key);
        }
        assert forall|i: int, j: int|
            0 <= i < self.keys().len() && 0 <= j < self.keys().len() && i
                != j implies self.keys()[i] != self.keys()[j] by {
            if self.keys()[i] == self.keys()[j] {
                lemma_unique(self.entries@, i, j);
            }
        }
    }

    /// The number of entries.
    pub fn len(&self) -> (n: usize)
        ensures
            n == self.keys().len(),
            n == self@.dom().len(),
            self@.dom().finite(),
            ascending(self.keys()),
    {
        proof {
            use_type_invariant(self);
            self.lemma_keys();
            self.keys().unique_seq_to_set();
            assert(self@.dom() =~= self.keys().to_set());
        }
        self.entries.len()
    }

    /// The keys in iteration order.
    pub fn key_list(&self) -> (r: Vec<String>)
        ensures
            text::strs(r@) == self.keys(),
            ascending(self.keys()),
    {
        proof {
            use_type_invariant(self);
        }
        let mut out: Vec<String> = Vec::new();
        let mut i: usize = 0;
        while i < self.entries.len()
            invariant
                i <= self.entries@.len(),
                out@.len() == i,
                forall|k: int| 0 <= k < i ==> (#[trigger] out@[k])@ == self.entries@[k].0@,
            decreases self.entries@.len() - i,
        {
            out.push(self.entries[i].0.clone());
            i = i + 1;
        }
        assert(text::strs(out@) =~= self.keys());
        out
    }

    /// Whether the map has no entry.
    pub fn is_empty(&self) -> (r: bool)
        ensures
            r == (self@ == Map::<Seq<char>, V::V>::empty()),
    {
        proof {
            if self.entries@.len() == 0 {
                assert(self@ =~= Map::<Seq<char>, V::V>::empty());
            } else {
                assert(self@.contains_key(self.entries@[0].0@));
            }
        }
        self.entries.len() == 0
    }

    /// The key at position `i` in iteration order.
    pub fn key_at(&self, i: usize) -> (k: &String)
        requires
            i < self.keys().len(),
        ensures
            k@ == self.keys()[i as int],
            self@.contains_key(k@),
    {
        proof {
            use_type_invariant(self);
            lemma_at(self.entries@, i as int);
        }
        &self.entries[i].0
    }

    /// The value at position `i` in iteration order.
    pub fn value_at(&self, i: usize) -> (v: &V)
        requires
            i < self.keys().len(),
        ensures
            self@.contains_key(self.keys()[i as int]),
            v@ == self@[self.keys()[i as int]],
    {
        proof {
            use_type_invariant(self);
            lemma_at(self.entries@, i as int);
        }
        &self.entries[i].1
    }

    /// The first position whose key does not come before `key`, and whether the
    /// key there is `key`.
    fn locate(&self, key: &str) -> (r: (usize, bool))
        ensures
            r.0 <= self.entries@.len(),
            forall|i: int|
                0 <= i < r.0 ==> text::chars_lt((#[trigger] self.entries@[i]).0@, key@),
            forall|i: int|
                r.0 <= i < self.entries@.len() ==> !text::chars_lt(
                    (#[trigger] self.entries@[i]).0@,
                    key@,
                ),
            r.1 ==> r.0 < self.entries@.len() && self.entries@[r.0 as int].0@ == key@,
            !r.1 ==> forall|i: int|
                0 <= i < self.entries@.len() ==> (#[trigger] self.entries@[i]).0@ != key@,
    {
        proof {
            use_type_invariant(self);
        }
        let n: usize = self.entries.len();
        let mut i: usize = 0;
        while i < n && text::before(self.entries[i].0.as_str(), key)
            invariant
                i <= n,
                n == self.entries@.len(),
                forall|k: int| 0 <= k < i ==> text::chars_lt((#[trigger] self.entries@[k]).0@, key@),
            decreases n - i,
        {
            i = i + 1;
        }
        proof {
            let keys = entry_keys(self.entries@);
            text::lemma_chars_lt_irreflexive(key@);
            if i < n {
                assert forall|k: int| i <= k < n implies !text::chars_lt(
                    (#[trigger] self.entries@[k]).0@,
                    key@,
                ) by {
                    if k > i && text::chars_lt(self.entries@[k].0@, key@) {
                        assert(text::chars_lt(keys[i as int], keys[k]));
                        text::lemma_chars_lt_transitive(keys[i as int], keys[k], key@);
                    }
                }
                if self.entries@[i as int].0@ != key@ {
                    text::lemma_chars_lt_total(keys[i as int], key@);
                    assert forall|k: int| 0 <= k < n implies (#[trigger] self.entries@[k]).0@
                        != key@ by {
                        if k > i && self.entries@[k].0@ == key@ {
                            assert(text::chars_lt(keys[i as int], keys[k]));
                            text::lemma_chars_lt_transitive(key@, keys[i as int], keys[k]);
                        }
                    }
                }
            }
        }
        let found = i < n && text::same(self.entries[i].0.as_str(), key);
        (i, found)
    }

    /// The value stored under `key`.
    pub fn get(&self, key: &str) -> (r: Option<&V>)
        ensures
            r is Some <==> self@.contains_key(key@),
            r matches Some(v) ==> v@ == self@[key@],
    {
        proof {
            use_type_invariant(self);
        }
        let (i, found) = self.locate(key);
        if found {
            proof {
                lemma_at(self.entries@, i as int);
            }
            Some(&self.entries[i].1)
        } else {
            None
        }
    }

    /// Whether `key` has a value.
    pub fn contains_key(&self, key: &str) -> (r: bool)
        ensures
            r == self@.contains_key(key@),
    {
        self.get(key).is_some()
    }

    /// Stores `value` under `key`, replacing what was there.
    pub fn insert(&mut self, key: String, value: V)
        ensures
            final(self)@ == old(self)@.insert(key@, value@),
    {
        proof {
            use_type_invariant(&*self);
        }
        let ghost before = self.entries@;
        let ghost k = key@;
        let ghost v = value@;
        let (i, found) = self.locate(key.as_str());
        let mut entries: Vec<(String, V)> = Vec::new();
        std::mem::swap(&mut entries, &mut self.entries);
        if found {
            entries.set(i, (key, value));
            proof {
                assert(entry_keys(entries@) =~= entry_keys(before));
            }
        } else {
            entries.insert(i, (key, value));
            proof {
                let keys = entry_keys(before);
                assert forall|a: int, b: int|
                    0 <= a < b < entry_keys(entries@).len() implies #[trigger] text::chars_lt(
                    entry_keys(entries@)[a],
                    entry_keys(entries@)[b],
                ) by {
                    if a < i && b < i {
                        assert(text::chars_lt(keys[a], keys[b]));
                    } else if a < i && b == i {
                        assert(text::chars_lt(before[a].0@, k));
                    } else if a < i && b > i {
                        assert(text::chars_lt(keys[a], keys[b - 1]));
                    } else if a == i {
                        text::lemma_chars_lt_total(before[b - 1].0@, k);
                    } else {
                        assert(text::chars_lt(keys[a - 1], keys[b - 1]));
                    }
                }
            }
        }
        proof {
            assert(entries@[i as int].0@ == k && entries@[i as int].1@ == v);
            assert forall|key: Seq<char>| #[trigger]
                entry_map(entries@).contains_key(key) <==> entry_map(before).insert(
                    k,
                    v,
                ).contains_key(key) by {
                if entry_map(entries@).contains_key(key) {
                    let p = entry_index(entries@, key);
                    if p != i {
                        let q = if found || p < i {
                            p
                        } else {
                            p - 1
                        };
                        assert(before[q].0@ == key);
                    }
                }
                if entry_map(before).contains_key(key) && key != k {
                    let p = entry_index(before, key);
                    let q = if found || p < i {
                        p
                    } else {
                        p + 1
                    };
                    assert(entries@[q].0@ == key);
                }
            }
            assert forall|key: Seq<char>| #[trigger]
                entry_map(entries@).contains_key(key) implies entry_map(entries@)[key] == entry_map(
                before,
            ).insert(k, v)[key] by {
                let p = entry_index(entries@, key);
                lemma_at(entries@, p);
                if p == i {
                    assert(key == k);
                } else {
                    if key == k {
                        lemma_unique(entries@, p, i as int);
                    }
                    let q = if found || p < i {
                        p
                    } else {
                        p - 1
                    };
                    assert(before[q].0@ == key);
                    lemma_at(before, q);
                }
            }
            assert(entry_map(entries@) =~= entry_map(before).insert(k, v));
        }
        self.entries = entries;
    }

    /// Replaces the value at position `i`, keeping its key.
    pub fn set_at(&mut self, i: usize, value: V)
        requires
            i < old(self).keys().len(),
        ensures
            final(self)@ == old(self)@.insert(old(self).keys()[i as int], value@),
            final(self).keys() == old(self).keys(),
    {
        proof {
            use_type_invariant(&*self);
        }
        let key = self.entries[i].0.clone();
        let ghost before = self.entries@;
        let ghost k = key@;
        let ghost v = value@;
        let mut entries: Vec<(String, V)> = Vec::new();
        std::mem::swap(&mut entries, &mut self.entries);
        entries.set(i, (key, value));
        proof {
            assert(entry_keys(entries@) =~= entry_keys(before));
            assert(entries@[i as int].0@ == k);
            assert forall|key: Seq<char>| #[trigger]
                entry_map(entries@).contains_key(key) <==> entry_map(before).insert(
                    k,
                    v,
                ).contains_key(key) by {
                if entry_map(entries@).contains_key(key) {
                    let p = entry_index(entries@, key);
                    assert(before[p].0@ == key);
                }
                if entry_map(before).contains_key(key) {
                    let p = entry_index(before, key);
                    assert(entries@[p].0@ == key);
                }
            }
            assert forall|key: Seq<char>| #[trigger]
                entry_map(entries@).contains_key(key) implies entry_map(entries@)[key] == entry_map(
                before,
            ).insert(k, v)[key] by {
                let p = entry_index(entries@, key);
                lemma_at(entries@, p);
                if p != i {
                    if key == k {
                        lemma_unique(entries@, p, i as int);
                    }
                    assert(before[p].0@ == key);
                    lemma_at(before, p);
                }
            }
            assert(entry_map(entries@) =~= entry_map(before).insert(k, v));
        }
        self.entries = entries;
    }

    /// Takes the value stored under `key` out of the map.
    pub fn remove(&mut self, key: &str) -> (r: Option<V>)
        ensures
            final(self)@ == old(self)@.remove(key@),
            r is Some <==> old(self)@.contains_key(key@),
            r matches Some(v) ==> v@ == old(self)@[key@],
    {
        proof {
            use_type_invariant(&*self);
        }
        let ghost before = self.entries@;
        let (i, found) = self.locate(key);
        if !found {
            proof {
                assert(self@ =~= self@.remove(key@));
            }
            return None;
        }
        proof {
            lemma_at(before, i as int);
        }
        let mut entries: Vec<(String, V)> = Vec::new();
        std::mem::swap(&mut entries, &mut self.entries);
        let (_, value) = entries.remove(i);
        proof {
            let keys = entry_keys(before);
            assert forall|a: int, b: int|
                0 <= a < b < entry_keys(entries@).len() implies #[trigger] text::chars_lt(
                entry_keys(entries@)[a],
                entry_keys(entries@)[b],
            ) by {
                let a2 = if a < i {
                    a
                } else {
                    a + 1
                };
                let b2 = if b < i {
                    b
                } else {
                    b + 1
                };
                assert(text::chars_lt(keys[a2], keys[b2]));
            }
            assert forall|k: Seq<char>| #[trigger]
                entry_map(entries@).contains_key(k) <==> entry_map(before).remove(
                    key@,
                ).contains_key(k) by {
                if entry_map(entries@).contains_key(k) {
                    let p = entry_index(entries@, k);
                    let q = if p < i {
                        p
                    } else {
                        p + 1
                    };
                    assert(before[q].0@ == k);
                    if k == key@ {
                        lemma_unique(before, q, i as int);
                    }
                }
                if entry_map(before).contains_key(k) && k != key@ {
                    let p = entry_index(before, k);
                    let q = if p < i {
                        p
                    } else {
                        p - 1
                    };
                    assert(entries@[q].0@ == k);
                }
            }
            assert forall|k: Seq<char>| #[trigger]
                entry_map(entries@).contains_key(k) implies entry_map(entries@)[k] == entry_map(
                before,
            ).remove(key@)[k] by {
                let p = entry_index(entries@, k);
                lemma_at(entries@, p);
                let q = if p < i {
                    p
                } else {
                    p + 1
                };
                assert(before[q].0@ == k);
                lemma_at(before, q);
            }
            assert(entry_map(entries@) =~= entry_map(before).remove(key@));
        }
        self.entries = entries;
        Some(value)
    }
}

/// A value that can be copied into one with the same view.
pub trait Copied: View + Sized {
    /// A copy with the same view.
    fn copied(&self) -> (r: Self)
        ensures
            r@ == self@,
    ;
}

impl<V: Copied> StrMap<V> {
    /// A copy of the map.
    pub fn copied(&self) -> (m: StrMap<V>)
        ensures
            m@ == self@,
            m.keys() == self.keys(),
    {
        proof {
            use_type_invariant(self);
        }
        let mut entries: Vec<(String, V)> = Vec::new();
        let mut i: usize = 0;
        while i < self.entries.len()
            invariant
                i <= self.entries@.len(),
                entries@.len() == i,
                forall|k: int|
                    0 <= k < i ==> (#[trigger] entries@[k]).0@ == self.entries@[k].0@
                        && entries@[k].1@ == self.entries@[k].1@,
            decreases self.entries@.len() - i,
        {
            entries.push((self.entries[i].0.clone(), self.entries[i].1.copied()));
            i = i + 1;
        }
        proof {
            assert(entry_keys(entries@) =~= entry_keys(self.entries@));
            assert forall|key: Seq<char>| #[trigger]
                entry_map(entries@).contains_key(key) <==> entry_map(self.entries@).contains_key(
                    key,
                ) by {
                if entry_map(entries@).contains_key(key) {
                    let p = entry_index(entries@, key);
                    assert(self.entries@[p].0@ == key);
                }
                if entry_map(self.entries@).contains_key(key) {
                    let p = entry_index(self.entries@, key);
                    assert(entries@[p].0@ == key);
                }
            }
            assert forall|key: Seq<char>| #[trigger]
                entry_map(entries@).contains_key(key) implies entry_map(entries@)[key] == entry_map(
                self.entries@,
            )[key] by {
                let p = entry_index(entries@, key);
                lemma_at(entries@, p);
                assert(self.entries@[p].0@ == key);
                lemma_at(self.entries@, p);
            }
            assert(entry_map(entries@) =~= entry_map(self.entries@));
        }
        StrMap { entries }
    }
}

} // verus!
