//! A small map keyed by strings, kept as a list of entries in insertion
//! order with no key twice.

use vstd::prelude::*;
use crate::text::str_eq;

verus! {

/// The value of `key` in `s` (the first entry with that key).
pub open spec fn lookup_key<V>(s: Seq<(Seq<char>, V)>, key: Seq<char>) -> Option<V>
    decreases s.len(),
{
    if s.len() == 0 {
        None
    } else if s[0].0 == key {
        Some(s[0].1)
    } else {
        lookup_key(s.drop_first(), key)
    }
}

/// Index of the first entry with `key`, or `s.len()`.
pub open spec fn key_index<V>(s: Seq<(Seq<char>, V)>, key: Seq<char>) -> int
    decreases s.len(),
{
    if s.len() == 0 {
        0
    } else if s[0].0 == key {
        0
    } else {
        1 + key_index(s.drop_first(), key)
    }
}

/// No key occurs twice.
pub open spec fn keys_unique<V>(s: Seq<(Seq<char>, V)>) -> bool {
    forall|i: int, j: int| 0 <= i < j < s.len() ==> s[i].0 != s[j].0
}

/// The entries after storing `v` under `key`: the entry of `key` is
/// replaced in place, or appended if there was none.
pub open spec fn store_key<V>(s: Seq<(Seq<char>, V)>, key: Seq<char>, v: V) -> Seq<(Seq<char>, V)> {
    let i = key_index(s, key);
    if i < s.len() { s.update(i, (key, v)) } else { s.push((key, v)) }
}

/// The entries without the entry of `key`.
pub open spec fn remove_key<V>(s: Seq<(Seq<char>, V)>, key: Seq<char>) -> Seq<(Seq<char>, V)> {
    let i = key_index(s, key);
    if i < s.len() { s.remove(i) } else { s }
}

pub proof fn lemma_key_index<V>(s: Seq<(Seq<char>, V)>, key: Seq<char>)
    ensures
        0 <= key_index(s, key) <= s.len(),
        key_index(s, key) < s.len() ==> s[key_index(s, key)].0 == key,
        key_index(s, key) < s.len() ==> lookup_key(s, key) == Some(s[key_index(s, key)].1),
        key_index(s, key) == s.len() ==> lookup_key(s, key) is None,
        forall|j: int| 0 <= j < key_index(s, key) ==> (#[trigger] s[j]).0 != key,
    decreases s.len(),
{
    if s.len() > 0 && s[0].0 != key {
        lemma_key_index(s.drop_first(), key);
        assert forall|j: int| 0 <= j < key_index(s, key) implies (#[trigger] s[j]).0 != key by {
            if j > 0 {
                assert(s[j] == s.drop_first()[j - 1]);
            }
        }
        if key_index(s, key) < s.len() {
            assert(s[key_index(s, key)] == s.drop_first()[key_index(s, key) - 1]);
        }
    }
}

/// Entries with no key before `k` and the given key at `k` look up there.
proof fn lemma_lookup_at<V>(s: Seq<(Seq<char>, V)>, key: Seq<char>, k: int)
    requires
        0 <= k <= s.len(),
        forall|j: int| 0 <= j < k ==> (#[trigger] s[j]).0 != key,
        k < s.len() ==> s[k].0 == key,
    ensures
        key_index(s, key) == k,
    decreases s.len(),
{
    if k > 0 {
        assert forall|j: int| 0 <= j < k - 1 implies (#[trigger] s.drop_first()[j]).0 != key by {
            assert(s.drop_first()[j] == s[j + 1]);
        }
        if k - 1 < s.len() - 1 {
            assert(s.drop_first()[k - 1] == s[k]);
        }
        lemma_lookup_at(s.drop_first(), key, k - 1);
    }
}

/// What is read back after a write: the written value under its key, and
/// the earlier value under any other key.
pub proof fn law_store_then_lookup<V>(s: Seq<(Seq<char>, V)>, key: Seq<char>, v: V, other: Seq<char>)
    requires
        keys_unique(s),
    ensures
        lookup_key(store_key(s, key, v), key) == Some(v),
        other != key ==> lookup_key(store_key(s, key, v), other) == lookup_key(s, other),
        keys_unique(store_key(s, key, v)),
{
    lemma_key_index(s, key);
    lemma_key_index(s, other);
    let t = store_key(s, key, v);
    let i = key_index(s, key);
    lemma_lookup_at(t, key, i);
    lemma_key_index(t, key);
    if other != key {
        let o = key_index(s, other);
        let k = if o < s.len() { o } else { t.len() as int };
        assert forall|j: int| 0 <= j < k implies (#[trigger] t[j]).0 != other by {
            if j == i {
            } else {
                assert(t[j] == s[j]);
            }
        }
        if o < s.len() {
            assert(t[o] == s[o]);
        }
        lemma_lookup_at(t, other, k);
        lemma_key_index(t, other);
    }
    assert forall|a: int, b: int| 0 <= a < b < t.len() implies t[a].0 != t[b].0 by {
        if i < s.len() {
            if a == i {
                assert(t[b] == s[b]);
            } else if b == i {
                assert(t[a] == s[a]);
            } else {
                assert(t[a] == s[a] && t[b] == s[b]);
            }
        } else {
            if b == s.len() {
                assert(t[a] == s[a]);
            } else {
                assert(t[a] == s[a] && t[b] == s[b]);
            }
        }
    }
}

/// A map from strings to values.
pub struct StrMap<V> {
    entries: Vec<(String, V)>,
}

/// The entries with their keys as character sequences.
pub open spec fn key_views<V>(entries: Seq<(String, V)>) -> Seq<(Seq<char>, V)> {
    entries.map_values(|e: (String, V)| (e.0@, e.1))
}

impl<V> StrMap<V> {
    /// The entries, in insertion order.
    pub closed spec fn view_entries(&self) -> Seq<(Seq<char>, V)> {
        key_views(self.entries@)
    }

    /// No key occurs twice.
    pub open spec fn wf(&self) -> bool {
        keys_unique(self.view_entries())
    }

    /// An empty map.
    pub fn new() -> (r: Self)
        ensures
            r.view_entries() == Seq::<(Seq<char>, V)>::empty(),
            r.wf(),
    {
        let r = StrMap { entries: Vec::new() };
        proof {
            assert(r.view_entries() =~= Seq::<(Seq<char>, V)>::empty());
        }
        r
    }

    /// Position of `key`.
    fn position(&self, key: &str) -> (r: Option<usize>)
        ensures
            match r {
                Some(i) => i as int == key_index(self.view_entries(), key@) && i < self.entries@.len(),
                None => key_index(self.view_entries(), key@) == self.view_entries().len(),
            },
    {
        let ghost v = self.view_entries();
        proof {
            lemma_key_index(v, key@);
        }
        let mut i: usize = 0;
        while i < self.entries.len()
            invariant
                v == key_views(self.entries@),
                v.len() == self.entries@.len(),
                i <= v.len(),
                forall|j: int| 0 <= j < i ==> (#[trigger] v[j]).0 != key@,
            decreases self.entries@.len() - i,
        {
            if str_eq(self.entries[i].0.as_str(), key) {
                proof {
                    lemma_lookup_at(v, key@, i as int);
                }
                return Some(i);
            }
            i = i + 1;
        }
        proof {
            lemma_lookup_at(v, key@, v.len() as int);
        }
        None
    }

    /// The value stored under `key`.
    pub fn get(&self, key: &str) -> (r: Option<&V>)
        ensures
            match r {
                Some(v) => lookup_key(self.view_entries(), key@) == Some(*v),
                None => lookup_key(self.view_entries(), key@) is None,
            },
    {
        proof {
            lemma_key_index(self.view_entries(), key@);
        }
        match self.position(key) {
            Some(i) => Some(&self.entries[i].1),
            None => None,
        }
    }

    /// Whether `key` has a value.
    pub fn contains_key(&self, key: &str) -> (r: bool)
        ensures
            r == (lookup_key(self.view_entries(), key@) is Some),
    {
        proof {
            lemma_key_index(self.view_entries(), key@);
        }
        self.position(key).is_some()
    }

    /// Store `value` under `key`, replacing any earlier value.
    pub fn insert(&mut self, key: &str, value: V)
        requires
            old(self).wf(),
        ensures
            final(self).view_entries() == store_key(old(self).view_entries(), key@, value),
            final(self).wf(),
    {
        let ghost v0 = self.view_entries();
        proof {
            law_store_then_lookup(v0, key@, value, key@);
        }
        match self.position(key) {
            Some(i) => {
                self.entries.set(i, (key.to_owned(), value));
                proof {
                    assert(self.view_entries() =~= store_key(v0, key@, value));
                }
            },
            None => {
                self.entries.push((key.to_owned(), value));
                proof {
                    assert(self.view_entries() =~= store_key(v0, key@, value));
                }
            },
        }
    }

    /// Remove the entry of `key`, if any.
    pub fn remove(&mut self, key: &str)
        requires
            old(self).wf(),
        ensures
            final(self).view_entries() == remove_key(old(self).view_entries(), key@),
            final(self).wf(),
    {
        let ghost v0 = self.view_entries();
        match self.position(key) {
            Some(i) => {
                self.entries.remove(i);
                proof {
                    assert(self.view_entries() =~= remove_key(v0, key@));
                    let t = self.view_entries();
                    assert forall|a: int, b: int| 0 <= a < b < t.len() implies t[a].0 != t[b].0 by {
                        let a0 = if a < i { a } else { a + 1 };
                        let b0 = if b < i { b } else { b + 1 };
                        assert(t[a] == v0[a0] && t[b] == v0[b0]);
                    }
                }
            },
            None => {},
        }
    }

    /// The keys, in insertion order.
    pub fn keys(&self) -> (r: Vec<String>)
        ensures
            r@.map_values(|k: String| k@) == self.view_entries().map_values(|e: (Seq<char>, V)| e.0),
    {
        let mut out: Vec<String> = Vec::new();
        let mut i: usize = 0;
        while i < self.entries.len()
            invariant
                i <= self.entries@.len(),
                out@.map_values(|k: String| k@)
                    == self.view_entries().take(i as int).map_values(|e: (Seq<char>, V)| e.0),
            decreases self.entries@.len() - i,
        {
            let ghost before = out@;
            out.push(self.entries[i].0.clone());
            proof {
                assert(out@.map_values(|k: String| k@) =~= before.map_values(|k: String| k@).push(self.entries@[i as int].0@));
                assert(self.view_entries().take(i as int + 1).map_values(|e: (Seq<char>, V)| e.0)
                    =~= self.view_entries().take(i as int).map_values(|e: (Seq<char>, V)| e.0).push(self.entries@[i as int].0@));
            }
            i = i + 1;
        }
        proof {
            assert(self.view_entries().take(self.entries@.len() as int) =~= self.view_entries());
        }
        out
    }
}



/// The value under `key`, or `default` when there is none.
pub open spec fn value_or<V>(s: Seq<(Seq<char>, V)>, key: Seq<char>, default: V) -> V {
    match lookup_key(s, key) {
        Some(v) => v,
        None => default,
    }
}

impl<V> StrMap<V> {
    /// Replace the value under `key` by `f(old value)`, or insert `f(default)`,
    /// keeping the entry's position.
    pub fn replace_with(&mut self, key: &str, value: V)
        requires
            old(self).wf(),
        ensures
            final(self).view_entries() == store_key(old(self).view_entries(), key@, value),
            final(self).wf(),
    {
        self.insert(key, value);
    }

    /// Remove the value under `key` and return it (the entry goes).
    pub fn take(&mut self, key: &str) -> (r: Option<V>)
        requires
            old(self).wf(),
        ensures
            r == lookup_key(old(self).view_entries(), key@),
            final(self).view_entries() == remove_key(old(self).view_entries(), key@),
            final(self).wf(),
    {
        let ghost v0 = self.view_entries();
        proof {
            lemma_key_index(v0, key@);
        }
        match self.position(key) {
            Some(i) => {
                let (_, v) = self.entries.remove(i);
                proof {
                    assert(self.view_entries() =~= remove_key(v0, key@));
                    let t = self.view_entries();
                    assert forall|a: int, b: int| 0 <= a < b < t.len() implies t[a].0 != t[b].0 by {
                        let a0 = if a < i { a } else { a + 1 };
                        let b0 = if b < i { b } else { b + 1 };
                        assert(t[a] == v0[a0] && t[b] == v0[b0]);
                    }
                }
                Some(v)
            },
            None => None,
        }
    }
}

/// The entries of a map of lists, with the lists as sequences.
pub open spec fn list_entries<T>(s: Seq<(Seq<char>, Vec<T>)>) -> Seq<(Seq<char>, Seq<T>)> {
    s.map_values(|e: (Seq<char>, Vec<T>)| (e.0, e.1@))
}

/// The list under `key`, or the empty list.
pub open spec fn list_or_empty<T>(s: Seq<(Seq<char>, Seq<T>)>, key: Seq<char>) -> Seq<T> {
    value_or(s, key, Seq::empty())
}

pub proof fn lemma_list_entries<T>(s: Seq<(Seq<char>, Vec<T>)>, key: Seq<char>, v: Vec<T>)
    ensures
        key_index(list_entries(s), key) == key_index(s, key),
        lookup_key(list_entries(s), key) == (match lookup_key(s, key) { Some(o) => Some(o@), None => None }),
        list_entries(store_key(s, key, v)) == store_key(list_entries(s), key, v@),
        list_entries(remove_key(s, key)) == remove_key(list_entries(s), key),
        keys_unique(s) == keys_unique(list_entries(s)),
    decreases s.len(),
{
    if s.len() > 0 {
        lemma_list_entries(s.drop_first(), key, v);
        assert(list_entries(s).drop_first() =~= list_entries(s.drop_first()));
    }
    lemma_key_index(s, key);
    lemma_key_index(list_entries(s), key);
    assert(list_entries(store_key(s, key, v)) =~= store_key(list_entries(s), key, v@));
    assert(list_entries(remove_key(s, key)) =~= remove_key(list_entries(s), key));
    let t = list_entries(s);
    assert(keys_unique(s) ==> keys_unique(t)) by {
        if keys_unique(s) {
            assert forall|i: int, j: int| 0 <= i < j < t.len() implies t[i].0 != t[j].0 by {
                assert(t[i].0 == s[i].0 && t[j].0 == s[j].0);
            }
        }
    }
    assert(keys_unique(t) ==> keys_unique(s)) by {
        if keys_unique(t) {
            assert forall|i: int, j: int| 0 <= i < j < s.len() implies s[i].0 != s[j].0 by {
                assert(t[i].0 == s[i].0 && t[j].0 == s[j].0);
            }
        }
    }
}

impl<T> StrMap<Vec<T>> {
    /// The lists by key.
    pub open spec fn lists(&self) -> Seq<(Seq<char>, Seq<T>)> {
        list_entries(self.view_entries())
    }

    /// Append `item` to the list under `key` (starting a new list if there
    /// is none), keeping the entry's position.
    pub fn push_value(&mut self, key: &str, item: T)
        requires
            old(self).wf(),
        ensures
            final(self).wf(),
            final(self).lists() == store_key(old(self).lists(), key@, list_or_empty(old(self).lists(), key@).push(item)),
    {
        let ghost v0 = self.view_entries();
        proof {
            lemma_key_index(v0, key@);
        }
        match self.position(key) {
            Some(i) => {
                let (k, mut list) = self.entries.remove(i);
                proof {
                    assert(lookup_key(v0, key@) == Some(list));
                }
                list.push(item);
                self.entries.insert(i, (k, list));
                proof {
                    assert(self.view_entries() =~= store_key(v0, key@, list));
                    lemma_list_entries(v0, key@, list);
                    law_store_then_lookup(v0, key@, list, key@);
                }
            },
            None => {
                let mut list: Vec<T> = Vec::new();
                list.push(item);
                self.entries.push((key.to_owned(), list));
                proof {
                    assert(self.view_entries() =~= store_key(v0, key@, list));
                    lemma_list_entries(v0, key@, list);
                    law_store_then_lookup(v0, key@, list, key@);
                    assert(list@ =~= Seq::<T>::empty().push(item));
                }
            },
        }
    }
}

/// The entries of a string map with their values as character sequences.
pub open spec fn text_entries(s: Seq<(Seq<char>, String)>) -> Seq<(Seq<char>, Seq<char>)> {
    s.map_values(|e: (Seq<char>, String)| (e.0, e.1@))
}

pub proof fn lemma_text_entries(s: Seq<(Seq<char>, String)>, key: Seq<char>, v: String)
    ensures
        key_index(text_entries(s), key) == key_index(s, key),
        lookup_key(text_entries(s), key) == (match lookup_key(s, key) { Some(o) => Some(o@), None => None }),
        text_entries(store_key(s, key, v)) == store_key(text_entries(s), key, v@),
        text_entries(remove_key(s, key)) == remove_key(text_entries(s), key),
        keys_unique(s) == keys_unique(text_entries(s)),
    decreases s.len(),
{
    if s.len() > 0 {
        lemma_text_entries(s.drop_first(), key, v);
        assert(text_entries(s).drop_first() =~= text_entries(s.drop_first()));
    }
    lemma_key_index(s, key);
    lemma_key_index(text_entries(s), key);
    assert(text_entries(store_key(s, key, v)) =~= store_key(text_entries(s), key, v@));
    assert(text_entries(remove_key(s, key)) =~= remove_key(text_entries(s), key));
    let t = text_entries(s);
    assert(keys_unique(s) ==> keys_unique(t)) by {
        if keys_unique(s) {
            assert forall|i: int, j: int| 0 <= i < j < t.len() implies t[i].0 != t[j].0 by {
                assert(t[i].0 == s[i].0 && t[j].0 == s[j].0);
            }
        }
    }
    assert(keys_unique(t) ==> keys_unique(s)) by {
        if keys_unique(t) {
            assert forall|i: int, j: int| 0 <= i < j < s.len() implies s[i].0 != s[j].0 by {
                assert(t[i].0 == s[i].0 && t[j].0 == s[j].0);
            }
        }
    }
}

} // verus!
