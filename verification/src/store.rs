//! A keyed store: a mapping from string identifiers to values, with unique
//! keys, kept as an association list. Per-entity engine state (burn rates,
//! emission windows, metadata) lives in such stores, owned by the engine
//! instance and passed by reference rather than held in ambient globals.

use vstd::prelude::*;

verus! {

/// Some entry of the sequence bears this key.
pub open spec fn has_key<V>(s: Seq<(String, V)>, k: Seq<char>) -> bool {
    exists|i: int| 0 <= i < s.len() && s[i].0@ == k
}

/// The index of the entry bearing this key (unique when keys are unique).
pub open spec fn key_index<V>(s: Seq<(String, V)>, k: Seq<char>) -> int {
    choose|i: int| 0 <= i < s.len() && s[i].0@ == k
}

/// No two entries share a key.
pub open spec fn unique_keys<V>(s: Seq<(String, V)>) -> bool {
    forall|i: int, j: int| 0 <= i < j < s.len() ==> #[trigger] s[i].0@ != #[trigger] s[j].0@
}

/// The value stored under a key, if any.
pub open spec fn spec_get<V>(s: Seq<(String, V)>, k: Seq<char>) -> Option<V> {
    if has_key(s, k) {
        Some(s[key_index(s, k)].1)
    } else {
        None
    }
}

/// A mapping from string identifiers to values of type `V`.
#[derive(Debug)]
pub struct KeyedStore<V> {
    pub entries: Vec<(String, V)>,
}

impl<V> KeyedStore<V> {
    pub open spec fn wf(self) -> bool {
        unique_keys(self.entries@)
    }

    /// What the store holds under a key.
    pub open spec fn spec_value(self, k: Seq<char>) -> Option<V> {
        spec_get(self.entries@, k)
    }

    pub fn new() -> (r: KeyedStore<V>)
        ensures
            r.wf(),
            r.entries@.len() == 0,
    {
        KeyedStore { entries: Vec::new() }
    }

    /// The index of the entry with this key, if any.
    pub fn find_index(&self, k: &String) -> (r: Option<usize>)
        requires
            self.wf(),
        ensures
            match r {
                Some(i) => i < self.entries@.len() && self.entries@[i as int].0@ == k@
                    && has_key(self.entries@, k@) && key_index(self.entries@, k@) == i
                    && self.spec_value(k@) == Some(self.entries@[i as int].1),
                None => !has_key(self.entries@, k@) && self.spec_value(k@) is None,
            },
    {
        let mut i: usize = 0;
        while i < self.entries.len()
            invariant
                self.wf(),
                i <= self.entries@.len(),
                forall|t: int| 0 <= t < i ==> #[trigger] self.entries@[t].0@ != k@,
            decreases self.entries@.len() - i,
        {
            if self.entries[i].0 == *k {
                proof {
                    let j = key_index(self.entries@, k@);
                    assert(0 <= j < self.entries@.len() && self.entries@[j].0@ == k@);
                    if j < i {
                        assert(self.entries@[j].0@ != self.entries@[i as int].0@);
                    }
                    if j > i {
                        assert(self.entries@[i as int].0@ != self.entries@[j].0@);
                    }
                }
                return Some(i);
            }
            i = i + 1;
        }
        None
    }

    /// A borrow of the value under this key, if any.
    pub fn get(&self, k: &String) -> (r: Option<&V>)
        requires
            self.wf(),
        ensures
            match r {
                Some(v) => self.spec_value(k@) == Some(*v),
                None => self.spec_value(k@) is None,
            },
    {
        match self.find_index(k) {
            Some(i) => Some(&self.entries[i].1),
            None => None,
        }
    }

    /// Store `v` under `k`: overwrite the entry of the same key, or append a
    /// new one. Other keys keep their values.
    pub fn insert(&mut self, k: String, v: V)
        requires
            old(self).wf(),
        ensures
            final(self).wf(),
            final(self).spec_value(k@) == Some(v),
            forall|k2: Seq<char>| k2 != k@
                ==> #[trigger] final(self).spec_value(k2) == old(self).spec_value(k2),
            final(self).entries@.len() <= old(self).entries@.len() + 1,
    {
        let found = self.find_index(&k);
        match found {
            Some(i) => {
                self.entries[i] = (k, v);
                proof {
                    let ii = i as int;
                    lemma_unique_after_update(old(self).entries@, ii, self.entries@[ii]);
                    lemma_get_after_update(old(self).entries@, ii, self.entries@[ii]);
                }
            }
            None => {
                self.entries.push((k, v));
                proof {
                    lemma_unique_after_push(old(self).entries@, self.entries@.last());
                    lemma_get_after_push(old(self).entries@, self.entries@.last());
                }
            }
        }
    }
}

impl<V> KeyedStore<V> {
    /// Store `v` under `k` only if the key is absent. An occupied key fails
    /// the insert and leaves every stored value, including the occupant,
    /// untouched: keys are immutable once set.
    pub fn insert_new(&mut self, k: String, v: V) -> (r: Result<(), ()>)
        requires
            old(self).wf(),
        ensures
            final(self).wf(),
            old(self).spec_value(k@) is Some ==> r is Err && *final(self) == *old(self),
            old(self).spec_value(k@) is None ==> r is Ok && final(self).spec_value(k@) == Some(v)
                && (forall|k2: Seq<char>| k2 != k@
                ==> #[trigger] final(self).spec_value(k2) == old(self).spec_value(k2)),
    {
        match self.find_index(&k) {
            Some(_) => Err(()),
            None => {
                self.entries.push((k, v));
                proof {
                    lemma_unique_after_push(old(self).entries@, self.entries@.last());
                    lemma_get_after_push(old(self).entries@, self.entries@.last());
                }
                Ok(())
            }
        }
    }
}

/// Updating an entry with one of the same key keeps keys unique.
proof fn lemma_unique_after_update<V>(s: Seq<(String, V)>, i: int, e: (String, V))
    requires
        unique_keys(s),
        0 <= i < s.len(),
        e.0@ == s[i].0@,
    ensures
        unique_keys(s.update(i, e)),
{
    let t = s.update(i, e);
    assert forall|a: int, b: int| 0 <= a < b < t.len() implies #[trigger] t[a].0@ != #[trigger] t[b].0@ by {
        assert(s[a].0@ != s[b].0@);
    }
}

/// After updating index `i` with an entry of the same key, lookups see the
/// new value there and the old values elsewhere.
proof fn lemma_get_after_update<V>(s: Seq<(String, V)>, i: int, e: (String, V))
    requires
        unique_keys(s),
        0 <= i < s.len(),
        e.0@ == s[i].0@,
    ensures
        spec_get(s.update(i, e), e.0@) == Some(e.1),
        forall|k2: Seq<char>| k2 != e.0@
            ==> #[trigger] spec_get(s.update(i, e), k2) == spec_get(s, k2),
{
    let t = s.update(i, e);
    assert(t[i].0@ == e.0@);
    assert(has_key(t, e.0@));
    let j = key_index(t, e.0@);
    if j != i {
        assert(t[j] == s[j]);
        assert(s[j].0@ != s[i].0@);
    }
    assert forall|k2: Seq<char>| k2 != e.0@ implies #[trigger] spec_get(t, k2) == spec_get(s, k2) by {
        assert forall|a: int| 0 <= a < s.len() implies (s[a].0@ == k2 <==> t[a].0@ == k2) by {
            if a != i {
                assert(t[a] == s[a]);
            }
        }
        if has_key(s, k2) {
            let a = key_index(s, k2);
            assert(t[a].0@ == k2);
            assert(has_key(t, k2));
            let b = key_index(t, k2);
            if a != b {
                assert(s[a].0@ != s[b].0@ || s[b].0@ != s[a].0@);
            }
            assert(a == b);
            assert(t[a] == s[a]);
        } else {
            if has_key(t, k2) {
                let b = key_index(t, k2);
                assert(s[b].0@ == k2);
            }
        }
    }
}

/// Pushing an entry with a fresh key keeps keys unique.
proof fn lemma_unique_after_push<V>(s: Seq<(String, V)>, e: (String, V))
    requires
        unique_keys(s),
        !has_key(s, e.0@),
    ensures
        unique_keys(s.push(e)),
{
    let t = s.push(e);
    assert forall|a: int, b: int| 0 <= a < b < t.len() implies #[trigger] t[a].0@ != #[trigger] t[b].0@ by {
        if b < s.len() {
            assert(s[a].0@ != s[b].0@);
        } else {
            assert(t[a] == s[a]);
            assert(s[a].0@ != e.0@);
        }
    }
}

/// After pushing an entry with a fresh key, lookups see it under its key and
/// the old values elsewhere.
proof fn lemma_get_after_push<V>(s: Seq<(String, V)>, e: (String, V))
    requires
        unique_keys(s),
        !has_key(s, e.0@),
    ensures
        spec_get(s.push(e), e.0@) == Some(e.1),
        forall|k2: Seq<char>| k2 != e.0@ ==> #[trigger] spec_get(s.push(e), k2) == spec_get(s, k2),
{
    let t = s.push(e);
    assert(t[s.len() as int].0@ == e.0@);
    assert(has_key(t, e.0@));
    let j = key_index(t, e.0@);
    if j < s.len() {
        assert(s[j].0@ == e.0@);
    }
    assert forall|k2: Seq<char>| k2 != e.0@ implies #[trigger] spec_get(t, k2) == spec_get(s, k2) by {
        if has_key(s, k2) {
            let a = key_index(s, k2);
            assert(t[a].0@ == k2);
            assert(has_key(t, k2));
            let b = key_index(t, k2);
            if b == s.len() {
                assert(t[b].0@ == e.0@);
            }
            assert(s[b].0@ == k2);
            if a != b {
                assert(s[a].0@ != s[b].0@ || s[b].0@ != s[a].0@);
            }
            assert(t[a] == s[a]);
        } else {
            if has_key(t, k2) {
                let b = key_index(t, k2);
                assert(b != s.len());
                assert(s[b].0@ == k2);
            }
        }
    }
}

} // verus!
