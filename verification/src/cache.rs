//! A cache with a lid: entries are cheap to compute again, so the whole
//! cache is emptied once it is full.

use crate::text::same_str;
use vstd::prelude::*;

verus! {

/// What a cache can be keyed by.
pub trait CacheKey: Sized {
    type Key;

    /// What two keys are told apart by.
    spec fn key(&self) -> Self::Key;

    fn same_key(&self, other: &Self) -> (b: bool)
        ensures
            b == (self.key() == other.key()),
    ;
}

impl CacheKey for String {
    type Key = Seq<char>;

    open spec fn key(&self) -> Seq<char> {
        self@
    }

    fn same_key(&self, other: &Self) -> (b: bool) {
        same_str(self.as_str(), other.as_str())
    }
}

/// A rendering of an icon: which icon, and its side.
#[derive(Clone, Copy, PartialEq, Eq, Debug, Structural)]
pub struct IconKey {
    pub id: u64,
    pub size: i32,
}

impl CacheKey for IconKey {
    type Key = IconKey;

    open spec fn key(&self) -> IconKey {
        *self
    }

    fn same_key(&self, other: &Self) -> (b: bool) {
        *self == *other
    }
}

/// The first entry from `k` on with key `key`.
pub open spec fn entry_from<K: CacheKey, V>(entries: Seq<(K, V)>, key: K::Key, k: int) -> Option<
    int,
>
    decreases entries.len() - k,
{
    if k >= entries.len() {
        None
    } else if entries[k].0.key() == key {
        Some(k)
    } else {
        entry_from(entries, key, k + 1)
    }
}

proof fn lemma_entry<K: CacheKey, V>(entries: Seq<(K, V)>, key: K::Key, k: int)
    requires
        0 <= k <= entries.len(),
    ensures
        match entry_from(entries, key, k) {
            Some(i) => k <= i < entries.len() && entries[i].0.key() == key,
            None => forall|i: int| k <= i < entries.len() ==> (#[trigger] entries[i]).0.key() != key,
        },
    decreases entries.len() - k,
{
    if k < entries.len() && entries[k].0.key() != key {
        lemma_entry(entries, key, k + 1);
    }
}

/// An entry pushed at the end answers only where nothing did before it.
proof fn lemma_entry_push<K: CacheKey, V>(entries: Seq<(K, V)>, e: (K, V), key: K::Key, k: int)
    requires
        0 <= k <= entries.len(),
    ensures
        entry_from(entries.push(e), key, k) == (match entry_from(entries, key, k) {
            Some(i) => Some(i),
            None => if e.0.key() == key {
                Some(entries.len() as int)
            } else {
                None
            },
        }),
    decreases entries.len() - k,
{
    let pushed = entries.push(e);
    if k < entries.len() {
        assert(pushed[k] == entries[k]);
        if entries[k].0.key() != key {
            lemma_entry_push(entries, e, key, k + 1);
        }
    } else {
        assert(pushed[k] == e);
        assert(entry_from(pushed, key, k + 1) is None);
    }
}

/// A value written over at `at` changes no key.
proof fn lemma_entry_update<K: CacheKey, V>(
    entries: Seq<(K, V)>,
    at: int,
    e: (K, V),
    key: K::Key,
    k: int,
)
    requires
        0 <= k <= entries.len(),
        0 <= at < entries.len(),
        e.0.key() == entries[at].0.key(),
    ensures
        entry_from(entries.update(at, e), key, k) == entry_from(entries, key, k),
    decreases entries.len() - k,
{
    if k < entries.len() && entries[k].0.key() != key {
        lemma_entry_update(entries, at, e, key, k + 1);
    }
}

/// A cache.
pub struct Capped<K: CacheKey, V> {
    pub entries: Vec<(K, V)>,
}

impl<K: CacheKey, V> Capped<K, V> {
    /// What the cache holds for a key.
    pub open spec fn held(self, key: K::Key) -> Option<V> {
        match entry_from(self.entries@, key, 0) {
            Some(i) => Some(self.entries@[i].1),
            None => None,
        }
    }

    pub fn new() -> (c: Self)
        ensures
            c.entries@.len() == 0,
            forall|key: K::Key| #[trigger] c.held(key) is None,
    {
        Capped { entries: Vec::new() }
    }

    fn find(&self, key: &K) -> (at: Option<usize>)
        ensures
            match entry_from(self.entries@, key.key(), 0) {
                Some(i) => at is Some && at->0 == i && i < self.entries@.len(),
                None => at is None,
            },
    {
        let mut k: usize = 0;
        while k < self.entries.len()
            invariant
                k <= self.entries@.len(),
                entry_from(self.entries@, key.key(), 0) == entry_from(
                    self.entries@,
                    key.key(),
                    k as int,
                ),
            decreases self.entries@.len() - k,
        {
            if self.entries[k].0.same_key(key) {
                return Some(k);
            }
            k = k + 1;
        }
        None
    }

    /// Look a key up.
    pub fn get(&self, key: &K) -> (v: Option<&V>)
        ensures
            match self.held(key.key()) {
                Some(x) => v is Some && *(v->0) == x,
                None => v is None,
            },
    {
        match self.find(key) {
            Some(i) => Some(&self.entries[i].1),
            None => None,
        }
    }

    /// Insert a value, emptying the cache first if it is full.
    pub fn insert_capped(&mut self, cap: usize, key: K, value: V)
        ensures
            forall|other: K::Key| #[trigger]
                final(self).held(other) == (if other == key.key() {
                    Some(value)
                } else if old(self).entries@.len() >= cap {
                    None
                } else {
                    old(self).held(other)
                }),
            final(self).entries@.len() == (if old(self).entries@.len() >= cap {
                1
            } else if old(self).held(key.key()) is Some {
                old(self).entries@.len()
            } else {
                old(self).entries@.len() + 1
            }),
            old(self).entries@.len() <= cap && cap > 0 ==> final(self).entries@.len() <= cap,
    {
        if self.entries.len() >= cap {
            self.entries.clear();
        }
        let ghost before = self.entries@;
        let ghost kv = key.key();
        match self.find(&key) {
            Some(i) => {
                self.entries.set(i, (key, value));
                proof {
                    lemma_entry(before, kv, 0);
                    assert forall|other: K::Key| #[trigger] entry_from(self.entries@, other, 0)
                        == entry_from(before, other, 0) by {
                        lemma_entry_update(before, i as int, (key, value), other, 0);
                    }
                    assert forall|other: K::Key| other != kv implies entry_from(before, other, 0)
                        != Some(i as int) by {
                        lemma_entry(before, other, 0);
                    }
                    assert forall|other: K::Key| other != kv implies (match #[trigger] entry_from(
                        before,
                        other,
                        0,
                    ) {
                        Some(j) => self.entries@[j] == before[j],
                        None => true,
                    }) by {
                        lemma_entry(before, other, 0);
                    }
                }
            },
            None => {
                self.entries.push((key, value));
                proof {
                    assert forall|other: K::Key| other != kv implies (match #[trigger] entry_from(
                        self.entries@,
                        other,
                        0,
                    ) {
                        Some(j) => entry_from(before, other, 0) == Some(j) && self.entries@[j]
                            == before[j],
                        None => entry_from(before, other, 0) is None,
                    }) by {
                        lemma_entry(before, other, 0);
                        lemma_entry_push(before, (key, value), other, 0);
                    }
                    lemma_entry_push(before, (key, value), kv, 0);
                    assert(self.entries@[before.len() as int] == (key, value));
                }
            },
        }
    }
}

} // verus!
