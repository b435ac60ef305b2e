//! Least-recently-used cache.
//!
//! Entries are kept in recency order, least recently used first. When a new
//! key arrives at capacity, least-recently-used entries are evicted one at a
//! time until there is room, instead of clearing the whole cache.

use vstd::prelude::*;
use crate::text::chars_of;

verus! {

/// A key type the cache can compare and copy by its view.
pub trait CacheKey: View + Sized {
    /// Whether two keys are the same key.
    fn same_key(&self, other: &Self) -> (b: bool)
        ensures
            b == (self@ == other@),
    ;

    /// A copy of the key.
    fn duplicate(&self) -> (c: Self)
        ensures
            c@ == self@,
    ;
}

/// Whether the two strings hold the same characters.
pub(crate) fn str_equal(a: &str, b: &str) -> (r: bool)
    ensures
        r == (a@ == b@),
{
    let x = chars_of(a);
    let y = chars_of(b);
    if x.len() != y.len() {
        return false;
    }
    let mut i: usize = 0;
    while i < x.len()
        invariant
            i <= x@.len(),
            x@.len() == y@.len(),
            x@ == a@,
            y@ == b@,
            forall|j: int| 0 <= j < i ==> x@[j] == y@[j],
        decreases x.len() - i,
    {
        if x[i] != y[i] {
            return false;
        }
        i = i + 1;
    }
    assert(a@ =~= b@);
    true
}

impl<'a> CacheKey for &'a str {
    fn same_key(&self, other: &Self) -> (b: bool) {
        str_equal(*self, *other)
    }

    fn duplicate(&self) -> (c: Self) {
        *self
    }
}

impl CacheKey for (String, u32) {
    fn same_key(&self, other: &Self) -> (b: bool) {
        self.0 == other.0 && self.1 == other.1
    }

    fn duplicate(&self) -> (c: Self) {
        (self.0.clone(), self.1)
    }
}

/// `s` holds an entry for key `k`.
pub open spec fn has_key<KV, V>(s: Seq<(KV, V)>, k: KV) -> bool {
    exists|i: int| 0 <= i < s.len() && #[trigger] s[i].0 == k
}

/// The position of the entry for key `k` in `s` (meaningful when there is one).
pub open spec fn key_index<KV, V>(s: Seq<(KV, V)>, k: KV) -> int {
    choose|i: int| 0 <= i < s.len() && #[trigger] s[i].0 == k
}

/// No key occurs twice in `s`.
pub open spec fn keys_distinct<KV, V>(s: Seq<(KV, V)>) -> bool {
    forall|i: int, j: int| 0 <= i < s.len() && 0 <= j < s.len() && i != j ==> #[trigger] s[i].0 != #[trigger] s[j].0
}

/// The value cached for `k`, if any.
pub open spec fn lru_lookup<KV, V>(s: Seq<(KV, V)>, k: KV) -> Option<V> {
    if has_key(s, k) { Some(s[key_index(s, k)].1) } else { None }
}

/// `s` after a use of key `k`: its entry, if any, becomes the most recent.
pub open spec fn lru_touch<KV, V>(s: Seq<(KV, V)>, k: KV) -> Seq<(KV, V)> {
    if has_key(s, k) {
        let i = key_index(s, k);
        s.remove(i).push(s[i])
    } else {
        s
    }
}

/// How many entries survive eviction when a new key arrives.
pub open spec fn kept_on_insert(len: nat, capacity: nat) -> nat {
    if capacity == 0 { 0 } else if len < capacity { len } else { (capacity - 1) as nat }
}

/// `s` after inserting `v` under `k`: an existing entry is updated and becomes
/// the most recent; otherwise the least recent entries are dropped until fewer
/// than `capacity` remain, and the new entry is appended as the most recent.
pub open spec fn lru_insert<KV, V>(s: Seq<(KV, V)>, capacity: nat, k: KV, v: V) -> Seq<(KV, V)> {
    if has_key(s, k) {
        s.remove(key_index(s, k)).push((k, v))
    } else {
        let keep = kept_on_insert(s.len(), capacity);
        s.subrange(s.len() - keep, s.len() as int).push((k, v))
    }
}

/// `s` after a lookup of `k` that inserts `v` when `k` is absent.
pub open spec fn lru_get_or_insert<KV, V>(s: Seq<(KV, V)>, capacity: nat, k: KV, v: V) -> Seq<(KV, V)> {
    if has_key(s, k) { lru_touch(s, k) } else { lru_insert(s, capacity, k, v) }
}

/// Any sequence that differs from `s` at most in the value of its most
/// recent entry has distinct keys when `s` has.
pub proof fn lemma_value_update_keeps_keys<KV, V>(s: Seq<(KV, V)>)
    requires
        keys_distinct(s),
        s.len() > 0,
    ensures
        forall|t: Seq<(KV, V)>|
            t.len() == s.len() && t[t.len() - 1].0 == s[s.len() - 1].0
            && (forall|j: int| 0 <= j < t.len() - 1 ==> t[j] == s[j])
            ==> #[trigger] keys_distinct(t),
{
    assert forall|t: Seq<(KV, V)>|
        t.len() == s.len() && t[t.len() - 1].0 == s[s.len() - 1].0
        && (forall|j: int| 0 <= j < t.len() - 1 ==> t[j] == s[j])
        implies #[trigger] keys_distinct(t) by {
        assert forall|a: int, b: int| 0 <= a < t.len() && 0 <= b < t.len() && a != b
            implies #[trigger] t[a].0 != #[trigger] t[b].0 by {
            assert(t[a].0 == s[a].0);
            assert(t[b].0 == s[b].0);
        }
    }
}

/// The largest number of entries a cache of `capacity` holds.
pub open spec fn max_entries(capacity: nat) -> nat {
    if capacity == 0 { 1 } else { capacity }
}

/// Least-recently-used cache of at most `capacity` entries (one, for a
/// capacity of zero).
///
/// The entries are one vector of (key, value) pairs ordered from least to
/// most recently used, which is both the map and the recency queue. A hash
/// map is not used: vstd describes its contents only for key types whose
/// hashing it models (`obeys_key_model`), and for a generic key that can
/// only be assumed, not proved.
pub struct LruCache<K, V> {
    entries: Vec<(K, V)>,
    capacity: usize,
}

/// The entries of a cache as (key view, value), least recent first.
pub open spec fn entries_view<K: View, V>(e: Seq<(K, V)>) -> Seq<(K::V, V)> {
    Seq::new(e.len(), |i: int| (e[i].0@, e[i].1))
}

impl<K: CacheKey, V> LruCache<K, V> {
    /// The entries, least recently used first.
    pub closed spec fn entries(&self) -> Seq<(K::V, V)> {
        entries_view(self.entries@)
    }

    /// The capacity the cache was made with.
    pub closed spec fn capacity(&self) -> nat {
        self.capacity as nat
    }

    /// Keys are distinct and the size is within bounds.
    pub open spec fn wf(&self) -> bool {
        &&& keys_distinct(self.entries())
        &&& self.entries().len() <= max_entries(self.capacity())
    }

    /// An empty cache of the given capacity.
    pub fn new(capacity: usize) -> (c: Self)
        ensures
            c.wf(),
            c.entries() == Seq::<(K::V, V)>::empty(),
            c.capacity() == capacity,
    {
        let c = LruCache { entries: Vec::new(), capacity };
        assert(c.entries() =~= Seq::<(K::V, V)>::empty());
        c
    }

    /// The position of `key`, if present.
    fn position(&self, key: &K) -> (r: Option<usize>)
        requires
            self.wf(),
        ensures
            match r {
                Some(i) => i < self.entries().len() && self.entries()[i as int].0 == key@
                    && key_index(self.entries(), key@) == i && has_key(self.entries(), key@),
                None => !has_key(self.entries(), key@),
            },
    {
        let mut i: usize = 0;
        while i < self.entries.len()
            invariant
                i <= self.entries.len(),
                keys_distinct(self.entries()),
                forall|j: int| 0 <= j < i ==> #[trigger] self.entries()[j].0 != key@,
            decreases self.entries.len() - i,
        {
            if self.entries[i].0.same_key(key) {
                assert(self.entries()[i as int].0 == key@);
                assert(has_key(self.entries(), key@));
                proof {
                    let k = key_index(self.entries(), key@);
                    assert(self.entries()[k].0 == key@);
                    if k != i as int {
                        assert(self.entries()[k].0 != self.entries()[i as int].0);
                    }
                }
                return Some(i);
            }
            i = i + 1;
        }
        None
    }

    /// Move the entry at `i` to the most recent position.
    fn touch_at(&mut self, i: usize)
        requires
            old(self).wf(),
            i < old(self).entries().len(),
        ensures
            final(self).entries() == old(self).entries().remove(i as int).push(old(self).entries()[i as int]),
            final(self).capacity() == old(self).capacity(),
            final(self).wf(),
    {
        let ghost s0 = self.entries();
        let e = self.entries.remove(i);
        self.entries.push(e);
        assert(self.entries() =~= s0.remove(i as int).push(s0[i as int]));
        assert forall|a: int, b: int|
            0 <= a < self.entries().len() && 0 <= b < self.entries().len() && a != b
            implies #[trigger] self.entries()[a].0 != #[trigger] self.entries()[b].0 by {
            let ia = if a == s0.len() - 1 { i as int } else if a < i { a } else { a + 1 };
            let ib = if b == s0.len() - 1 { i as int } else if b < i { b } else { b + 1 };
            assert(self.entries()[a] == s0[ia]);
            assert(self.entries()[b] == s0[ib]);
        }
    }

    /// The value for `key`, making it the most recently used entry.
    pub fn get(&mut self, key: &K) -> (r: Option<&V>)
        requires
            old(self).wf(),
        ensures
            final(self).wf(),
            final(self).capacity() == old(self).capacity(),
            final(self).entries() == lru_touch(old(self).entries(), key@),
            r is Some <==> has_key(old(self).entries(), key@),
            r matches Some(v) ==> Some(*v) == lru_lookup(old(self).entries(), key@),
    {
        match self.position(key) {
            Some(i) => {
                self.touch_at(i);
                let last = self.entries.len() - 1;
                assert(self.entries()[last as int] == old(self).entries()[i as int]);
                Some(&self.entries[last].1)
            },
            None => None,
        }
    }

    /// Insert `value` under `key`. An existing key is updated and becomes the
    /// most recent; a new key at capacity first evicts least-recently-used
    /// entries one at a time.
    pub fn insert(&mut self, key: K, value: V)
        requires
            old(self).wf(),
        ensures
            final(self).wf(),
            final(self).capacity() == old(self).capacity(),
            final(self).entries() == lru_insert(old(self).entries(), old(self).capacity(), key@, value),
    {
        let ghost s0 = self.entries();
        match self.position(&key) {
            Some(i) => {
                let _ = self.entries.remove(i);
                self.entries.push((key, value));
                assert(self.entries() =~= s0.remove(i as int).push((key@, value)));
                assert forall|a: int, b: int|
                    0 <= a < self.entries().len() && 0 <= b < self.entries().len() && a != b
                    implies #[trigger] self.entries()[a].0 != #[trigger] self.entries()[b].0 by {
                    let ia = if a == s0.len() - 1 { i as int } else if a < i { a } else { a + 1 };
                    let ib = if b == s0.len() - 1 { i as int } else if b < i { b } else { b + 1 };
                    assert(self.entries()[a].0 == s0[ia].0);
                    assert(self.entries()[b].0 == s0[ib].0);
                }
            },
            None => {
                let ghost n0 = s0.len();
                let ghost keep = kept_on_insert(n0, self.capacity as nat);
                let mut dropped: usize = 0;
                while self.entries.len() >= self.capacity && self.entries.len() > 0
                    invariant
                        self.capacity == old(self).capacity,
                        s0 == entries_view(old(self).entries@),
                        n0 == s0.len(),
                        keep == kept_on_insert(n0, self.capacity as nat),
                        dropped <= n0 - keep,
                        self.entries@.len() + dropped == n0,
                        n0 == old(self).entries.len(),
                        self.entries() == s0.subrange(dropped as int, n0 as int),
                    decreases self.entries.len(),
                {
                    assert(dropped < n0);
                    let ghost before = self.entries@;
                    let _ = self.entries.remove(0);
                    assert(self.entries@ == before.remove(0));
                    assert forall|j: int| 0 <= j < self.entries@.len() implies
                        #[trigger] self.entries()[j] == entries_view(before)[j + 1] by {
                    }
                    dropped = dropped + 1;
                    assert(self.entries() =~= s0.subrange(dropped as int, n0 as int));
                }
                assert(dropped == n0 - keep);
                let ghost mid = self.entries();
                self.entries.push((key, value));
                assert(self.entries() =~= mid.push((key@, value)));
                assert forall|a: int, b: int|
                    0 <= a < self.entries().len() && 0 <= b < self.entries().len() && a != b
                    implies #[trigger] self.entries()[a].0 != #[trigger] self.entries()[b].0 by {
                    if a < mid.len() {
                        assert(self.entries()[a] == s0[a + dropped]);
                    }
                    if b < mid.len() {
                        assert(self.entries()[b] == s0[b + dropped]);
                    }
                }
            },
        }
    }

    /// The value for `key`, computed by `f` and inserted if absent; the key
    /// becomes the most recently used entry either way. The returned reference
    /// is to the cached value, whose final value the cache then holds.
    pub fn get_or_insert_with<F: FnOnce() -> V>(&mut self, key: K, f: F) -> (r: &mut V)
        requires
            old(self).wf(),
            f.requires(()),
        ensures
            final(self).wf(),
            final(self).capacity() == old(self).capacity(),
            has_key(old(self).entries(), key@) ==> *r == lru_lookup(old(self).entries(), key@)->0,
            !has_key(old(self).entries(), key@) ==> f.ensures((), *r),
            final(self).entries() == ({
                let after = lru_get_or_insert(old(self).entries(), old(self).capacity(), key@, *r);
                after.update(after.len() - 1, (key@, *final(r)))
            }),
    {
        match self.position(&key) {
            Some(i) => {
                self.touch_at(i);
            },
            None => {
                let value = f();
                self.insert(key, value);
            },
        }
        let last = self.entries.len() - 1;
        let ghost mid = self.entries();
        assert(mid == lru_get_or_insert(old(self).entries(), old(self).capacity(), key@, mid[last as int].1));
        assert(mid[last as int].0 == key@);
        proof {
            lemma_value_update_keeps_keys(mid);
        }
        &mut self.entries[last].1
    }

    /// Remove all entries.
    pub fn clear(&mut self)
        ensures
            final(self).wf(),
            final(self).capacity() == old(self).capacity(),
            final(self).entries() == Seq::<(K::V, V)>::empty(),
    {
        self.entries.clear();
        assert(self.entries() =~= Seq::<(K::V, V)>::empty());
    }

    /// Number of entries currently cached.
    pub fn len(&self) -> (n: usize)
        ensures
            n == self.entries().len(),
    {
        self.entries.len()
    }
}

/// Reading a key right after writing it gives back the value written.
pub proof fn law_lookup_after_insert<KV, V>(s: Seq<(KV, V)>, capacity: nat, k: KV, v: V)
    requires
        keys_distinct(s),
    ensures
        lru_lookup(lru_insert(s, capacity, k, v), k) == Some(v),
{
    let t = lru_insert(s, capacity, k, v);
    assert(t[t.len() - 1] == (k, v));
    assert(t[t.len() - 1].0 == k);
    assert(has_key(t, k));
    lemma_insert_keeps_keys_distinct(s, capacity, k, v);
    let i = key_index(t, k);
    if i != t.len() - 1 {
        assert(t[i].0 != t[t.len() - 1].0);
    }
}

/// Inserting keeps the keys distinct.
pub proof fn lemma_insert_keeps_keys_distinct<KV, V>(s: Seq<(KV, V)>, capacity: nat, k: KV, v: V)
    requires
        keys_distinct(s),
    ensures
        keys_distinct(lru_insert(s, capacity, k, v)),
{
    let t = lru_insert(s, capacity, k, v);
    if has_key(s, k) {
        let i = key_index(s, k);
        assert forall|a: int, b: int| 0 <= a < t.len() && 0 <= b < t.len() && a != b
            implies #[trigger] t[a].0 != #[trigger] t[b].0 by {
            let ia = if a == t.len() - 1 { i } else if a < i { a } else { a + 1 };
            let ib = if b == t.len() - 1 { i } else if b < i { b } else { b + 1 };
            assert(t[a].0 == s[ia].0);
            assert(t[b].0 == s[ib].0);
        }
    } else {
        let keep = kept_on_insert(s.len(), capacity);
        let d = s.len() - keep;
        assert forall|a: int, b: int| 0 <= a < t.len() && 0 <= b < t.len() && a != b
            implies #[trigger] t[a].0 != #[trigger] t[b].0 by {
            if a < t.len() - 1 {
                assert(t[a] == s[a + d]);
            }
            if b < t.len() - 1 {
                assert(t[b] == s[b + d]);
            }
        }
    }
}

/// A cache never holds more than its capacity allows: inserting into a cache
/// within bounds leaves it within bounds.
pub proof fn law_insert_respects_capacity<KV, V>(s: Seq<(KV, V)>, capacity: nat, k: KV, v: V)
    requires
        keys_distinct(s),
        s.len() <= max_entries(capacity),
    ensures
        lru_insert(s, capacity, k, v).len() <= max_entries(capacity),
{
}

/// Inserting under one key never changes the value cached for another key:
/// the other key either keeps its value or is evicted.
pub proof fn law_insert_leaves_other_values<KV, V>(s: Seq<(KV, V)>, capacity: nat, k: KV, v: V, other: KV)
    requires
        keys_distinct(s),
        other != k,
        lru_lookup(lru_insert(s, capacity, k, v), other) is Some,
    ensures
        lru_lookup(lru_insert(s, capacity, k, v), other) == lru_lookup(s, other),
{
    let t = lru_insert(s, capacity, k, v);
    lemma_insert_keeps_keys_distinct(s, capacity, k, v);
    let j = key_index(t, other);
    assert(t[j].0 == other);
    assert(j < t.len() - 1);
    let src: int = if has_key(s, k) {
        let i = key_index(s, k);
        if j < i { j } else { j + 1 }
    } else {
        j + (s.len() - kept_on_insert(s.len(), capacity))
    };
    assert(t[j] == s[src]);
    assert(has_key(s, other));
    let i2 = key_index(s, other);
    if i2 != src {
        assert(s[i2].0 != s[src].0);
    }
}

/// A key that is not cached and is inserted into a full cache evicts exactly
/// the least recently used entry.
pub proof fn law_insert_evicts_least_recent<KV, V>(s: Seq<(KV, V)>, capacity: nat, k: KV, v: V)
    requires
        keys_distinct(s),
        capacity >= 1,
        s.len() == capacity,
        !has_key(s, k),
    ensures
        lru_insert(s, capacity, k, v) == s.drop_first().push((k, v)),
{
    assert(s.subrange(1, s.len() as int) =~= s.drop_first());
}

/// Looking a key up changes no cached value, only the recency order.
pub proof fn law_touch_keeps_values<KV, V>(s: Seq<(KV, V)>, k: KV, other: KV)
    requires
        keys_distinct(s),
    ensures
        lru_lookup(lru_touch(s, k), other) == lru_lookup(s, other),
        has_key(s, k) ==> lru_touch(s, k).last().0 == k,
{
    if has_key(s, k) {
        let i = key_index(s, k);
        let t = lru_touch(s, k);
        assert forall|a: int, b: int| 0 <= a < t.len() && 0 <= b < t.len() && a != b
            implies #[trigger] t[a].0 != #[trigger] t[b].0 by {
            let ia = if a == t.len() - 1 { i } else if a < i { a } else { a + 1 };
            let ib = if b == t.len() - 1 { i } else if b < i { b } else { b + 1 };
            assert(t[a] == s[ia]);
            assert(t[b] == s[ib]);
        }
        if has_key(s, other) {
            let j = key_index(s, other);
            let jt: int = if j == i { t.len() - 1 } else if j < i { j } else { j - 1 };
            assert(t[jt] == s[j]);
            assert(has_key(t, other));
            let j2 = key_index(t, other);
            if j2 != jt {
                assert(t[j2].0 != t[jt].0);
            }
        } else {
            if has_key(t, other) {
                let j2 = key_index(t, other);
                let js = if j2 == t.len() - 1 { i } else if j2 < i { j2 } else { j2 + 1 };
                assert(t[j2] == s[js]);
            }
        }
    }
}

/// Inserting makes the key the most recently used entry, and updating a
/// key that is already cached evicts nothing: every other key keeps its
/// value and the cache keeps its size.
pub proof fn law_insert_makes_most_recent<KV, V>(s: Seq<(KV, V)>, capacity: nat, k: KV, v: V, other: KV)
    requires
        keys_distinct(s),
    ensures
        lru_insert(s, capacity, k, v).len() > 0,
        lru_insert(s, capacity, k, v).last() == (k, v),
        has_key(s, k) ==> lru_insert(s, capacity, k, v).len() == s.len(),
        has_key(s, k) && other != k ==> lru_lookup(lru_insert(s, capacity, k, v), other) == lru_lookup(s, other),
{
    let t = lru_insert(s, capacity, k, v);
    if has_key(s, k) && other != k {
        let i = key_index(s, k);
        lemma_insert_keeps_keys_distinct(s, capacity, k, v);
        if has_key(s, other) {
            let j = key_index(s, other);
            assert(j != i);
            let jt: int = if j < i { j } else { j - 1 };
            assert(t[jt] == s[j]);
            assert(has_key(t, other));
            let j2 = key_index(t, other);
            if j2 != jt {
                assert(t[j2].0 != t[jt].0);
            }
        } else {
            if has_key(t, other) {
                let j2 = key_index(t, other);
                assert(j2 != t.len() - 1);
                let js = if j2 < i { j2 } else { j2 + 1 };
                assert(t[j2] == s[js]);
            }
        }
    }
}

/// A key just inserted is not the next one evicted: in a cache with room
/// for at least two entries, inserting another key right after it keeps
/// it, with the value it was given, also when it was already cached and
/// only updated.
pub proof fn law_reinsert_survives_next_eviction<KV, V>(
    s: Seq<(KV, V)>,
    capacity: nat,
    k: KV,
    v: V,
    k2: KV,
    v2: V,
)
    requires
        keys_distinct(s),
        capacity >= 2,
        s.len() <= capacity,
        k2 != k,
    ensures
        lru_lookup(lru_insert(lru_insert(s, capacity, k, v), capacity, k2, v2), k) == Some(v),
{
    let t = lru_insert(s, capacity, k, v);
    law_insert_makes_most_recent(s, capacity, k, v, k);
    law_insert_respects_capacity(s, capacity, k, v);
    lemma_insert_keeps_keys_distinct(s, capacity, k, v);
    let u = lru_insert(t, capacity, k2, v2);
    lemma_insert_keeps_keys_distinct(t, capacity, k2, v2);
    let p: int = if has_key(t, k2) {
        let j = key_index(t, k2);
        assert(j != t.len() - 1);
        t.len() - 2
    } else {
        let keep = kept_on_insert(t.len(), capacity);
        assert(keep >= 1);
        keep - 1
    };
    assert(u[p] == t[t.len() - 1]);
    assert(u[p].0 == k);
    assert(has_key(u, k));
    let i = key_index(u, k);
    if i != p {
        assert(u[i].0 != u[p].0);
    }
}

} // verus!
