//! A table of entries keyed by value, each stamped with the time it was last
//! written, from which entries older than a time to live can be swept.
//!
//! The content store and the peer table are both such tables.
use vstd::prelude::*;

verus! {

/// A key of a table, compared by its view.
pub trait TableKey: View + Copy + Sized {
    /// Whether two keys are the same.
    fn same(&self, other: &Self) -> (r: bool)
        ensures
            r == (self@ == other@),
    ;
}

impl TableKey for crate::messages::Hash {
    fn same(&self, other: &Self) -> (r: bool) {
        crate::messages::Hash::same(self, other)
    }
}

impl TableKey for crate::messages::PeerAddr {
    fn same(&self, other: &Self) -> (r: bool) {
        crate::messages::PeerAddr::same(self, other)
    }
}

/// What a table holds under a key: a value and when it was last written.
pub struct Stamped<T> {
    pub value: T,
    pub stamp: u64,
}

/// Whether an entry stamped at `stamp` has outlived `ttl` at time `now`: its
/// age exceeds the time to live.
pub open spec fn is_stale(stamp: u64, now: u64, ttl: u64) -> bool {
    now as int - stamp as int > ttl as int
}

/// The stamp of `k` after a write at `now`: an entry's stamp never moves
/// backward.
pub open spec fn restamp<K, T>(m: Map<K, Stamped<T>>, k: K, now: u64) -> u64 {
    if m.contains_key(k) && m[k].stamp > now {
        m[k].stamp
    } else {
        now
    }
}

/// What is left of `m` after a sweep at `now`.
pub open spec fn swept<K, T>(m: Map<K, Stamped<T>>, now: u64, ttl: u64) -> Map<K, Stamped<T>> {
    Map::new(|k: K| m.contains_key(k) && !is_stale(m[k].stamp, now, ttl), |k: K| m[k])
}

/// The views of a sequence of keys.
pub open spec fn key_views<K: View>(s: Seq<K>) -> Seq<K::V> {
    s.map_values(|k: K| k@)
}

/// Whether an entry stamped at `stamp` has outlived `ttl` at time `now`.
pub fn stale(stamp: u64, now: u64, ttl: u64) -> (r: bool)
    ensures
        r == is_stale(stamp, now, ttl),
{
    now > stamp && now - stamp > ttl
}

struct Entry<K, V> {
    key: K,
    stamp: u64,
    value: V,
}

/// A table of entries with distinct keys.
pub struct Table<K, V> {
    entries: Vec<Entry<K, V>>,
    ttl: u64,
}

impl<K: TableKey, V: View> View for Table<K, V> {
    type V = Map<K::V, Stamped<V::V>>;

    closed spec fn view(&self) -> Map<K::V, Stamped<V::V>> {
        Map::new(
            |k: K::V| exists|i: int| 0 <= i < self.entries@.len() && #[trigger] self.entries@[i].key@ == k,
            |k: K::V|
                {
                    let i = choose|i: int| 0 <= i < self.entries@.len() && #[trigger] self.entries@[i].key@ == k;
                    Stamped { value: self.entries@[i].value@, stamp: self.entries@[i].stamp }
                },
        )
    }
}

impl<K: TableKey, V: View> Table<K, V> {
    closed spec fn keys_seq(&self) -> Seq<K::V> {
        self.entries@.map_values(|e: Entry<K, V>| e.key@)
    }

    /// The table's invariant: no key appears twice.
    pub closed spec fn wf(&self) -> bool {
        forall|i: int, j: int|
            0 <= i < self.entries@.len() && 0 <= j < self.entries@.len() && #[trigger] self.entries@[i].key@
                == #[trigger] self.entries@[j].key@ ==> i == j
    }

    /// The time to live of the table's entries.
    pub closed spec fn ttl(&self) -> u64 {
        self.ttl
    }

    proof fn lemma_entry(&self, i: int)
        requires
            self.wf(),
            0 <= i < self.entries@.len(),
        ensures
            self@.contains_key(self.entries@[i].key@),
            self@[self.entries@[i].key@] == (Stamped {
                value: self.entries@[i].value@,
                stamp: self.entries@[i].stamp,
            }),
    {
        let k = self.entries@[i].key@;
        assert(self@.dom().contains(k));
        let j = choose|j: int| 0 <= j < self.entries@.len() && #[trigger] self.entries@[j].key@ == k;
        assert(j == i);
    }

    /// An empty table whose entries live `ttl` milliseconds.
    pub fn new(ttl: u64) -> (r: Self)
        ensures
            r.wf(),
            r@ == Map::<K::V, Stamped<V::V>>::empty(),
            r.ttl() == ttl,
    {
        let r = Table { entries: Vec::new(), ttl };
        assert(r@ =~= Map::<K::V, Stamped<V::V>>::empty());
        r
    }

    /// The time to live of the table's entries.
    pub fn time_to_live(&self) -> (r: u64)
        ensures
            r == self.ttl(),
    {
        self.ttl
    }

    /// Where `key` stands in the entries.
    fn index_of(&self, key: &K) -> (r: Option<usize>)
        requires
            self.wf(),
        ensures
            match r {
                Some(i) => i < self.entries@.len() && self.entries@[i as int].key@ == key@,
                None => !self@.contains_key(key@),
            },
    {
        let mut i: usize = 0;
        while i < self.entries.len()
            invariant
                i <= self.entries@.len(),
                forall|j: int| 0 <= j < i ==> #[trigger] self.entries@[j].key@ != key@,
            decreases self.entries@.len() - i,
        {
            if self.entries[i].key.same(key) {
                return Some(i);
            }
            i = i + 1;
        }
        None
    }

    /// Whether the table holds `key`.
    pub fn contains(&self, key: &K) -> (r: bool)
        requires
            self.wf(),
        ensures
            r == self@.contains_key(key@),
    {
        match self.index_of(key) {
            Some(i) => {
                proof {
                    self.lemma_entry(i as int);
                }
                true
            },
            None => false,
        }
    }

    /// The value held under `key`.
    pub fn get(&self, key: &K) -> (r: Option<&V>)
        requires
            self.wf(),
        ensures
            r is Some == self@.contains_key(key@),
            r is Some ==> r->0@ == self@[key@].value,
    {
        match self.index_of(key) {
            Some(i) => {
                proof {
                    self.lemma_entry(i as int);
                }
                Some(&self.entries[i].value)
            },
            None => None,
        }
    }

    /// Write `value` under `key` at time `now`, in place of what was there;
    /// true if the key was not there before.
    pub fn write(&mut self, key: K, value: V, now: u64) -> (is_new: bool)
        requires
            old(self).wf(),
        ensures
            final(self).wf(),
            final(self).ttl() == old(self).ttl(),
            is_new == !old(self)@.contains_key(key@),
            final(self)@ == old(self)@.insert(
                key@,
                Stamped { value: value@, stamp: restamp(old(self)@, key@, now) },
            ),
    {
        let ghost old_map = self@;
        let ghost new_map = old_map.insert(
            key@,
            Stamped { value: value@, stamp: restamp(old_map, key@, now) },
        );
        match self.index_of(&key) {
            Some(i) => {
                proof {
                    self.lemma_entry(i as int);
                }
                let prev = self.entries[i].stamp;
                let stamp = if prev > now { prev } else { now };
                let ghost old_entries = self.entries@;
                self.entries.set(i, Entry { key, stamp, value });
                assert forall|a: int, b: int|
                    0 <= a < self.entries@.len() && 0 <= b < self.entries@.len()
                        && #[trigger] self.entries@[a].key@ == #[trigger] self.entries@[b].key@ implies a == b by {
                    assert(old_entries[a].key@ == self.entries@[a].key@);
                    assert(old_entries[b].key@ == self.entries@[b].key@);
                }
                assert forall|k: K::V| #[trigger] self@.contains_key(k) == new_map.contains_key(k) by {
                    if k == key@ {
                        assert(self.entries@[i as int].key@ == k);
                    }
                    if new_map.contains_key(k) && k != key@ {
                        let j = choose|j: int| 0 <= j < old_entries.len() && #[trigger] old_entries[j].key@ == k;
                        assert(self.entries@[j].key@ == k);
                    }
                    if self@.contains_key(k) && k != key@ {
                        let j = choose|j: int| 0 <= j < self.entries@.len() && #[trigger] self.entries@[j].key@ == k;
                        assert(old_entries[j].key@ == k);
                    }
                }
                assert forall|k: K::V| #[trigger] self@.contains_key(k) implies self@[k] == new_map[k] by {
                    let j = choose|j: int| 0 <= j < self.entries@.len() && #[trigger] self.entries@[j].key@ == k;
                    self.lemma_entry(j);
                    if k != key@ {
                        assert(old_entries[j].key@ == k);
                        assert(j != i);
                        assert(old_entries[j] == self.entries@[j]);
                    }
                }
                assert(self@ =~= new_map);
                false
            },
            None => {
                let ghost old_entries = self.entries@;
                self.entries.push(Entry { key, stamp: now, value });
                let ghost n: int = self.entries@.len() - 1;
                assert forall|a: int, b: int|
                    0 <= a < self.entries@.len() && 0 <= b < self.entries@.len()
                        && #[trigger] self.entries@[a].key@ == #[trigger] self.entries@[b].key@ implies a == b by {
                    if a < n && b == n {
                        assert(old_map.contains_key(old_entries[a].key@));
                    }
                    if b < n && a == n {
                        assert(old_map.contains_key(old_entries[b].key@));
                    }
                }
                assert forall|k: K::V| #[trigger] self@.contains_key(k) == new_map.contains_key(k) by {
                    if k == key@ {
                        assert(self.entries@[n].key@ == k);
                    }
                    if new_map.contains_key(k) && k != key@ {
                        let j = choose|j: int| 0 <= j < old_entries.len() && #[trigger] old_entries[j].key@ == k;
                        assert(self.entries@[j].key@ == k);
                    }
                    if self@.contains_key(k) && k != key@ {
                        let j = choose|j: int| 0 <= j < self.entries@.len() && #[trigger] self.entries@[j].key@ == k;
                        assert(j != n);
                        assert(old_entries[j].key@ == k);
                    }
                }
                assert forall|k: K::V| #[trigger] self@.contains_key(k) implies self@[k] == new_map[k] by {
                    let j = choose|j: int| 0 <= j < self.entries@.len() && #[trigger] self.entries@[j].key@ == k;
                    self.lemma_entry(j);
                    if k != key@ {
                        assert(j != n);
                        assert(old_entries[j] == self.entries@[j]);
                    }
                }
                assert(self@ =~= new_map);
                true
            },
        }
    }

    /// The number of entries.
    pub fn len(&self) -> (n: usize)
        requires
            self.wf(),
        ensures
            n == self@.len(),
    {
        proof {
            let ks = self.keys_seq();
            assert(ks.no_duplicates());
            assert(self@.dom() =~= ks.to_set()) by {
                assert forall|k: K::V| #[trigger] self@.dom().contains(k) implies ks.to_set().contains(k) by {
                    let i = choose|i: int| 0 <= i < self.entries@.len() && #[trigger] self.entries@[i].key@ == k;
                    assert(ks[i] == k);
                }
                assert forall|k: K::V| #[trigger] ks.to_set().contains(k) implies self@.dom().contains(k) by {
                    let i = choose|i: int| 0 <= i < ks.len() && ks[i] == k;
                    assert(self.entries@[i].key@ == k);
                }
            }
            ks.unique_seq_to_set();
        }
        self.entries.len()
    }

    /// The keys of the table, each once, in no particular order.
    pub fn keys(&self) -> (r: Vec<K>)
        requires
            self.wf(),
        ensures
            key_views(r@).no_duplicates(),
            forall|i: int| 0 <= i < r@.len() ==> self@.contains_key(#[trigger] r@[i]@),
            forall|k: K::V| self@.contains_key(k) ==> key_views(r@).contains(k),
    {
        let mut r: Vec<K> = Vec::new();
        let mut i: usize = 0;
        while i < self.entries.len()
            invariant
                self.wf(),
                i <= self.entries@.len(),
                r@.len() == i,
                forall|j: int| 0 <= j < i ==> (#[trigger] r@[j])@ == self.entries@[j].key@,
            decreases self.entries@.len() - i,
        {
            r.push(self.entries[i].key);
            i = i + 1;
        }
        proof {
            assert forall|a: int, b: int|
                0 <= a < r@.len() && 0 <= b < r@.len() && a != b implies key_views(r@)[a] != key_views(r@)[b] by {
                assert(r@[a]@ == self.entries@[a].key@);
                assert(r@[b]@ == self.entries@[b].key@);
            }
            assert forall|j: int| 0 <= j < r@.len() implies self@.contains_key(#[trigger] r@[j]@) by {
                self.lemma_entry(j);
            }
            assert forall|k: K::V| self@.contains_key(k) implies key_views(r@).contains(k) by {
                let j = choose|j: int| 0 <= j < self.entries@.len() && #[trigger] self.entries@[j].key@ == k;
                assert(key_views(r@)[j] == k);
            }
        }
        r
    }

    /// Drop every entry that is stale at time `now`.
    pub fn sweep(&mut self, now: u64)
        requires
            old(self).wf(),
        ensures
            final(self).wf(),
            final(self).ttl() == old(self).ttl(),
            final(self)@ == swept(old(self)@, now, old(self).ttl()),
    {
        let ghost old_self = *self;
        let ghost orig = self.entries@;
        let ttl = self.ttl;
        let mut rest: Vec<Entry<K, V>> = Vec::new();
        std::mem::swap(&mut self.entries, &mut rest);
        let mut kept: Vec<Entry<K, V>> = Vec::new();
        let ghost mut src: Seq<int> = Seq::empty();
        while rest.len() > 0
            invariant
                old_self.wf(),
                orig == old_self.entries@,
                ttl == old_self.ttl,
                rest@.len() <= orig.len(),
                rest@ == orig.subrange(0, rest@.len() as int),
                src.len() == kept@.len(),
                forall|j: int|
                    0 <= j < src.len() ==> rest@.len() <= #[trigger] src[j] < orig.len() && kept@[j]
                        == orig[src[j]] && !is_stale(orig[src[j]].stamp, now, ttl),
                forall|a: int, b: int| 0 <= a < src.len() && 0 <= b < src.len() && a != b ==> src[a] != src[b],
                forall|i: int|
                    rest@.len() <= i < orig.len() && !is_stale(#[trigger] orig[i].stamp, now, ttl) ==> exists|j: int|
                        0 <= j < src.len() && src[j] == i,
            decreases rest@.len(),
        {
            let ghost n: int = rest@.len() - 1;
            let e = rest.pop().unwrap();
            assert(e == orig[n]);
            if !stale(e.stamp, now, ttl) {
                kept.push(e);
                proof {
                    let ghost old_src = src;
                    src = src.push(n);
                    assert forall|i: int|
                        rest@.len() <= i < orig.len() && !is_stale(#[trigger] orig[i].stamp, now, ttl) implies exists|j: int|
                            0 <= j < src.len() && src[j] == i by {
                        if i == n {
                            assert(src[src.len() - 1] == i);
                        } else {
                            let j = choose|j: int| 0 <= j < old_src.len() && old_src[j] == i;
                            assert(src[j] == i);
                        }
                    }
                }
            } else {
                proof {
                    assert forall|i: int|
                        rest@.len() <= i < orig.len() && !is_stale(#[trigger] orig[i].stamp, now, ttl) implies exists|j: int|
                            0 <= j < src.len() && src[j] == i by {
                        assert(i != n);
                    }
                }
            }
        }
        self.entries = kept;
        proof {
            let new_map = swept(old_self@, now, ttl);
            assert forall|a: int, b: int|
                0 <= a < self.entries@.len() && 0 <= b < self.entries@.len() && #[trigger] self.entries@[a].key@
                    == #[trigger] self.entries@[b].key@ implies a == b by {
                assert(orig[src[a]].key@ == orig[src[b]].key@);
            }
            assert forall|k: K::V| #[trigger] self@.contains_key(k) == new_map.contains_key(k) by {
                if self@.contains_key(k) {
                    let j = choose|j: int| 0 <= j < self.entries@.len() && #[trigger] self.entries@[j].key@ == k;
                    old_self.lemma_entry(src[j]);
                }
                if new_map.contains_key(k) {
                    let i = choose|i: int| 0 <= i < orig.len() && #[trigger] orig[i].key@ == k;
                    old_self.lemma_entry(i);
                    let j = choose|j: int| 0 <= j < src.len() && src[j] == i;
                    assert(self.entries@[j].key@ == k);
                }
            }
            assert forall|k: K::V| #[trigger] self@.contains_key(k) implies self@[k] == new_map[k] by {
                let j = choose|j: int| 0 <= j < self.entries@.len() && #[trigger] self.entries@[j].key@ == k;
                self.lemma_entry(j);
                old_self.lemma_entry(src[j]);
            }
            assert(self@ =~= new_map);
        }
    }
}

} // verus!
