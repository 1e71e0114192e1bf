use crate::font::pinned_data::PinnedData;
use std::collections::HashMap;
use vstd::prelude::*;

verus! {

broadcast use vstd::std_specs::hash::group_hash_axioms;

/// A write-once cache: each key is stored once, with a value that stays at its place.
pub struct PinnedCache<V> {
    data: PinnedData<V>,
    lookup: HashMap<u64, (usize, usize)>,
}

/// A snapshot of a cache's keys, for lookups that see no later additions.
pub struct CacheEditor {
    lookup: HashMap<u64, (usize, usize)>,
}

/// What `add` leaves and returns: a present key keeps its value and place; an absent one
/// gets the new value, at a new place.
pub open spec fn add_post<V>(c0: &PinnedCache<V>, key: u64, v: V, c1: &PinnedCache<V>, r: (usize, usize)) -> bool {
    &&& c1.wf()
    &&& c1.handles().contains_key(key)
    &&& r == c1.handles()[key]
    &&& (c0.handles().contains_key(key) ==> c1.handles() == c0.handles() && c1.entries() == c0.entries())
    &&& (!c0.handles().contains_key(key) ==> c1.entries() == c0.entries().insert(key, v)
        && c1.handles().remove(key) == c0.handles())
}

impl<V> PinnedCache<V> {
    /// Where each key's value is stored.
    pub closed spec fn handles(&self) -> Map<u64, (usize, usize)> {
        self.lookup@
    }

    /// The value of each key.
    pub closed spec fn entries(&self) -> Map<u64, V> {
        Map::new(|k: u64| self.lookup@.contains_key(k), |k: u64| self.data.value(self.lookup@[k]))
    }

    pub closed spec fn wf(&self) -> bool {
        &&& self.data.wf()
        &&& forall|k: u64| #[trigger] self.lookup@.contains_key(k) ==> self.data.valid(self.lookup@[k])
    }

    /// A key has a value exactly when it has a place.
    pub proof fn lemma_entries_domain(&self)
        ensures
            forall|k: u64| #[trigger] self.entries().contains_key(k) == self.handles().contains_key(k),
    {
    }

    /// An empty cache that stores its values in pages of `page_size`.
    pub fn for_page_size(page_size: usize) -> (r: Self)
        requires
            page_size > 0,
        ensures
            r.wf(),
            r.handles() == Map::<u64, (usize, usize)>::empty(),
            r.entries() == Map::<u64, V>::empty(),
    {
        let r = Self { data: PinnedData::for_page_size(page_size), lookup: HashMap::new() };
        assert(r.entries() =~= Map::<u64, V>::empty());
        r
    }

    /// A snapshot of the keys stored now.
    pub fn editor(&self) -> (r: CacheEditor)
        ensures
            r.handles() == self.handles(),
    {
        CacheEditor { lookup: self.lookup.clone() }
    }

    /// The place of `key`'s value, if it is stored.
    pub fn handle(&self, key: u64) -> (r: Option<(usize, usize)>)
        requires
            self.wf(),
        ensures
            r is Some <==> self.handles().contains_key(key),
            r is Some ==> r->0 == self.handles()[key],
    {
        match self.lookup.get(&key) {
            Some(h) => Some(*h),
            None => None,
        }
    }

    /// The value of `key`, if it is stored. Never adds anything.
    pub fn get(&self, key: u64) -> (r: Option<&V>)
        requires
            self.wf(),
        ensures
            r is Some <==> self.entries().contains_key(key),
            r is Some ==> *r->0 == self.entries()[key],
    {
        match self.lookup.get(&key) {
            Some(h) => Some(self.data.get(*h)),
            None => None,
        }
    }

    /// The value stored at `h`, if any.
    pub closed spec fn value_at_spec(&self, h: (usize, usize)) -> Option<V> {
        if self.data.valid(h) {
            Some(self.data.value(h))
        } else {
            None
        }
    }

    /// The value stored at `h`, if any.
    pub fn value_at(&self, h: (usize, usize)) -> (r: Option<&V>)
        requires
            self.wf(),
        ensures
            r is Some <==> self.value_at_spec(h) is Some,
            r is Some ==> *r->0 == self.value_at_spec(h)->0,
            forall|k: u64| #[trigger] self.handles().contains_key(k) && self.handles()[k] == h ==> r is Some && *r->0 == self.entries()[k],
    {
        self.data.try_get(h)
    }

    /// Stores `value` under `key` unless the key is stored already, and returns where the
    /// key's value is.
    pub fn add(&mut self, key: u64, value: V) -> (r: (usize, usize))
        requires
            old(self).wf(),
        ensures
            add_post(old(self), key, value, final(self), r),
    {
        match self.lookup.get(&key) {
            Some(h) => *h,
            None => {
                let h = self.data.add(value);
                self.lookup.insert(key, h);
                proof {
                    assert forall|k: u64| #[trigger] self.lookup@.contains_key(k) implies self.data.valid(self.lookup@[k]) by {
                        if k != key {
                            assert(old(self).lookup@.contains_key(k));
                        }
                    }
                    assert forall|k: u64| #[trigger] self.entries().contains_key(k) implies self.entries()[k] == old(self).entries().insert(key, value)[k] by {
                        if k != key {
                            assert(old(self).lookup@.contains_key(k));
                            assert(old(self).data.valid(old(self).lookup@[k]));
                        }
                    }
                    assert(self.entries() =~= old(self).entries().insert(key, value));
                    assert(self.handles().remove(key) =~= old(self).handles());
                }
                h
            },
        }
    }

    /// Stores each value under its key, but for keys that are stored already.
    pub fn add_missing_entries(&mut self, values: Vec<(u64, V)>)
        requires
            old(self).wf(),
        ensures
            final(self).wf(),
            forall|i: int| 0 <= i < values@.len() ==> #[trigger] final(self).entries().contains_key(values@[i].0),
    {
        let mut values = values;
        let ghost all = values@;
        let ghost c0 = *self;
        while values.len() > 0
            invariant
                self.wf(),
                c0 == *old(self),
                forall|k: u64| c0.entries().contains_key(k) ==> #[trigger] self.entries().contains_key(k)
                    && self.entries()[k] == c0.entries()[k] && self.handles()[k] == c0.handles()[k],
                values@.len() <= all.len(),
                forall|i: int| 0 <= i < values@.len() ==> #[trigger] values@[i].0 == all[i].0,
                forall|i: int| values@.len() <= i < all.len() ==> #[trigger] self.entries().contains_key(all[i].0),
            decreases values.len(),
        {
            let (k, v) = values.pop().unwrap();
            let ghost before = *self;
            self.add(k, v);
            proof {
                assert forall|k2: u64| c0.entries().contains_key(k2) implies #[trigger] self.entries().contains_key(k2)
                    && self.entries()[k2] == c0.entries()[k2] && self.handles()[k2] == c0.handles()[k2] by {
                    assert(before.entries().contains_key(k2));
                    if k2 != k {
                        assert(before.handles().contains_key(k2));
                        if !before.handles().contains_key(k) {
                            assert(self.handles().remove(k).contains_key(k2));
                        }
                    }
                }
                assert forall|i: int| values@.len() <= i < all.len() implies #[trigger] self.entries().contains_key(all[i].0) by {
                    if i > values@.len() {
                        assert(before.entries().contains_key(all[i].0));
                    }
                }
            }
        }
    }
}

impl CacheEditor {
    pub closed spec fn handles(&self) -> Map<u64, (usize, usize)> {
        self.lookup@
    }

    /// The place of `key`'s value, if the snapshot holds it.
    pub fn get(&self, key: u64) -> (r: Option<(usize, usize)>)
        ensures
            r is Some <==> self.handles().contains_key(key),
            r is Some ==> r->0 == self.handles()[key],
    {
        match self.lookup.get(&key) {
            Some(h) => Some(*h),
            None => None,
        }
    }

    /// Takes a new snapshot of `cache`'s keys.
    pub fn refresh<V>(&mut self, cache: &PinnedCache<V>)
        ensures
            final(self).handles() == cache.handles(),
    {
        self.lookup = cache.lookup.clone();
    }
}

} // verus!

verus! {

/// Asking twice to store a key gives the same place both times, and the first value
/// stays: the second value is never stored.
pub proof fn lemma_add_is_write_once<V>(
    c0: &PinnedCache<V>,
    c1: &PinnedCache<V>,
    c2: &PinnedCache<V>,
    key: u64,
    v1: V,
    v2: V,
    r1: (usize, usize),
    r2: (usize, usize),
)
    requires
        c0.wf(),
        add_post(c0, key, v1, c1, r1),
        add_post(c1, key, v2, c2, r2),
    ensures
        r1 == r2,
        c2.entries() == c1.entries(),
        c2.entries()[key] == if c0.entries().contains_key(key) {
            c0.entries()[key]
        } else {
            v1
        },
{
}

} // verus!
