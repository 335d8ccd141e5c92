//! The default-compacting map: a backing store that never needs to hold the
//! default value, and a single pending write that is reconciled with the
//! store before the next write or on `compact`.

use crate::store::{
    FnvBuildHasher, FnvMap, lists_entries, store_entries, store_get, store_insert, store_remove,
    store_with_hasher, unref_pairs,
};
use std::hash::Hash;
use vstd::laws_eq::obeys_concrete_eq;
use vstd::prelude::*;
use vstd::std_specs::hash::obeys_key_model;

verus! {

/// Keys hash and compare as the values they are, and values compare as the
/// values they are: what the map asks of its key and value types.
pub open spec fn well_behaved<K: PartialEq, V: PartialEq>() -> bool {
    &&& obeys_key_model::<K>()
    &&& obeys_concrete_eq::<K>()
    &&& obeys_concrete_eq::<V>()
}

/// The store `m` once the pending write `p` is reconciled with it: a write
/// of the default `d` removes its key, any other write stores its value.
pub open spec fn reconciled<K, V>(m: Map<K, V>, p: Option<(K, V)>, d: V) -> Map<K, V> {
    match p {
        None => m,
        Some((k, v)) => if v == d {
            m.remove(k)
        } else {
            m.insert(k, v)
        },
    }
}

/// The map that inserting each pair of `s` in turn into an empty map gives:
/// a later pair for a key replaces an earlier one.
pub open spec fn inserted_all<K, V>(s: Seq<(K, V)>) -> Map<K, V>
    decreases s.len(),
{
    if s.len() == 0 {
        Map::empty()
    } else {
        inserted_all(s.drop_last()).insert(s.last().0, s.last().1)
    }
}

/// A map from keys to values in which one value, the default, stands for
/// absence.
#[derive(Clone)]
pub struct SimpleMap<K, V> {
    map: FnvMap<K, V>,
    default: V,
    pending: Option<(K, V)>,
}

impl<K, V> View for SimpleMap<K, V> {
    type V = Map<K, V>;

    /// The logical contents: the backing store with the pending write applied.
    open spec fn view(&self) -> Map<K, V> {
        reconciled(self.stored(), self.pending_entry(), self.default_value())
    }
}

impl<K, V> SimpleMap<K, V> {
    /// The entries of the backing store.
    pub closed spec fn stored(&self) -> Map<K, V> {
        self.map@
    }

    /// The write not yet reconciled with the backing store, if any.
    pub closed spec fn pending_entry(&self) -> Option<(K, V)> {
        self.pending
    }

    /// The value that stands for absence.
    pub closed spec fn default_value(&self) -> V {
        self.default
    }

    /// What a read of `k` returns.
    pub open spec fn read(&self, k: K) -> V {
        if self@.contains_key(k) {
            self@[k]
        } else {
            self.default_value()
        }
    }

    /// Nothing stored and nothing pending.
    pub open spec fn is_empty_state(&self) -> bool {
        &&& self.stored().dom().is_empty()
        &&& self.pending_entry() is None
    }

    /// The backing store holds no entry whose value is the default.
    pub open spec fn store_is_clean(&self) -> bool {
        forall|k: K| #[trigger]
            self.stored().contains_key(k) ==> self.stored()[k] != self.default_value()
    }

    /// `post` is `pre` after the pending write was reconciled.
    pub open spec fn compacted(pre: Self, post: Self) -> bool {
        &&& post.stored() == pre@
        &&& post.pending_entry() is None
        &&& post.default_value() == pre.default_value()
    }

    /// `post` is `pre` after a write of `v` to `key`.
    pub open spec fn written(pre: Self, key: K, v: V, post: Self) -> bool {
        &&& post.stored() == pre@
        &&& post.pending_entry() == Some((key, v))
        &&& post.default_value() == pre.default_value()
    }

    /// `s` is what iteration yields: the store's entries in the store's
    /// order, then the pending entry.
    pub open spec fn lists(&self, s: Seq<(K, V)>) -> bool {
        match self.pending_entry() {
            None => lists_entries(s, self.stored()),
            Some(p) => {
                &&& s.len() > 0
                &&& lists_entries(s.drop_last(), self.stored())
                &&& s.last() == p
            },
        }
    }
}

/// The pair of references to the two halves of a borrowed pair.
pub fn ref_to_tuple_to_tuple_of_refs<K, V>(t: &(K, V)) -> (r: (&K, &V))
    ensures
        *r.0 == t.0,
        *r.1 == t.1,
{
    (&t.0, &t.1)
}

/// Owned clones of the two values that a pair of references points to.
pub fn tuple_of_refs_to_tuple<K: Clone, V: Clone>(t: (&K, &V)) -> (r: (K, V))
    ensures
        cloned(*t.0, r.0),
        cloned(*t.1, r.1),
{
    (t.0.clone(), t.1.clone())
}

impl<K: Eq + Hash + Clone, V: Eq + Clone + Default> SimpleMap<K, V> {
    /// An empty map whose default is `V::default()`.
    pub fn new() -> (r: Self)
        ensures
            r.is_empty_state(),
            call_ensures(V::default, (), r.default_value()),
    {
        SimpleMap { map: FnvMap::default(), default: V::default(), pending: None }
    }

    /// An empty map whose default is `V::default()`, hashing with `hash_state`.
    pub fn with_hash_state(hash_state: FnvBuildHasher) -> (r: Self)
        ensures
            r.is_empty_state(),
            call_ensures(V::default, (), r.default_value()),
    {
        SimpleMap { map: store_with_hasher(hash_state), default: V::default(), pending: None }
    }

    /// A map whose backing store holds `pairs`, inserted in order, with
    /// nothing pending and `V::default()` as default. Pairs whose value is
    /// the default are stored as they are.
    pub fn from_pairs(pairs: Vec<(K, V)>) -> (r: Self)
        requires
            well_behaved::<K, V>(),
        ensures
            r.stored() == inserted_all(pairs@),
            r.pending_entry() is None,
            call_ensures(V::default, (), r.default_value()),
    {
        let ghost all = pairs@;
        let mut rest = pairs;
        let mut reversed: Vec<(K, V)> = Vec::new();
        while rest.len() > 0
            invariant
                rest@ == all.take(rest@.len() as int),
                rest@.len() + reversed@.len() == all.len(),
                forall|i: int|
                    0 <= i < reversed@.len() ==> #[trigger] reversed@[i] == all[all.len() - 1 - i],
            decreases rest@.len(),
        {
            let last = rest.pop().unwrap();
            reversed.push(last);
            assert(rest@ =~= all.take(rest@.len() as int));
        }
        let mut map: FnvMap<K, V> = FnvMap::default();
        while reversed.len() > 0
            invariant
                reversed@.len() <= all.len(),
                forall|i: int|
                    0 <= i < reversed@.len() ==> #[trigger] reversed@[i] == all[all.len() - 1 - i],
                map@ == inserted_all(all.take(all.len() - reversed@.len())),
                well_behaved::<K, V>(),
            decreases reversed@.len(),
        {
            let ghost done = all.len() - reversed@.len();
            let (key, val) = reversed.pop().unwrap();
            assert(all.take(done + 1).drop_last() =~= all.take(done));
            store_insert(&mut map, key, val);
        }
        assert(all.take(all.len() as int) =~= all);
        SimpleMap { map, default: V::default(), pending: None }
    }
}

impl<K: Eq + Hash + Clone, V: Eq + Clone + Default> Default for SimpleMap<K, V> {
    /// The same as `new`.
    fn default() -> (r: Self)
        ensures
            r.is_empty_state(),
            call_ensures(V::default, (), r.default_value()),
    {
        Self::new()
    }
}

impl<K: Eq + Hash + Clone, V: Eq + Clone> SimpleMap<K, V> {
    /// An empty map whose default is `default`.
    pub fn new_with_default(default: V) -> (r: Self)
        ensures
            r.is_empty_state(),
            r.default_value() == default,
    {
        SimpleMap { map: FnvMap::default(), default, pending: None }
    }

    /// An empty map whose default is `default`, hashing with `hash_state`.
    pub fn with_default_with_hash_state(default: V, hash_state: FnvBuildHasher) -> (r: Self)
        ensures
            r.is_empty_state(),
            r.default_value() == default,
    {
        SimpleMap { map: store_with_hasher(hash_state), default, pending: None }
    }

    /// Reconciles the pending write with the backing store: a pending
    /// default removes its key, any other pending value is stored.
    fn apply_pending(&mut self)
        requires
            well_behaved::<K, V>(),
        ensures
            Self::compacted(*old(self), *final(self)),
            old(self).store_is_clean() ==> final(self).store_is_clean(),
    {
        proof {
            reveal(obeys_concrete_eq);
        }
        let pending = self.pending.take();
        match pending {
            Some((key, val)) => {
                if val == self.default {
                    store_remove(&mut self.map, &key);
                } else {
                    store_insert(&mut self.map, key, val);
                }
            },
            None => {},
        }
    }

    /// Reconciles the pending write, so that the backing store alone holds
    /// the map's contents.
    pub fn compact(&mut self)
        requires
            well_behaved::<K, V>(),
        ensures
            Self::compacted(*old(self), *final(self)),
            final(self)@ == old(self)@,
            old(self).store_is_clean() ==> final(self).store_is_clean(),
    {
        self.apply_pending();
    }

    /// The value of `key`: the pending value if the pending write is to
    /// `key`, else the stored value, else the default.
    pub fn get(&self, key: K) -> (r: &V)
        requires
            well_behaved::<K, V>(),
        ensures
            *r == self.read(key),
    {
        proof {
            reveal(obeys_concrete_eq);
        }
        match &self.pending {
            Some(p) => {
                if p.0 == key {
                    return &p.1;
                }
            },
            None => {},
        }
        match store_get(&self.map, &key) {
            Some(v) => v,
            None => &self.default,
        }
    }

    /// Starts a write to `key`: reconciles the previous pending write, then
    /// makes `key` the pending entry, seeded with a clone of its current
    /// value, and hands out that value to be overwritten.
    pub fn set(&mut self, key: K) -> (r: &mut V)
        requires
            well_behaved::<K, V>(),
        ensures
            cloned(old(self).read(key), *r),
            Self::written(*old(self), key, *final(r), *final(self)),
            old(self).store_is_clean() ==> final(self).store_is_clean(),
    {
        self.apply_pending();
        let seed = match store_get(&self.map, &key) {
            Some(v) => v.clone(),
            None => self.default.clone(),
        };
        self.pending = Some((key, seed));
        let entry = self.pending.as_mut().unwrap();
        &mut entry.1
    }

    /// The entries of the backing store in its own order, then the pending
    /// entry if there is one. Unless the map was just compacted this may
    /// list a key twice, or list the default value.
    pub fn iter(&self) -> (r: Vec<(&K, &V)>)
        requires
            well_behaved::<K, V>(),
        ensures
            self.lists(unref_pairs(r@)),
    {
        let mut r = store_entries(&self.map);
        let ghost stored_part = r@;
        match &self.pending {
            Some(p) => {
                r.push(ref_to_tuple_to_tuple_of_refs(p));
                assert(unref_pairs(r@).drop_last() =~= unref_pairs(stored_part));
            },
            None => {},
        }
        r
    }

    /// Owned clones of what `iter` lists, in the same order.
    pub fn iter_cloned(&self) -> (r: Vec<(K, V)>)
        requires
            well_behaved::<K, V>(),
        ensures
            exists|s: Seq<(K, V)>|
                {
                    &&& self.lists(s)
                    &&& s.len() == r@.len()
                    &&& forall|i: int|
                        0 <= i < s.len() ==> cloned(s[i].0, #[trigger] r@[i].0) && cloned(
                            s[i].1,
                            r@[i].1,
                        )
                },
    {
        let refs = self.iter();
        let mut r: Vec<(K, V)> = Vec::new();
        let mut i: usize = 0;
        while i < refs.len()
            invariant
                i <= refs@.len(),
                r@.len() == i,
                forall|j: int|
                    0 <= j < i ==> cloned(*refs@[j].0, #[trigger] r@[j].0) && cloned(
                        *refs@[j].1,
                        r@[j].1,
                    ),
            decreases refs@.len() - i,
        {
            r.push(tuple_of_refs_to_tuple(refs[i]));
            i = i + 1;
        }
        assert(unref_pairs(refs@).len() == r@.len());
        r
    }
}

} // verus!
