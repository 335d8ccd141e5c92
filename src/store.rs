//! The backing store: std's `HashMap` hashed with fnv's FNV-1a hasher.
//!
//! vstd specifies `HashMap` only for hash builders it knows to build
//! deterministic hashers, which does not include fnv's. The few operations
//! the map needs are wrapped here, each with the map-level contract that the
//! std implementation gives once hashing is deterministic: every `FnvHasher`
//! built by `BuildHasherDefault` starts from the same offset basis, and
//! `write` and `finish` depend on the bytes written alone.

use std::collections::HashMap;
use vstd::prelude::*;
use vstd::std_specs::hash::obeys_key_model;

verus! {

pub type FnvBuildHasher = fnv::FnvBuildHasher;

/// The store's type: `fnv::FnvHashMap`.
pub type FnvMap<K, V> = HashMap<K, V, FnvBuildHasher>;

/// fnv's 64-bit FNV-1a hasher, carried opaquely.
#[verifier::external_type_specification]
#[verifier::external_body]
pub struct ExFnvHasher(fnv::FnvHasher);

/// std's hash builder that makes each hasher with `Default`, carried opaquely.
#[verifier::external_type_specification]
#[verifier::external_body]
#[verifier::reject_recursive_types(H)]
pub struct ExBuildHasherDefault<H>(std::hash::BuildHasherDefault<H>);

/// `s` lists the entries of `m`: each once, in some order.
pub open spec fn lists_entries<K, V>(s: Seq<(K, V)>, m: Map<K, V>) -> bool {
    &&& s.len() == m.len()
    &&& forall|i: int| 0 <= i < s.len() ==> m.contains_key(#[trigger] s[i].0) && m[s[i].0] == s[i].1
    &&& forall|i: int, j: int| 0 <= i < j < s.len() ==> #[trigger] s[i].0 != #[trigger] s[j].0
    &&& forall|k: K| #[trigger] m.contains_key(k) ==> exists|i: int| 0 <= i < s.len() && s[i].0 == k
}

/// The pairs of values that a sequence of pairs of references points to.
pub open spec fn unref_pairs<K, V>(s: Seq<(&K, &V)>) -> Seq<(K, V)> {
    s.map_values(|p: (&K, &V)| (*p.0, *p.1))
}

/// Relies on `HashMap::with_hasher`: the map it returns is empty.
#[verifier::external_body]
pub(crate) fn store_with_hasher<K, V>(hash_state: FnvBuildHasher) -> (r: FnvMap<K, V>)
    ensures
        r@.dom().is_empty(),
{
    HashMap::with_hasher(hash_state)
}

/// Relies on `HashMap::get` with fnv's deterministic hasher: the value
/// stored under `k`, if there is one.
#[verifier::external_body]
pub(crate) fn store_get<'a, K: Eq + std::hash::Hash, V>(m: &'a FnvMap<K, V>, k: &K) -> (r: Option<
    &'a V,
>)
    requires
        obeys_key_model::<K>(),
    ensures
        match r {
            Some(v) => m@.contains_key(*k) && *v == m@[*k],
            None => !m@.contains_key(*k),
        },
{
    m.get(k)
}

/// Relies on `HashMap::insert` with fnv's deterministic hasher: `k` maps to
/// `v` afterwards and every other key is unchanged.
#[verifier::external_body]
pub(crate) fn store_insert<K: Eq + std::hash::Hash, V>(m: &mut FnvMap<K, V>, k: K, v: V)
    requires
        obeys_key_model::<K>(),
    ensures
        final(m)@ == old(m)@.insert(k, v),
{
    m.insert(k, v);
}

/// Relies on `HashMap::remove` with fnv's deterministic hasher: `k` is gone
/// afterwards and every other key is unchanged.
#[verifier::external_body]
pub(crate) fn store_remove<K: Eq + std::hash::Hash, V>(m: &mut FnvMap<K, V>, k: &K)
    requires
        obeys_key_model::<K>(),
    ensures
        final(m)@ == old(m)@.remove(*k),
{
    m.remove(k);
}

/// Relies on `HashMap::iter` with fnv's deterministic hasher: every entry
/// of the map exactly once, in the map's own order.
#[verifier::external_body]
pub(crate) fn store_entries<'a, K: Eq + std::hash::Hash, V>(m: &'a FnvMap<K, V>) -> (r: Vec<
    (&'a K, &'a V),
>)
    requires
        obeys_key_model::<K>(),
    ensures
        lists_entries(unref_pairs(r@), m@),
{
    m.iter().collect()
}

} // verus!
