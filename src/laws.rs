//! What holds of every run of writes, reads and compactions on a map.

use crate::map::{SimpleMap, reconciled};
use vstd::prelude::*;

verus! {

/// The entries of `m` whose value is not `d`.
pub open spec fn live<K, V>(m: Map<K, V>, d: V) -> Map<K, V> {
    Map::new(|k: K| m.contains_key(k) && m[k] != d, |k: K| m[k])
}

/// The plain map that receives the writes among `ops` in turn: `Some((k, v))`
/// writes `v` to `k`, and `None`, a compaction, changes nothing.
pub open spec fn reference_map<K, V>(ops: Seq<Option<(K, V)>>) -> Map<K, V>
    decreases ops.len(),
{
    if ops.len() == 0 {
        Map::empty()
    } else {
        match ops.last() {
            Some((k, v)) => reference_map(ops.drop_last()).insert(k, v),
            None => reference_map(ops.drop_last()),
        }
    }
}

/// A read of `k` from the plain map that received the writes among `ops`,
/// answering `d` for a key it does not hold.
pub open spec fn reference_read<K, V>(ops: Seq<Option<(K, V)>>, d: V, k: K) -> V {
    let m = reference_map(ops);
    if m.contains_key(k) {
        m[k]
    } else {
        d
    }
}

/// `states` are the states of a map that starts empty and goes through
/// `ops` in turn: `states[i + 1]` is `states[i]` after the write `ops[i]`,
/// or after a compaction where `ops[i]` is `None`.
pub open spec fn run<K, V>(states: Seq<SimpleMap<K, V>>, ops: Seq<Option<(K, V)>>) -> bool {
    &&& states.len() == ops.len() + 1
    &&& states[0].is_empty_state()
    &&& forall|i: int|
        #![trigger ops[i]]
        0 <= i < ops.len() ==> match ops[i] {
            Some((k, v)) => SimpleMap::written(states[i], k, v, states[i + 1]),
            None => SimpleMap::compacted(states[i], states[i + 1]),
        }
}

proof fn lemma_run_view<K, V>(states: Seq<SimpleMap<K, V>>, ops: Seq<Option<(K, V)>>, i: int)
    requires
        run(states, ops),
        0 <= i < states.len(),
    ensures
        states[i]@ == live(reference_map(ops.take(i)), states[0].default_value()),
        states[i].default_value() == states[0].default_value(),
    decreases i,
{
    let d = states[0].default_value();
    if i == 0 {
        assert(states[0].stored() =~= Map::empty());
        assert(live(reference_map(ops.take(0)), d) =~= Map::empty());
        assert(states[0]@ =~= Map::empty());
    } else {
        lemma_run_view(states, ops, i - 1);
        let before = reference_map(ops.take(i - 1));
        assert(ops.take(i).drop_last() =~= ops.take(i - 1));
        assert(ops.take(i).last() == ops[i - 1]);
        match ops[i - 1] {
            Some(w) => {
                assert(reference_map(ops.take(i)) == before.insert(w.0, w.1));
                assert(states[i]@ == reconciled(states[i - 1]@, Some(w), d));
                assert(states[i]@ =~= live(before.insert(w.0, w.1), d));
            },
            None => {
                assert(reference_map(ops.take(i)) == before);
                assert(states[i]@ == states[i - 1]@);
            },
        }
    }
}

proof fn lemma_reference_absent<K, V>(ops: Seq<Option<(K, V)>>, k: K)
    requires
        forall|i: int|
            0 <= i < ops.len() && (#[trigger] ops[i]) is Some ==> ops[i].unwrap().0 != k,
    ensures
        !reference_map(ops).contains_key(k),
    decreases ops.len(),
{
    if ops.len() > 0 {
        assert(ops.last() == ops[ops.len() - 1]);
        lemma_reference_absent(ops.drop_last(), k);
    }
}

/// After a write of `v` to `k`, a read of `k` gives `v`, and a read of any
/// other key gives what it gave before.
pub proof fn lemma_write_then_read<K, V>(
    pre: SimpleMap<K, V>,
    k: K,
    v: V,
    post: SimpleMap<K, V>,
    other: K,
)
    requires
        SimpleMap::written(pre, k, v, post),
    ensures
        post.read(k) == v,
        other != k ==> post.read(other) == pre.read(other),
{
}

/// After a write of the default to `k`, a read of `k` gives the default,
/// and once the map is compacted its backing store has no entry for `k`.
pub proof fn lemma_reset_to_default<K, V>(
    pre: SimpleMap<K, V>,
    k: K,
    post: SimpleMap<K, V>,
    after: SimpleMap<K, V>,
)
    requires
        SimpleMap::written(pre, k, pre.default_value(), post),
        SimpleMap::compacted(post, after),
    ensures
        post.read(k) == post.default_value(),
        !after.stored().contains_key(k),
{
}

/// Compacting a map that was just compacted changes nothing.
pub proof fn lemma_compact_idempotent<K, V>(
    a: SimpleMap<K, V>,
    b: SimpleMap<K, V>,
    c: SimpleMap<K, V>,
)
    requires
        SimpleMap::compacted(a, b),
        SimpleMap::compacted(b, c),
    ensures
        c.stored() == b.stored(),
        c.pending_entry() == b.pending_entry(),
        c.default_value() == b.default_value(),
        c@ == b@,
{
}

/// At every point of a run of writes and compactions, a read of any key
/// gives what a plain map that received the same writes gives, with the
/// default for a key it does not hold.
pub proof fn lemma_matches_reference_map<K, V>(
    states: Seq<SimpleMap<K, V>>,
    ops: Seq<Option<(K, V)>>,
    k: K,
)
    requires
        run(states, ops),
    ensures
        forall|i: int|
            0 <= i < states.len() ==> #[trigger] states[i].read(k) == reference_read(
                ops.take(i),
                states[0].default_value(),
                k,
            ),
{
    assert forall|i: int| 0 <= i < states.len() implies #[trigger] states[i].read(k)
        == reference_read(ops.take(i), states[0].default_value(), k) by {
        lemma_run_view(states, ops, i);
    }
}

/// A key that no write of a run touches reads as the default at every point.
pub proof fn lemma_unwritten_reads_default<K, V>(
    states: Seq<SimpleMap<K, V>>,
    ops: Seq<Option<(K, V)>>,
    k: K,
)
    requires
        run(states, ops),
        forall|i: int|
            0 <= i < ops.len() && (#[trigger] ops[i]) is Some ==> ops[i].unwrap().0 != k,
    ensures
        forall|i: int|
            0 <= i < states.len() ==> #[trigger] states[i].read(k) == states[0].default_value(),
{
    assert forall|i: int| 0 <= i < states.len() implies #[trigger] states[i].read(k)
        == states[0].default_value() by {
        lemma_run_view(states, ops, i);
        let t = ops.take(i);
        assert forall|j: int| 0 <= j < t.len() && (#[trigger] t[j]) is Some implies t[j].unwrap().0
            != k by {
            assert(t[j] == ops[j]);
        }
        lemma_reference_absent(t, k);
    }
}

/// Once a run is compacted, iteration lists exactly the keys whose last
/// write was not the default, each once, with that last value.
pub proof fn lemma_count_after_compaction<K, V>(
    states: Seq<SimpleMap<K, V>>,
    ops: Seq<Option<(K, V)>>,
    after: SimpleMap<K, V>,
    s: Seq<(K, V)>,
)
    requires
        run(states, ops),
        SimpleMap::compacted(states.last(), after),
        after.lists(s),
    ensures
        s.len() == live(reference_map(ops), states[0].default_value()).len(),
        forall|i: int|
            0 <= i < s.len() ==> live(reference_map(ops), states[0].default_value()).contains_key(
                (#[trigger] s[i]).0,
            ) && s[i].1 == reference_map(ops)[s[i].0],
{
    lemma_run_view(states, ops, ops.len() as int);
    assert(ops.take(ops.len() as int) =~= ops);
    assert(states.last() == states[ops.len() as int]);
}

} // verus!
