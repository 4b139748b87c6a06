//! Sums over the values of a finite map, and how they are computed from a
//! list of the map's entries.

use vstd::prelude::*;

verus! {

/// The sum of `w` over the values of `m`.
pub open spec fn map_sum<V>(m: Map<Seq<u8>, V>, w: spec_fn(V) -> nat) -> nat
    decreases m.dom().len(),
    when m.dom().finite()
{
    if m.dom().len() > 0 {
        let k = m.dom().choose();
        w(m[k]) + map_sum(m.remove(k), w)
    } else {
        0
    }
}

/// The sum of `w` over the values of a list of entries.
pub open spec fn seq_sum<V>(es: Seq<(Seq<u8>, V)>, w: spec_fn(V) -> nat) -> nat
    decreases es.len(),
{
    if es.len() == 0 {
        0
    } else {
        seq_sum(es.drop_last(), w) + w(es.last().1)
    }
}

/// `es` lists the entries of `m`: each entry once, and nothing else.
pub open spec fn lists<V>(es: Seq<(Seq<u8>, V)>, m: Map<Seq<u8>, V>) -> bool {
    &&& forall|i: int|
        0 <= i < es.len() ==> m.contains_key(#[trigger] es[i].0) && m[es[i].0] == es[i].1
    &&& forall|k: Seq<u8>| #[trigger]
        m.contains_key(k) ==> exists|i: int| 0 <= i < es.len() && #[trigger] es[i].0 == k
    &&& forall|i: int, j: int|
        0 <= i < j < es.len() ==> #[trigger] es[i].0 != #[trigger] es[j].0
}

/// The sum over a map can be taken apart at any key.
pub proof fn lemma_map_sum_remove<V>(m: Map<Seq<u8>, V>, w: spec_fn(V) -> nat, k: Seq<u8>)
    requires
        m.dom().finite(),
        m.contains_key(k),
    ensures
        map_sum(m, w) == w(m[k]) + map_sum(m.remove(k), w),
    decreases m.dom().len(),
{
    let c = m.dom().choose();
    if c != k {
        lemma_map_sum_remove(m.remove(c), w, k);
        lemma_map_sum_remove(m.remove(k), w, c);
        assert(m.remove(c).remove(k) =~= m.remove(k).remove(c));
    }
}

/// A map with a list of its entries is finite, and the sum over the map is
/// the sum over the list.
pub proof fn lemma_lists_sum<V>(es: Seq<(Seq<u8>, V)>, m: Map<Seq<u8>, V>, w: spec_fn(V) -> nat)
    requires
        lists(es, m),
    ensures
        m.dom().finite(),
        m.dom().len() == es.len(),
        seq_sum(es, w) == map_sum(m, w),
    decreases es.len(),
{
    if es.len() == 0 {
        assert(m.dom() =~= Set::<Seq<u8>>::empty());
    } else {
        let k = es.last().0;
        let front = es.drop_last();
        let rest = m.remove(k);
        assert(lists(front, rest)) by {
            assert forall|q: Seq<u8>| #[trigger] rest.contains_key(q) implies exists|i: int|
                0 <= i < front.len() && #[trigger] front[i].0 == q by {
                let i = choose|i: int| 0 <= i < es.len() && #[trigger] es[i].0 == q;
                assert(front[i].0 == q);
            }
        }
        lemma_lists_sum(front, rest, w);
        assert(m.dom() =~= rest.dom().insert(k));
        lemma_map_sum_remove(m, w, k);
    }
}

/// The sum over a prefix grows by the weight of the entry that follows it.
pub proof fn lemma_seq_sum_step<V>(es: Seq<(Seq<u8>, V)>, w: spec_fn(V) -> nat, n: int)
    requires
        0 <= n < es.len(),
    ensures
        seq_sum(es.subrange(0, n + 1), w) == seq_sum(es.subrange(0, n), w) + w(es[n].1),
{
    assert(es.subrange(0, n + 1).drop_last() =~= es.subrange(0, n));
}

/// No value weighs more than the whole sum.
pub proof fn lemma_map_sum_bounds<V>(m: Map<Seq<u8>, V>, w: spec_fn(V) -> nat, k: Seq<u8>)
    requires
        m.dom().finite(),
        m.contains_key(k),
    ensures
        w(m[k]) <= map_sum(m, w),
{
    lemma_map_sum_remove(m, w, k);
}

} // verus!
