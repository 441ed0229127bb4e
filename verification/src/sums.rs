//! Sums over the entries of a map.
#[allow(unused_imports)]
use vstd::prelude::*;

verus! {

/// The sum over the entries of a map.
pub open spec fn sum<K, V>(m: Map<K, V>, f: spec_fn(V) -> int) -> int
    decreases m.dom().len(),
    when m.dom().finite()
{
    if m.dom().is_empty() {
        0
    } else {
        let k = m.dom().choose();
        f(m[k]) + sum(m.remove(k), f)
    }
}

/// Any entry can be the first one that is added.
pub proof fn lemma_sum_entry<K, V>(m: Map<K, V>, f: spec_fn(V) -> int, k: K)
    requires
        m.dom().finite(),
        m.contains_key(k),
    ensures
        sum(m, f) == f(m[k]) + sum(m.remove(k), f),
    decreases m.dom().len(),
{
    let c = m.dom().choose();
    assert(m.dom().contains(k));
    assert(m.dom().contains(c));
    if c != k {
        lemma_sum_entry(m.remove(c), f, k);
        lemma_sum_entry(m.remove(k), f, c);
        assert(m.remove(c).remove(k) =~= m.remove(k).remove(c));
        assert(m.remove(c)[k] == m[k]);
        assert(m.remove(k)[c] == m[c]);
    }
}

/// What an entry adds to the sum, and what the sum was before.
pub proof fn lemma_sum_insert<K, V>(m: Map<K, V>, f: spec_fn(V) -> int, k: K, v: V)
    requires
        m.dom().finite(),
    ensures
        sum(m.insert(k, v), f) == f(v) + sum(m.remove(k), f),
        sum(m, f) == (if m.contains_key(k) {
            f(m[k])
        } else {
            0
        }) + sum(m.remove(k), f),
{
    lemma_sum_entry(m.insert(k, v), f, k);
    assert(m.insert(k, v).remove(k) =~= m.remove(k));
    if m.contains_key(k) {
        lemma_sum_entry(m, f, k);
    } else {
        assert(m.remove(k) =~= m);
    }
}

/// The sum over the entries of the first `n` keys.
pub open spec fn partial<K, V>(m: Map<K, V>, f: spec_fn(V) -> int, keys: Seq<K>, n: int) -> int
    decreases n,
{
    if n <= 0 {
        0
    } else {
        partial(m, f, keys, n - 1) + f(m[keys[n - 1]])
    }
}

/// Added key by key, the entries give the sum.
pub proof fn lemma_sum_keys<K, V>(m: Map<K, V>, f: spec_fn(V) -> int, keys: Seq<K>)
    requires
        m.dom().finite(),
        keys.no_duplicates(),
        forall|k: K| #[trigger] m.contains_key(k) <==> keys.contains(k),
    ensures
        partial(m, f, keys, keys.len() as int) == sum(m, f),
    decreases keys.len(),
{
    if keys.len() == 0 {
        assert forall|k: K| !m.dom().contains(k) by {
            assert(m.contains_key(k) <==> keys.contains(k));
        }
        assert(m.dom().is_empty());
    } else {
        let k = keys.last();
        let head = keys.drop_last();
        let rest = m.remove(k);
        assert(keys.contains(k));
        assert forall|x: K| #[trigger] rest.contains_key(x) <==> head.contains(x) by {
            if rest.contains_key(x) {
                assert(keys.contains(x));
                let p = keys.index_of(x);
                assert(head[p] == x);
            }
            if head.contains(x) {
                let p = head.index_of(x);
                assert(keys[p] == x);
                assert(keys.contains(x));
            }
        }
        lemma_sum_keys(rest, f, head);
        lemma_sum_entry(m, f, k);
        lemma_partial_rest(m, f, keys, head.len() as int);
    }
}

proof fn lemma_partial_rest<K, V>(m: Map<K, V>, f: spec_fn(V) -> int, keys: Seq<K>, n: int)
    requires
        keys.len() > 0,
        keys.no_duplicates(),
        n < keys.len(),
    ensures
        partial(m.remove(keys.last()), f, keys.drop_last(), n) == partial(m, f, keys, n),
    decreases n,
{
    if n > 0 {
        lemma_partial_rest(m, f, keys, n - 1);
        assert(keys.drop_last()[n - 1] == keys[n - 1]);
        assert(keys[n - 1] != keys.last());
    }
}

} // verus!
