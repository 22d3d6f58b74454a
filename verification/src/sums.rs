//! Sums over the entries of a finite map.

use crate::table::{distinct_keys, has_key, index_of, lemma_push, map_of};
use vstd::prelude::*;

verus! {

/// `f` of every entry of `m`, added up.
pub open spec fn sum_map<K, V>(m: Map<K, V>, f: spec_fn(K, V) -> int) -> int
    decreases m.dom().len(),
{
    if m.dom().finite() && m.dom().len() > 0 {
        let k = m.dom().choose();
        f(k, m[k]) + sum_map(m.remove(k), f)
    } else {
        0
    }
}

/// `f` of every entry of a sequence, added up.
pub open spec fn sum_entries<K, V>(entries: Seq<(K, V)>, f: spec_fn(K, V) -> int) -> int
    decreases entries.len(),
{
    if entries.len() == 0 {
        0
    } else {
        sum_entries(entries.drop_last(), f) + f(entries.last().0, entries.last().1)
    }
}

/// Any entry can be split off a sum.
pub proof fn lemma_sum_split<K, V>(m: Map<K, V>, k: K, f: spec_fn(K, V) -> int)
    requires
        m.dom().finite(),
        m.dom().contains(k),
    ensures
        sum_map(m, f) == f(k, m[k]) + sum_map(m.remove(k), f),
    decreases m.dom().len(),
{
    let c = m.dom().choose();
    assert(m.dom().contains(c));
    if c != k {
        let without_c = m.remove(c);
        let without_k = m.remove(k);
        assert(without_c.dom() =~= m.dom().remove(c));
        assert(without_k.dom() =~= m.dom().remove(k));
        lemma_sum_split(without_c, k, f);
        lemma_sum_split(without_k, c, f);
        assert(without_c.remove(k) =~= without_k.remove(c));
    }
}

/// Putting an entry into a map changes a sum by that entry alone.
pub proof fn lemma_sum_insert<K, V>(m: Map<K, V>, k: K, v: V, f: spec_fn(K, V) -> int)
    requires
        m.dom().finite(),
    ensures
        m.insert(k, v).dom().finite(),
        sum_map(m.insert(k, v), f) == sum_map(m, f) + f(k, v) - (if m.dom().contains(k) {
            f(k, m[k])
        } else {
            0
        }),
{
    let after = m.insert(k, v);
    assert(after.dom() =~= m.dom().insert(k));
    lemma_sum_split(after, k, f);
    if m.dom().contains(k) {
        lemma_sum_split(m, k, f);
        assert(after.remove(k) =~= m.remove(k));
    } else {
        assert(after.remove(k) =~= m);
    }
}

/// Taking an entry out of a map changes a sum by that entry alone.
pub proof fn lemma_sum_remove<K, V>(m: Map<K, V>, k: K, f: spec_fn(K, V) -> int)
    requires
        m.dom().finite(),
    ensures
        m.remove(k).dom().finite(),
        sum_map(m.remove(k), f) == sum_map(m, f) - (if m.dom().contains(k) {
            f(k, m[k])
        } else {
            0
        }),
{
    assert(m.remove(k).dom() =~= m.dom().remove(k));
    if m.dom().contains(k) {
        lemma_sum_split(m, k, f);
    } else {
        assert(m.remove(k) =~= m);
    }
}

/// A sum of larger terms is larger.
pub proof fn lemma_sum_monotone<K, V>(
    m: Map<K, V>,
    f: spec_fn(K, V) -> int,
    g: spec_fn(K, V) -> int,
)
    requires
        forall|k: K| m.dom().contains(k) ==> #[trigger] f(k, m[k]) <= g(k, m[k]),
    ensures
        sum_map(m, f) <= sum_map(m, g),
    decreases m.dom().len(),
{
    if m.dom().finite() && m.dom().len() > 0 {
        let k = m.dom().choose();
        let rest = m.remove(k);
        assert(rest.dom() =~= m.dom().remove(k));
        assert forall|x: K| rest.dom().contains(x) implies #[trigger] f(x, rest[x]) <= g(
            x,
            rest[x],
        ) by {
            assert(f(x, m[x]) <= g(x, m[x]));
        }
        lemma_sum_monotone(rest, f, g);
        assert(f(k, m[k]) <= g(k, m[k]));
    }
}

/// A sum of terms that are not negative is not negative, and none of its terms
/// is above it.
pub proof fn lemma_sum_bounds<K, V>(m: Map<K, V>, f: spec_fn(K, V) -> int)
    requires
        m.dom().finite(),
        forall|k: K| m.dom().contains(k) ==> #[trigger] f(k, m[k]) >= 0,
    ensures
        sum_map(m, f) >= 0,
        forall|k: K| m.dom().contains(k) ==> #[trigger] f(k, m[k]) <= sum_map(m, f),
{
    lemma_sum_not_negative(m, f);
    assert forall|k: K| m.dom().contains(k) implies #[trigger] f(k, m[k]) <= sum_map(m, f) by {
        lemma_sum_split(m, k, f);
        let rest = m.remove(k);
        assert(rest.dom() =~= m.dom().remove(k));
        assert forall|x: K| rest.dom().contains(x) implies #[trigger] f(x, rest[x]) >= 0 by {
            assert(f(x, m[x]) >= 0);
        }
        lemma_sum_not_negative(rest, f);
    }
}

proof fn lemma_sum_not_negative<K, V>(m: Map<K, V>, f: spec_fn(K, V) -> int)
    requires
        forall|k: K| m.dom().contains(k) ==> #[trigger] f(k, m[k]) >= 0,
    ensures
        sum_map(m, f) >= 0,
    decreases m.dom().len(),
{
    if m.dom().finite() && m.dom().len() > 0 {
        let k = m.dom().choose();
        let rest = m.remove(k);
        assert(rest.dom() =~= m.dom().remove(k));
        assert forall|x: K| rest.dom().contains(x) implies #[trigger] f(x, rest[x]) >= 0 by {
            assert(f(x, m[x]) >= 0);
        }
        lemma_sum_not_negative(rest, f);
        assert(f(k, m[k]) >= 0);
    }
}

/// Sums are linear.
pub proof fn lemma_sum_linear<K, V>(
    m: Map<K, V>,
    h: spec_fn(K, V) -> int,
    f: spec_fn(K, V) -> int,
    g: spec_fn(K, V) -> int,
    c: int,
)
    requires
        forall|k: K| m.dom().contains(k) ==> #[trigger] h(k, m[k]) == f(k, m[k]) + c * g(k, m[k]),
    ensures
        sum_map(m, h) == sum_map(m, f) + c * sum_map(m, g),
    decreases m.dom().len(),
{
    if m.dom().finite() && m.dom().len() > 0 {
        let k = m.dom().choose();
        let rest = m.remove(k);
        assert(rest.dom() =~= m.dom().remove(k));
        assert forall|x: K| rest.dom().contains(x) implies #[trigger] h(x, rest[x]) == f(x, rest[x])
            + c * g(x, rest[x]) by {
            assert(h(x, m[x]) == f(x, m[x]) + c * g(x, m[x]));
        }
        lemma_sum_linear(rest, h, f, g, c);
        assert(h(k, m[k]) == f(k, m[k]) + c * g(k, m[k]));
        let (a, b) = (g(k, m[k]), sum_map(rest, g));
        assert(c * (a + b) == c * a + c * b) by (nonlinear_arith);
    } else {
        assert(c * 0 == 0) by (nonlinear_arith);
    }
}

/// A sum of nothing but zeroes is zero.
pub proof fn lemma_sum_zero<K, V>(m: Map<K, V>, f: spec_fn(K, V) -> int)
    requires
        forall|k: K| m.dom().contains(k) ==> #[trigger] f(k, m[k]) == 0,
    ensures
        sum_map(m, f) == 0,
    decreases m.dom().len(),
{
    if m.dom().finite() && m.dom().len() > 0 {
        let k = m.dom().choose();
        let rest = m.remove(k);
        assert(rest.dom() =~= m.dom().remove(k));
        assert forall|x: K| rest.dom().contains(x) implies #[trigger] f(x, rest[x]) == 0 by {
            assert(f(x, m[x]) == 0);
        }
        lemma_sum_zero(rest, f);
        assert(f(k, m[k]) == 0);
    }
}

/// A map written down as entries sums to what its entries sum to.
pub proof fn lemma_sum_entries<K, V>(entries: Seq<(K, V)>, f: spec_fn(K, V) -> int)
    requires
        distinct_keys(entries),
    ensures
        map_of(entries).dom().finite(),
        sum_map(map_of(entries), f) == sum_entries(entries, f),
    decreases entries.len(),
{
    if entries.len() == 0 {
        assert(map_of(entries) =~= Map::<K, V>::empty());
    } else {
        let front = entries.drop_last();
        let (k, v) = entries.last();
        assert(distinct_keys(front)) by {
            assert forall|i: int, j: int|
                #![trigger front[i], front[j]]
                0 <= i < j < front.len() implies front[i].0 != front[j].0 by {
                assert(entries[i] == front[i] && entries[j] == front[j]);
            }
        }
        assert(!has_key(front, k)) by {
            if has_key(front, k) {
                let i = index_of(front, k);
                assert(entries[i] == front[i]);
                assert(entries[i].0 != entries[entries.len() - 1].0);
            }
        }
        lemma_sum_entries(front, f);
        lemma_push(front, k, v);
        assert(front.push((k, v)) =~= entries);
        lemma_sum_insert(map_of(front), k, v, f);
    }
}

} // verus!
