//! A finite map kept as a vector of entries with pairwise distinct keys.

use crate::primitives::Key;
use vstd::prelude::*;

verus! {

/// No two entries share a key.
pub open spec fn distinct_keys<K, V>(entries: Seq<(K, V)>) -> bool {
    forall|i: int, j: int|
        #![trigger entries[i], entries[j]]
        0 <= i < j < entries.len() ==> entries[i].0 != entries[j].0
}

/// Where `k` stands among `entries`, for a `k` that does.
pub open spec fn index_of<K, V>(entries: Seq<(K, V)>, k: K) -> int {
    choose|i: int| 0 <= i < entries.len() && (#[trigger] entries[i]).0 == k
}

/// The keys that occur in `entries`.
pub open spec fn has_key<K, V>(entries: Seq<(K, V)>, k: K) -> bool {
    exists|i: int| 0 <= i < entries.len() && (#[trigger] entries[i]).0 == k
}

/// The map that `entries` writes down.
pub open spec fn map_of<K, V>(entries: Seq<(K, V)>) -> Map<K, V> {
    Map::new(|k: K| has_key(entries, k), |k: K| entries[index_of(entries, k)].1)
}

/// A map from `K` to `V`.
#[derive(Debug)]
pub struct Table<K, V> {
    entries: Vec<(K, V)>,
}

impl<K, V> View for Table<K, V> {
    type V = Map<K, V>;

    closed spec fn view(&self) -> Map<K, V> {
        map_of(self.entries@)
    }
}

impl<K, V> Table<K, V> {
    #[verifier::type_invariant]
    spec fn inv(self) -> bool {
        distinct_keys(self.entries@)
    }

    /// The entries, in the order they are kept.
    pub closed spec fn entries(&self) -> Seq<(K, V)> {
        self.entries@
    }
}

impl<K: Key + Copy, V: Copy> Table<K, V> {
    /// The empty map.
    pub fn new() -> (r: Self)
        ensures
            r@ == Map::<K, V>::empty(),
    {
        let r = Table { entries: Vec::new() };
        assert(map_of(r.entries@) =~= Map::<K, V>::empty());
        r
    }

    /// Position of `k`, if it occurs.
    fn position(&self, k: &K) -> (r: Option<usize>)
        ensures
            match r {
                Some(i) => i < self.entries@.len() && self.entries@[i as int].0 == *k,
                None => !has_key(self.entries@, *k),
            },
    {
        let mut i: usize = 0;
        while i < self.entries.len()
            invariant
                0 <= i <= self.entries@.len(),
                forall|j: int| 0 <= j < i ==> (#[trigger] self.entries@[j]).0 != *k,
            decreases self.entries@.len() - i,
        {
            if self.entries[i].0.same(k) {
                return Some(i);
            }
            i = i + 1;
        }
        None
    }

    /// The value under `k`, if there is one.
    pub fn get(&self, k: &K) -> (r: Option<V>)
        ensures
            r == (if self@.dom().contains(*k) {
                Some(self@[*k])
            } else {
                None
            }),
    {
        proof {
            use_type_invariant(self);
        }
        match self.position(k) {
            Some(i) => {
                proof {
                    lemma_lookup(self.entries@, i as int);
                }
                Some(self.entries[i].1)
            },
            None => None,
        }
    }

    /// Whether there is a value under `k`.
    pub fn contains_key(&self, k: &K) -> (r: bool)
        ensures
            r == self@.dom().contains(*k),
    {
        proof {
            use_type_invariant(self);
        }
        match self.position(k) {
            Some(i) => {
                proof {
                    lemma_lookup(self.entries@, i as int);
                }
                true
            },
            None => false,
        }
    }

    /// The entries other than `k`'s.
    fn without(&self, k: &K) -> (r: Vec<(K, V)>)
        ensures
            distinct_keys(r@),
            map_of(r@) == self@.remove(*k),
    {
        proof {
            use_type_invariant(self);
        }
        let mut out: Vec<(K, V)> = Vec::new();
        let mut i: usize = 0;
        while i < self.entries.len()
            invariant
                0 <= i <= self.entries@.len(),
                distinct_keys(self.entries@),
                distinct_keys(out@),
                forall|j: int|
                    0 <= j < out@.len() ==> (#[trigger] out@[j]).0 != *k && exists|m: int|
                        0 <= m < i && self.entries@[m] == out@[j],
                forall|m: int|
                    0 <= m < i && (#[trigger] self.entries@[m]).0 != *k ==> out@.contains(
                        self.entries@[m],
                    ),
            decreases self.entries@.len() - i,
        {
            let e: (K, V) = self.entries[i];
            if !e.0.same(k) {
                let ghost before = out@;
                out.push(e);
                proof {
                    assert(out@.last() == e);
                    assert forall|m: int| 0 <= m < i + 1 && (#[trigger] self.entries@[m]).0
                        != *k implies out@.contains(self.entries@[m]) by {
                        if m < i {
                            let j = choose|j: int|
                                0 <= j < before.len() && before[j] == self.entries@[m];
                            assert(out@[j] == self.entries@[m]);
                        }
                    }
                    assert forall|j: int| 0 <= j < out@.len() implies (#[trigger] out@[j]).0 != *k
                        && exists|m: int| 0 <= m < i + 1 && self.entries@[m] == out@[j] by {
                        if j < before.len() {
                            assert(out@[j] == before[j]);
                        } else {
                            assert(self.entries@[i as int] == out@[j]);
                        }
                    }
                }
            }
            i = i + 1;
        }
        proof {
            lemma_without(self.entries@, out@, *k);
        }
        out
    }

    /// Put `v` under `k`, in place of whatever stood there.
    pub fn insert(&mut self, k: K, v: V)
        ensures
            final(self)@ == old(self)@.insert(k, v),
    {
        let mut out = self.without(&k);
        let ghost kept = out@;
        out.push((k, v));
        proof {
            assert(!has_key(kept, k)) by {
                assert(!map_of(kept).dom().contains(k));
            }
            lemma_push(kept, k, v);
            assert(map_of(out@) =~= self@.insert(k, v));
        }
        *self = Table { entries: out };
    }

    /// Remove whatever stands under `k`.
    pub fn remove(&mut self, k: &K)
        ensures
            final(self)@ == old(self)@.remove(*k),
    {
        let out = self.without(k);
        *self = Table { entries: out };
    }

    /// Another table with the same entries.
    pub fn duplicate(&self) -> (r: Self)
        ensures
            r@ == self@,
            r.entries() == self.entries(),
    {
        proof {
            use_type_invariant(self);
        }
        let mut out: Vec<(K, V)> = Vec::new();
        let mut i: usize = 0;
        while i < self.entries.len()
            invariant
                0 <= i <= self.entries@.len(),
                out@ == self.entries@.subrange(0, i as int),
            decreases self.entries@.len() - i,
        {
            out.push(self.entries[i]);
            i = i + 1;
            assert(out@ =~= self.entries@.subrange(0, i as int));
        }
        assert(out@ =~= self.entries@);
        Table { entries: out }
    }

    /// How many entries there are; they have distinct keys and write down the map.
    pub fn len(&self) -> (r: usize)
        ensures
            r == self.entries().len(),
            distinct_keys(self.entries()),
            map_of(self.entries()) == self@,
    {
        proof {
            use_type_invariant(self);
        }
        self.entries.len()
    }

    /// The entry at position `i`.
    pub(crate) fn entry(&self, i: usize) -> (r: (K, V))
        requires
            i < self.entries().len(),
        ensures
            r == self.entries()[i as int],
    {
        self.entries[i]
    }
}

/// An entry is found under its key.
pub proof fn lemma_lookup<K, V>(entries: Seq<(K, V)>, i: int)
    requires
        distinct_keys(entries),
        0 <= i < entries.len(),
    ensures
        map_of(entries).dom().contains(entries[i].0),
        map_of(entries)[entries[i].0] == entries[i].1,
{
    let k = entries[i].0;
    assert(has_key(entries, k));
    let j = index_of(entries, k);
    assert(entries[j].0 == k);
    assert(i == j);
}

/// Adding an entry under a fresh key extends the map by it.
pub proof fn lemma_push<K, V>(entries: Seq<(K, V)>, k: K, v: V)
    requires
        distinct_keys(entries),
        !has_key(entries, k),
    ensures
        distinct_keys(entries.push((k, v))),
        map_of(entries.push((k, v))) == map_of(entries).insert(k, v),
{
    let after = entries.push((k, v));
    assert(distinct_keys(after)) by {
        assert forall|i: int, j: int|
            #![trigger after[i], after[j]]
            0 <= i < j < after.len() implies after[i].0 != after[j].0 by {
            if j == entries.len() {
                assert(after[i] == entries[i]);
            } else {
                assert(after[i] == entries[i] && after[j] == entries[j]);
            }
        }
    }
    assert forall|x: K| has_key(after, x) <==> has_key(entries, x) || x == k by {
        if has_key(after, x) {
            let i = index_of(after, x);
            if i < entries.len() {
                assert(entries[i].0 == x);
            }
        }
        if has_key(entries, x) {
            let i = index_of(entries, x);
            assert(after[i].0 == x);
        }
        if x == k {
            assert(after[entries.len() as int].0 == x);
        }
    }
    assert forall|x: K| has_key(after, x) implies #[trigger] map_of(after)[x] == map_of(
        entries,
    ).insert(k, v)[x] by {
        if x == k {
            lemma_lookup(after, entries.len() as int);
        } else {
            let i = index_of(entries, x);
            assert(after[i] == entries[i]);
            lemma_lookup(after, i);
            lemma_lookup(entries, i);
        }
    }
    assert(map_of(after) =~= map_of(entries).insert(k, v));
}

/// Dropping exactly `k`'s entry drops exactly `k` from the map.
proof fn lemma_without<K, V>(entries: Seq<(K, V)>, kept: Seq<(K, V)>, k: K)
    requires
        distinct_keys(entries),
        distinct_keys(kept),
        forall|j: int|
            0 <= j < kept.len() ==> (#[trigger] kept[j]).0 != k && exists|m: int|
                0 <= m < entries.len() && entries[m] == kept[j],
        forall|m: int|
            0 <= m < entries.len() && (#[trigger] entries[m]).0 != k ==> kept.contains(entries[m]),
    ensures
        map_of(kept) == map_of(entries).remove(k),
{
    assert forall|x: K| has_key(kept, x) <==> has_key(entries, x) && x != k by {
        if has_key(kept, x) {
            let j = index_of(kept, x);
            let m = choose|m: int| 0 <= m < entries.len() && entries[m] == kept[j];
            assert(entries[m].0 == x);
        }
        if has_key(entries, x) && x != k {
            let m = index_of(entries, x);
            let j = choose|j: int| 0 <= j < kept.len() && kept[j] == entries[m];
            assert(kept[j].0 == x);
        }
    }
    assert forall|x: K| has_key(kept, x) implies #[trigger] map_of(kept)[x] == map_of(
        entries,
    )[x] by {
        let j = index_of(kept, x);
        let m = choose|m: int| 0 <= m < entries.len() && entries[m] == kept[j];
        lemma_lookup(kept, j);
        lemma_lookup(entries, m);
    }
    assert(map_of(kept) =~= map_of(entries).remove(k));
}

} // verus!
