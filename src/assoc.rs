//! Finite maps stored as sequences of key and value pairs: the later pair of
//! a key wins. The lemmas relate such a sequence to the map it stands for.

use vstd::prelude::*;

verus! {

/// the map that a sequence of pairs stands for; a later pair overrides an earlier one
pub open spec fn map_of<K, V>(s: Seq<(K, V)>) -> Map<K, V>
    decreases s.len(),
{
    if s.len() == 0 {
        Map::empty()
    } else {
        map_of(s.drop_last()).insert(s.last().0, s.last().1)
    }
}

/// no key occurs twice in the sequence
pub open spec fn keys_unique<K, V>(s: Seq<(K, V)>) -> bool {
    forall|i: int, j: int| 0 <= i < s.len() && 0 <= j < s.len() && i != j ==> s[i].0 != s[j].0
}

/// number of pairs whose key satisfies `p`
pub open spec fn count_keys<K, V>(s: Seq<(K, V)>, p: spec_fn(K) -> bool) -> nat
    decreases s.len(),
{
    if s.len() == 0 {
        0
    } else {
        count_keys(s.drop_last(), p) + if p(s.last().0) {
            1nat
        } else {
            0nat
        }
    }
}

pub proof fn lemma_map_of_finite<K, V>(s: Seq<(K, V)>)
    ensures
        map_of(s).dom().finite(),
    decreases s.len(),
{
    if s.len() > 0 {
        lemma_map_of_finite(s.drop_last());
    }
}

pub proof fn lemma_map_of_contains<K, V>(s: Seq<(K, V)>, k: K)
    ensures
        map_of(s).contains_key(k) <==> exists|i: int| 0 <= i < s.len() && s[i].0 == k,
    decreases s.len(),
{
    if s.len() > 0 {
        let t = s.drop_last();
        lemma_map_of_contains(t, k);
        if map_of(s).contains_key(k) {
            if s.last().0 != k {
                let i = choose|i: int| 0 <= i < t.len() && t[i].0 == k;
                assert(s[i].0 == k);
            } else {
                assert(s[s.len() - 1].0 == k);
            }
        }
        if exists|i: int| 0 <= i < s.len() && s[i].0 == k {
            let i = choose|i: int| 0 <= i < s.len() && s[i].0 == k;
            if i < s.len() - 1 {
                assert(t[i].0 == k);
            }
        }
    }
}

pub proof fn lemma_map_of_value<K, V>(s: Seq<(K, V)>, i: int)
    requires
        keys_unique(s),
        0 <= i < s.len(),
    ensures
        map_of(s).contains_key(s[i].0),
        map_of(s)[s[i].0] == s[i].1,
    decreases s.len(),
{
    let t = s.drop_last();
    if i < s.len() - 1 {
        assert(t[i] == s[i]);
        lemma_map_of_value(t, i);
        assert(s.last().0 != s[i].0);
    }
}

pub proof fn lemma_map_of_push<K, V>(s: Seq<(K, V)>, k: K, v: V)
    ensures
        map_of(s.push((k, v))) == map_of(s).insert(k, v),
{
    assert(s.push((k, v)).drop_last() =~= s);
}

pub proof fn lemma_keys_unique_push<K, V>(s: Seq<(K, V)>, k: K, v: V)
    requires
        keys_unique(s),
        !map_of(s).contains_key(k),
    ensures
        keys_unique(s.push((k, v))),
{
    lemma_map_of_contains(s, k);
    let u = s.push((k, v));
    assert forall|i: int, j: int| 0 <= i < u.len() && 0 <= j < u.len() && i != j implies u[i].0
        != u[j].0 by {
        if i < s.len() && j < s.len() {
            assert(s[i].0 != s[j].0);
        } else if i < s.len() {
            assert(s[i].0 != k);
        } else {
            assert(s[j].0 != k);
        }
    }
}

pub proof fn lemma_map_of_update<K, V>(s: Seq<(K, V)>, i: int, v: V)
    requires
        keys_unique(s),
        0 <= i < s.len(),
    ensures
        map_of(s.update(i, (s[i].0, v))) == map_of(s).insert(s[i].0, v),
        keys_unique(s.update(i, (s[i].0, v))),
    decreases s.len(),
{
    let u = s.update(i, (s[i].0, v));
    let t = s.drop_last();
    assert(keys_unique(u)) by {
        assert forall|a: int, b: int| 0 <= a < u.len() && 0 <= b < u.len() && a != b implies u[a].0
            != u[b].0 by {
            assert(s[a].0 != s[b].0);
        }
    }
    if i == s.len() - 1 {
        assert(u.drop_last() =~= t);
        assert(map_of(t).insert(s[i].0, s[i].1).insert(s[i].0, v) =~= map_of(t).insert(
            s[i].0,
            v,
        ));
    } else {
        assert(u.drop_last() =~= t.update(i, (t[i].0, v)));
        lemma_map_of_update(t, i, v);
        assert(s.last().0 != s[i].0);
        assert(map_of(t).insert(s[i].0, v).insert(s.last().0, s.last().1) =~= map_of(t).insert(
            s.last().0,
            s.last().1,
        ).insert(s[i].0, v));
    }
}

pub proof fn lemma_count_keys<K, V>(s: Seq<(K, V)>, p: spec_fn(K) -> bool)
    requires
        keys_unique(s),
    ensures
        count_keys(s, p) == map_of(s).dom().filter(p).len(),
    decreases s.len(),
{
    lemma_map_of_finite(s);
    if s.len() == 0 {
        assert(map_of(s).dom().filter(p) =~= Set::empty());
    } else {
        let t = s.drop_last();
        assert(keys_unique(t));
        lemma_count_keys(t, p);
        lemma_map_of_finite(t);
        let k = s.last().0;
        lemma_map_of_contains(t, k);
        assert(!map_of(t).contains_key(k)) by {
            if map_of(t).contains_key(k) {
                let i = choose|i: int| 0 <= i < t.len() && t[i].0 == k;
                assert(s[i].0 == s[s.len() - 1].0);
            }
        }
        let a = map_of(t).dom().filter(p);
        if p(k) {
            assert(map_of(s).dom().filter(p) =~= a.insert(k));
        } else {
            assert(map_of(s).dom().filter(p) =~= a);
        }
    }
}

pub proof fn lemma_count_keys_push<K, V>(s: Seq<(K, V)>, e: (K, V), p: spec_fn(K) -> bool)
    ensures
        count_keys(s.push(e), p) == count_keys(s, p) + if p(e.0) {
            1nat
        } else {
            0nat
        },
{
    assert(s.push(e).drop_last() =~= s);
}

pub proof fn lemma_map_of_prepend<K, V>(s: Seq<(K, V)>, k: K, v: V)
    requires
        keys_unique(s),
        !map_of(s).contains_key(k),
    ensures
        map_of(seq![(k, v)].add(s)) == map_of(s).insert(k, v),
        keys_unique(seq![(k, v)].add(s)),
    decreases s.len(),
{
    let u = seq![(k, v)].add(s);
    lemma_map_of_contains(s, k);
    assert forall|i: int, j: int| 0 <= i < u.len() && 0 <= j < u.len() && i != j implies u[i].0
        != u[j].0 by {
        if i > 0 && j > 0 {
            assert(s[i - 1].0 != s[j - 1].0);
        } else if i > 0 {
            assert(s[i - 1].0 != k);
        } else {
            assert(s[j - 1].0 != k);
        }
    }
    if s.len() == 0 {
        assert(u.drop_last() =~= Seq::<(K, V)>::empty());
        assert(map_of(Seq::<(K, V)>::empty()) =~= Map::empty());
    } else {
        let t = s.drop_last();
        assert(keys_unique(t));
        lemma_map_of_contains(t, k);
        assert(!map_of(t).contains_key(k)) by {
            if map_of(t).contains_key(k) {
                let i = choose|i: int| 0 <= i < t.len() && t[i].0 == k;
                assert(s[i].0 == k);
            }
        }
        lemma_map_of_prepend(t, k, v);
        assert(u.drop_last() =~= seq![(k, v)].add(t));
        assert(s.last().0 != k) by {
            assert(s[s.len() - 1].0 != k);
        }
        assert(map_of(t).insert(k, v).insert(s.last().0, s.last().1) =~= map_of(t).insert(
            s.last().0,
            s.last().1,
        ).insert(k, v));
    }
}

/// a sequence with each key once has as many pairs as its map has keys
pub proof fn lemma_len_is_dom_len<K, V>(s: Seq<(K, V)>)
    requires
        keys_unique(s),
    ensures
        s.len() == map_of(s).dom().len(),
{
    lemma_count_keys(s, |k: K| true);
    assert(map_of(s).dom().filter(|k: K| true) =~= map_of(s).dom());
    lemma_count_all(s, s.len() as int);
    assert(s.take(s.len() as int) =~= s);
}

proof fn lemma_count_all<K, V>(f: Seq<(K, V)>, m: int)
    requires
        0 <= m <= f.len(),
    ensures
        count_keys(f.take(m), |k: K| true) == m,
    decreases m,
{
    if m > 0 {
        assert(f.take(m).drop_last() =~= f.take(m - 1));
        lemma_count_all(f, m - 1);
    }
}

} // verus!
