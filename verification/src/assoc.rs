//! Sequences of key-value pairs read as maps.
use vstd::prelude::*;

verus! {

/// The map that a sequence of key-value pairs stands for: each pair sets the
/// value of its key, and a later pair overrides an earlier one with the same key.
pub open spec fn to_map<K, V>(s: Seq<(K, V)>) -> Map<K, V>
    decreases s.len(),
{
    if s.len() == 0 {
        Map::empty()
    } else {
        to_map(s.drop_last()).insert(s.last().0, s.last().1)
    }
}

/// No key occurs twice in `s`.
pub open spec fn distinct_keys<K, V>(s: Seq<(K, V)>) -> bool {
    forall|i: int, j: int| 0 <= i < j < s.len() ==> s[i].0 != s[j].0
}

/// Some pair of `s` has the key `k`.
pub open spec fn has_key<K, V>(s: Seq<(K, V)>, k: K) -> bool {
    exists|i: int| 0 <= i < s.len() && #[trigger] s[i].0 == k
}

/// A key occurs among the first `n + 1` pairs if it occurs among the first
/// `n` pairs or is the key of the pair at `n`.
pub proof fn lemma_has_key_prefix<K, V>(s: Seq<(K, V)>, n: int, k: K)
    requires
        0 <= n < s.len(),
    ensures
        has_key(s.subrange(0, n + 1), k) <==> has_key(s.subrange(0, n), k) || s[n].0 == k,
{
    let a = s.subrange(0, n);
    let b = s.subrange(0, n + 1);
    if has_key(b, k) {
        let i = choose|i: int| 0 <= i < b.len() && #[trigger] b[i].0 == k;
        if i < n {
            assert(a[i].0 == k);
        }
    }
    if has_key(a, k) {
        let i = choose|i: int| 0 <= i < a.len() && #[trigger] a[i].0 == k;
        assert(b[i].0 == k);
    }
    if s[n].0 == k {
        assert(b[n].0 == k);
    }
}

/// The keys of the map are the keys that occur in the sequence.
pub proof fn lemma_to_map_dom<K, V>(s: Seq<(K, V)>, k: K)
    ensures
        to_map(s).contains_key(k) <==> has_key(s, k),
    decreases s.len(),
{
    if s.len() > 0 {
        let t = s.drop_last();
        lemma_to_map_dom(t, k);
        if has_key(s, k) {
            let i = choose|i: int| 0 <= i < s.len() && #[trigger] s[i].0 == k;
            if i < s.len() - 1 {
                assert(t[i].0 == k);
            }
        }
        if has_key(t, k) {
            let i = choose|i: int| 0 <= i < t.len() && #[trigger] t[i].0 == k;
            assert(s[i].0 == k);
        }
        if s.last().0 == k {
            assert(s[s.len() - 1].0 == k);
        }
    }
}

/// Where no key occurs twice, each pair of the sequence is an entry of the map.
pub proof fn lemma_to_map_entry<K, V>(s: Seq<(K, V)>, i: int)
    requires
        distinct_keys(s),
        0 <= i < s.len(),
    ensures
        to_map(s).contains_key(s[i].0),
        to_map(s)[s[i].0] == s[i].1,
    decreases s.len(),
{
    let t = s.drop_last();
    if i < s.len() - 1 {
        assert(distinct_keys(t)) by {
            assert forall|a: int, b: int| 0 <= a < b < t.len() implies t[a].0 != t[b].0 by {}
        }
        lemma_to_map_entry(t, i);
    }
}

/// The map is finite; where no key occurs twice, it has as many entries as
/// the sequence has pairs.
pub proof fn lemma_to_map_len<K, V>(s: Seq<(K, V)>)
    ensures
        to_map(s).dom().finite(),
        distinct_keys(s) ==> to_map(s).len() == s.len(),
    decreases s.len(),
{
    if s.len() > 0 {
        let t = s.drop_last();
        lemma_to_map_len(t);
        if distinct_keys(s) {
            assert(distinct_keys(t)) by {
                assert forall|a: int, b: int| 0 <= a < b < t.len() implies t[a].0 != t[b].0 by {
                    assert(s[a].0 != s[b].0);
                }
            }
            lemma_to_map_dom(t, s.last().0);
            if has_key(t, s.last().0) {
                let i = choose|i: int| 0 <= i < t.len() && #[trigger] t[i].0 == s.last().0;
                assert(s[i].0 != s[s.len() - 1].0);
            }
        }
    }
}

/// Appending a pair with a new key leaves every key occurring once.
pub proof fn lemma_distinct_push<K, V>(s: Seq<(K, V)>, k: K, v: V)
    requires
        distinct_keys(s),
        !has_key(s, k),
    ensures
        distinct_keys(s.push((k, v))),
{
    let u = s.push((k, v));
    assert forall|a: int, b: int| 0 <= a < b < u.len() implies u[a].0 != u[b].0 by {}
}

/// Appending a pair sets the value of its key.
pub proof fn lemma_to_map_push<K, V>(s: Seq<(K, V)>, k: K, v: V)
    ensures
        to_map(s.push((k, v))) == to_map(s).insert(k, v),
{
    assert(s.push((k, v)).drop_last() == s);
}

/// Where no key occurs twice, replacing the value of the pair at `i` sets the
/// value of its key, and still no key occurs twice.
pub proof fn lemma_to_map_update<K, V>(s: Seq<(K, V)>, i: int, v: V)
    requires
        distinct_keys(s),
        0 <= i < s.len(),
    ensures
        distinct_keys(s.update(i, (s[i].0, v))),
        to_map(s.update(i, (s[i].0, v))) == to_map(s).insert(s[i].0, v),
    decreases s.len(),
{
    let u = s.update(i, (s[i].0, v));
    assert(distinct_keys(u)) by {
        assert forall|a: int, b: int| 0 <= a < b < u.len() implies u[a].0 != u[b].0 by {}
    }
    let t = s.drop_last();
    assert(distinct_keys(t)) by {
        assert forall|a: int, b: int| 0 <= a < b < t.len() implies t[a].0 != t[b].0 by {}
    }
    if i < s.len() - 1 {
        lemma_to_map_update(t, i, v);
        assert(u.drop_last() == t.update(i, (t[i].0, v)));
    } else {
        assert(u.drop_last() == t);
    }
}

/// Where the pairs of `t` are those of `s` with `f` applied to each value,
/// the map of `t` is that of `s` with `f` applied to each value.
pub proof fn lemma_to_map_pointwise<K, V, U>(s: Seq<(K, V)>, t: Seq<(K, U)>, f: spec_fn(V) -> U)
    requires
        s.len() == t.len(),
        forall|i: int| 0 <= i < s.len() ==> #[trigger] t[i] == (s[i].0, f(s[i].1)),
    ensures
        forall|k: K| to_map(t).contains_key(k) <==> to_map(s).contains_key(k),
        forall|k: K| to_map(s).contains_key(k) ==> #[trigger] to_map(t)[k] == f(to_map(s)[k]),
        distinct_keys(s) ==> distinct_keys(t),
    decreases s.len(),
{
    if s.len() > 0 {
        let s0 = s.drop_last();
        let t0 = t.drop_last();
        assert forall|i: int| 0 <= i < s0.len() implies #[trigger] t0[i] == (s0[i].0, f(s0[i].1)) by {}
        lemma_to_map_pointwise(s0, t0, f);
        assert forall|k: K| to_map(t).contains_key(k) <==> to_map(s).contains_key(k) by {
            assert(to_map(t0).contains_key(k) <==> to_map(s0).contains_key(k));
        }
        assert forall|k: K| to_map(s).contains_key(k) implies #[trigger] to_map(t)[k] == f(
            to_map(s)[k],
        ) by {
            if k != s.last().0 {
                assert(to_map(s0).contains_key(k));
            }
        }
    }
    if distinct_keys(s) {
        assert forall|a: int, b: int| 0 <= a < b < t.len() implies t[a].0 != t[b].0 by {}
    }
}

/// Where no key occurs twice, taking out the pair at `i` takes its key from
/// the map, and still no key occurs twice.
pub proof fn lemma_to_map_remove<K, V>(s: Seq<(K, V)>, i: int)
    requires
        distinct_keys(s),
        0 <= i < s.len(),
    ensures
        distinct_keys(s.remove(i)),
        to_map(s.remove(i)) == to_map(s).remove(s[i].0),
    decreases s.len(),
{
    let u = s.remove(i);
    assert(distinct_keys(u)) by {
        assert forall|a: int, b: int| 0 <= a < b < u.len() implies u[a].0 != u[b].0 by {
            let a0 = if a < i {
                a
            } else {
                a + 1
            };
            let b0 = if b < i {
                b
            } else {
                b + 1
            };
            assert(s[a0].0 != s[b0].0);
        }
    }
    let t = s.drop_last();
    assert(distinct_keys(t)) by {
        assert forall|a: int, b: int| 0 <= a < b < t.len() implies t[a].0 != t[b].0 by {
            assert(s[a].0 != s[b].0);
        }
    }
    if i < s.len() - 1 {
        lemma_to_map_remove(t, i);
        assert(u.drop_last() == t.remove(i));
        assert(u.last() == s.last());
        assert(s[i].0 != s[s.len() - 1].0);
        assert(to_map(u) =~= to_map(s).remove(s[i].0));
    } else {
        assert(u == t);
        lemma_to_map_dom(t, s[i].0);
        if has_key(t, s[i].0) {
            let j = choose|j: int| 0 <= j < t.len() && #[trigger] t[j].0 == s[i].0;
            assert(s[j].0 != s[i].0);
        }
        assert(to_map(u) =~= to_map(s).remove(s[i].0));
    }
}

} // verus!
