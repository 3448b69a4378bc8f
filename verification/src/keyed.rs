//! Maps kept as sequences of key/value pairs with distinct keys.

use vstd::prelude::*;

verus! {

/// The map that the pairs `s` describe (a later pair wins over an earlier
/// one with the same key; with distinct keys there is none).
pub open spec fn pairs_map<K, V>(s: Seq<(K, V)>) -> Map<K, V>
    decreases s.len(),
{
    if s.len() == 0 {
        Map::empty()
    } else {
        pairs_map(s.drop_last()).insert(s.last().0, s.last().1)
    }
}

/// Whether no key occurs twice in `s`.
pub open spec fn distinct_keys<K, V>(s: Seq<(K, V)>) -> bool {
    forall|i: int, j: int|
        0 <= i < s.len() && 0 <= j < s.len() && i != j ==> #[trigger] s[i].0 != #[trigger] s[j].0
}

/// A key is in the map exactly when some pair has it; the map is finite.
pub proof fn lemma_pairs_dom<K, V>(s: Seq<(K, V)>, k: K)
    ensures
        pairs_map(s).dom().contains(k) <==> exists|i: int| 0 <= i < s.len() && (#[trigger] s[i]).0 == k,
        pairs_map(s).dom().finite(),
    decreases s.len(),
{
    if s.len() > 0 {
        let t = s.drop_last();
        lemma_pairs_dom(t, k);
        if pairs_map(s).dom().contains(k) && k != s.last().0 {
            let i = choose|i: int| 0 <= i < t.len() && (#[trigger] t[i]).0 == k;
            assert(s[i] == t[i]);
        }
        if exists|i: int| 0 <= i < s.len() && (#[trigger] s[i]).0 == k {
            let i = choose|i: int| 0 <= i < s.len() && (#[trigger] s[i]).0 == k;
            if i < s.len() - 1 {
                assert(t[i] == s[i]);
            }
        }
    }
}

proof fn lemma_distinct_drop_last<K, V>(s: Seq<(K, V)>)
    requires
        distinct_keys(s),
        s.len() > 0,
    ensures
        distinct_keys(s.drop_last()),
{
    let t = s.drop_last();
    assert forall|a: int, b: int| 0 <= a < t.len() && 0 <= b < t.len() && a != b implies #[trigger] t[a].0
        != #[trigger] t[b].0 by {
        assert(t[a] == s[a] && t[b] == s[b]);
    }
}

/// With distinct keys, each pair's key maps to that pair's value.
pub proof fn lemma_pairs_value<K, V>(s: Seq<(K, V)>, i: int)
    requires
        distinct_keys(s),
        0 <= i < s.len(),
    ensures
        pairs_map(s).dom().contains(s[i].0),
        pairs_map(s)[s[i].0] == s[i].1,
    decreases s.len(),
{
    if i < s.len() - 1 {
        let t = s.drop_last();
        assert(t[i] == s[i]);
        lemma_distinct_drop_last(s);
        lemma_pairs_value(t, i);
        assert(s[i].0 != s[s.len() - 1].0);
    }
}

/// With distinct keys, the map has one key per pair.
pub proof fn lemma_pairs_len<K, V>(s: Seq<(K, V)>)
    requires
        distinct_keys(s),
    ensures
        pairs_map(s).dom().len() == s.len(),
    decreases s.len(),
{
    if s.len() > 0 {
        let t = s.drop_last();
        lemma_distinct_drop_last(s);
        lemma_pairs_len(t);
        lemma_pairs_dom(t, s.last().0);
        if pairs_map(t).dom().contains(s.last().0) {
            let i = choose|i: int| 0 <= i < t.len() && (#[trigger] t[i]).0 == s.last().0;
            assert(t[i] == s[i]);
            assert(false);
        }
    }
}

/// Replacing the value of a pair updates that key of the map.
pub proof fn lemma_pairs_update<K, V>(s: Seq<(K, V)>, i: int, v: V)
    requires
        distinct_keys(s),
        0 <= i < s.len(),
    ensures
        distinct_keys(s.update(i, (s[i].0, v))),
        pairs_map(s.update(i, (s[i].0, v))) == pairs_map(s).insert(s[i].0, v),
{
    let k0 = s[i].0;
    let u = s.update(i, (k0, v));
    assert(distinct_keys(u)) by {
        assert forall|a: int, b: int| 0 <= a < u.len() && 0 <= b < u.len() && a != b implies #[trigger] u[a].0
            != #[trigger] u[b].0 by {
            assert(u[a].0 == s[a].0);
            assert(u[b].0 == s[b].0);
        }
    }
    let lhs = pairs_map(u);
    let rhs = pairs_map(s).insert(k0, v);
    assert forall|k: K| lhs.dom().contains(k) <==> rhs.dom().contains(k) by {
        lemma_pairs_dom(u, k);
        lemma_pairs_dom(s, k);
        if lhs.dom().contains(k) {
            let j = choose|j: int| 0 <= j < u.len() && (#[trigger] u[j]).0 == k;
            assert(s[j].0 == k);
        }
        if pairs_map(s).dom().contains(k) {
            let j = choose|j: int| 0 <= j < s.len() && (#[trigger] s[j]).0 == k;
            assert(u[j].0 == k);
        }
    }
    assert forall|k: K| #[trigger] lhs.dom().contains(k) implies lhs[k] == rhs[k] by {
        lemma_pairs_dom(u, k);
        let j = choose|j: int| 0 <= j < u.len() && (#[trigger] u[j]).0 == k;
        lemma_pairs_value(u, j);
        if j != i {
            assert(u[j] == s[j]);
            lemma_pairs_value(s, j);
        }
    }
    assert(lhs =~= rhs);
}

/// Appending a pair with a new key inserts it into the map.
pub proof fn lemma_pairs_push<K, V>(s: Seq<(K, V)>, k: K, v: V)
    requires
        distinct_keys(s),
        !pairs_map(s).dom().contains(k),
    ensures
        distinct_keys(s.push((k, v))),
        pairs_map(s.push((k, v))) == pairs_map(s).insert(k, v),
{
    let n = s.push((k, v));
    assert(n.drop_last() =~= s);
    assert forall|j: int| 0 <= j < s.len() implies (#[trigger] s[j]).0 != k by {
        lemma_pairs_dom(s, k);
    }
    assert forall|a: int, b: int| 0 <= a < n.len() && 0 <= b < n.len() && a != b implies #[trigger] n[a].0
        != #[trigger] n[b].0 by {
        if a < s.len() {
            assert(n[a] == s[a]);
        }
        if b < s.len() {
            assert(n[b] == s[b]);
        }
    }
}

} // verus!
