use vstd::prelude::*;

verus! {

/// The keys of a sequence of key-item pairs.
pub open spec fn keys_of<K, V>(pairs: Seq<(K, V)>) -> Seq<K> {
    pairs.map_values(|p: (K, V)| p.0)
}

/// The distinct elements of `s`, each where it first occurs.
pub open spec fn first_seen<K>(s: Seq<K>) -> Seq<K>
    decreases s.len(),
{
    if s.len() == 0 {
        Seq::empty()
    } else {
        let rest = first_seen(s.drop_last());
        if rest.contains(s.last()) {
            rest
        } else {
            rest.push(s.last())
        }
    }
}

/// The items paired with `key`, in order.
pub open spec fn items_with_key<K, V>(pairs: Seq<(K, V)>, key: K) -> Seq<V>
    decreases pairs.len(),
{
    if pairs.len() == 0 {
        Seq::empty()
    } else {
        let rest = items_with_key(pairs.drop_last(), key);
        if pairs.last().0 == key {
            rest.push(pairs.last().1)
        } else {
            rest
        }
    }
}

/// No element occurs twice in `s`.
pub open spec fn all_distinct<K>(s: Seq<K>) -> bool {
    forall|a: int, b: int| 0 <= a < b < s.len() ==> s[a] != s[b]
}

/// `first_seen(s)` holds exactly the elements of `s`.
pub proof fn lemma_first_seen_contains<K>(s: Seq<K>, x: K)
    ensures
        first_seen(s).contains(x) <==> s.contains(x),
    decreases s.len(),
{
    if s.len() > 0 {
        lemma_first_seen_contains(s.drop_last(), x);
        let rest = first_seen(s.drop_last());
        if s.drop_last().contains(x) {
            let i = choose|i: int| 0 <= i < s.drop_last().len() && s.drop_last()[i] == x;
            assert(s[i] == x);
        }
        if s.contains(x) {
            let i = choose|i: int| 0 <= i < s.len() && s[i] == x;
            if i < s.len() - 1 {
                assert(s.drop_last()[i] == x);
            }
        }
        if !rest.contains(s.last()) {
            assert(rest.push(s.last())[rest.len() as int] == s.last());
            if rest.contains(x) {
                let i = choose|i: int| 0 <= i < rest.len() && rest[i] == x;
                assert(rest.push(s.last())[i] == x);
            }
            if rest.push(s.last()).contains(x) {
                let i = choose|i: int| 0 <= i < rest.len() + 1 && rest.push(s.last())[i] == x;
                if i < rest.len() {
                    assert(rest[i] == x);
                }
            }
        }
    }
}

/// No element occurs twice in `first_seen(s)`.
pub proof fn lemma_first_seen_distinct<K>(s: Seq<K>)
    ensures
        all_distinct(first_seen(s)),
    decreases s.len(),
{
    if s.len() > 0 {
        lemma_first_seen_distinct(s.drop_last());
        let rest = first_seen(s.drop_last());
        if !rest.contains(s.last()) {
            let r = rest.push(s.last());
            assert forall|a: int, b: int| 0 <= a < b < r.len() implies r[a] != r[b] by {
                if b == rest.len() {
                    assert(r[a] == rest[a]);
                    if r[a] == r[b] {
                        assert(rest.contains(s.last()));
                    }
                }
            }
        }
    }
}

/// A key that no pair carries has no items.
pub proof fn lemma_items_of_absent_key<K, V>(pairs: Seq<(K, V)>, key: K)
    requires
        !keys_of(pairs).contains(key),
    ensures
        items_with_key(pairs, key) == Seq::<V>::empty(),
    decreases pairs.len(),
{
    if pairs.len() > 0 {
        let front = pairs.drop_last();
        if keys_of(front).contains(key) {
            let i = choose|i: int| 0 <= i < keys_of(front).len() && keys_of(front)[i] == key;
            assert(keys_of(pairs)[i] == key);
        }
        assert(keys_of(pairs)[pairs.len() - 1] == pairs.last().0);
        lemma_items_of_absent_key(front, key);
    }
}

/// Keys and items of one more pair.
pub proof fn lemma_push_pair<K, V>(pairs: Seq<(K, V)>, p: (K, V))
    ensures
        keys_of(pairs.push(p)) == keys_of(pairs).push(p.0),
        pairs.push(p).drop_last() == pairs,
        pairs.push(p).last() == p,
{
    assert(keys_of(pairs.push(p)) =~= keys_of(pairs).push(p.0));
    assert(pairs.push(p).drop_last() =~= pairs);
}

/// The pairs grouped by key: each key, where it first occurs, with its items.
pub open spec fn groups_of<K, V>(pairs: Seq<(K, V)>) -> Seq<(K, Seq<V>)> {
    first_seen(keys_of(pairs)).map_values(|k: K| (k, items_with_key(pairs, k)))
}

/// One more pair whose key already has a group: the item joins that group.
pub proof fn lemma_groups_push_known<K, V>(pairs: Seq<(K, V)>, p: (K, V), g: int)
    requires
        0 <= g < groups_of(pairs).len(),
        groups_of(pairs)[g].0 == p.0,
    ensures
        groups_of(pairs.push(p)) == groups_of(pairs).update(g, (p.0, groups_of(pairs)[g].1.push(p.1))),
{
    let old_keys = first_seen(keys_of(pairs));
    lemma_push_pair(pairs, p);
    assert(old_keys[g] == p.0);
    assert(old_keys.contains(p.0));
    assert(keys_of(pairs.push(p)).drop_last() =~= keys_of(pairs));
    assert(first_seen(keys_of(pairs.push(p))) == old_keys);
    lemma_first_seen_distinct(keys_of(pairs));
    let lhs = groups_of(pairs.push(p));
    let rhs = groups_of(pairs).update(g, (p.0, groups_of(pairs)[g].1.push(p.1)));
    assert forall|k: int| 0 <= k < lhs.len() implies lhs[k] == rhs[k] by {
        if k != g {
            assert(old_keys[k] != old_keys[g]);
        }
    }
    assert(lhs =~= rhs);
}

/// One more pair whose key has no group yet: a new group follows the others.
pub proof fn lemma_groups_push_new<K, V>(pairs: Seq<(K, V)>, p: (K, V))
    requires
        forall|k: int| 0 <= k < groups_of(pairs).len() ==> groups_of(pairs)[k].0 != p.0,
    ensures
        groups_of(pairs.push(p)) == groups_of(pairs).push((p.0, seq![p.1])),
{
    let old_keys = first_seen(keys_of(pairs));
    lemma_push_pair(pairs, p);
    assert(!old_keys.contains(p.0)) by {
        if old_keys.contains(p.0) {
            let k = choose|k: int| 0 <= k < old_keys.len() && old_keys[k] == p.0;
            assert(groups_of(pairs)[k].0 == p.0);
        }
    }
    assert(keys_of(pairs.push(p)).drop_last() =~= keys_of(pairs));
    assert(first_seen(keys_of(pairs.push(p))) == old_keys.push(p.0));
    lemma_first_seen_contains(keys_of(pairs), p.0);
    lemma_items_of_absent_key(pairs, p.0);
    let lhs = groups_of(pairs.push(p));
    let rhs = groups_of(pairs).push((p.0, seq![p.1]));
    assert forall|k: int| 0 <= k < lhs.len() implies lhs[k] == rhs[k] by {
        if k < old_keys.len() {
            assert(old_keys[k] != p.0);
        } else {
            assert(items_with_key(pairs.push(p), p.0) =~= seq![p.1]);
        }
    }
    assert(lhs =~= rhs);
}

/// The item of a pair is among the items of its key, and its key among the
/// keys.
pub proof fn lemma_pair_in_group<K, V>(pairs: Seq<(K, V)>, m: int)
    requires
        0 <= m < pairs.len(),
    ensures
        keys_of(pairs).contains(pairs[m].0),
        items_with_key(pairs, pairs[m].0).contains(pairs[m].1),
    decreases pairs.len(),
{
    assert(keys_of(pairs)[m] == pairs[m].0);
    let k = pairs[m].0;
    if m == pairs.len() - 1 {
        let items = items_with_key(pairs, k);
        assert(items == items_with_key(pairs.drop_last(), k).push(pairs[m].1));
        assert(items[items.len() - 1] == pairs[m].1);
    } else {
        let front = pairs.drop_last();
        assert(front[m] == pairs[m]);
        lemma_pair_in_group(front, m);
        let before = items_with_key(front, k);
        let j = choose|j: int| 0 <= j < before.len() && before[j] == pairs[m].1;
        if pairs.last().0 == k {
            assert(items_with_key(pairs, k)[j] == pairs[m].1);
        }
    }
}

} // verus!
