use vstd::prelude::*;

verus! {

/// `perm` shows `out` to be `inp` ordered by `keys` (one key per item of
/// `inp`), ascending, with items of equal key in their order in `inp`.
pub open spec fn sorts_stably<T>(out: Seq<T>, inp: Seq<T>, keys: Seq<int>, perm: Seq<int>) -> bool {
    &&& out.len() == inp.len()
    &&& keys.len() == inp.len()
    &&& perm.len() == inp.len()
    &&& forall|k: int| 0 <= k < perm.len() ==> 0 <= #[trigger] perm[k] < inp.len()
    &&& forall|k: int| 0 <= k < perm.len() ==> #[trigger] out[k] == inp[perm[k]]
    &&& forall|a: int, b: int| 0 <= a < b < perm.len() ==> perm[a] != perm[b]
    &&& forall|a: int, b: int|
        #![trigger perm[a], perm[b]]
        0 <= a < b < perm.len() ==> keys[perm[a]] <= keys[perm[b]]
    &&& forall|a: int, b: int|
        #![trigger perm[a], perm[b]]
        0 <= a < b < perm.len() && keys[perm[a]] == keys[perm[b]] ==> perm[a] < perm[b]
}

/// `out` is `inp` stably sorted by `keys`, ascending: a permutation of `inp`
/// in which keys never decrease and items of equal key keep their order.
pub open spec fn is_stable_sort<T>(out: Seq<T>, inp: Seq<T>, keys: Seq<int>) -> bool {
    exists|perm: Seq<int>| sorts_stably(out, inp, keys, perm)
}

/// The keys as mathematical integers.
pub open spec fn int_keys(keys: Seq<i128>) -> Seq<int> {
    keys.map_values(|k: i128| k as int)
}

/// Sorts `items` by `keys` (the key of `items[i]` is `keys[i]`), ascending
/// and stable, as `slice::sort_by_key` does.
pub fn stable_sort_by_keys<T>(items: Vec<T>, keys: &Vec<i128>) -> (r: Vec<T>)
    requires
        items.len() == keys.len(),
    ensures
        is_stable_sort(r@, items@, int_keys(keys@)),
{
    let n: usize = items.len();
    let ghost orig = items@;
    let ghost ks = int_keys(keys@);
    let mut rest = items;
    let mut result: Vec<T> = Vec::new();
    let mut rkeys: Vec<i128> = Vec::new();
    let ghost mut perm: Seq<int> = Seq::empty();
    let mut i: usize = 0;
    while i < n
        invariant
            n == orig.len(),
            n == keys.len(),
            ks == int_keys(keys@),
            0 <= i <= n,
            rest@ == orig.subrange(i as int, n as int),
            result@.len() == i,
            rkeys@.len() == i,
            perm.len() == i,
            forall|k: int| 0 <= k < i ==> 0 <= #[trigger] perm[k] < i,
            forall|k: int| 0 <= k < i ==> #[trigger] result@[k] == orig[perm[k]],
            forall|k: int| 0 <= k < i ==> #[trigger] rkeys@[k] == ks[perm[k]],
            forall|a: int, b: int| 0 <= a < b < i ==> perm[a] != perm[b],
            forall|a: int, b: int| 0 <= a < b < i ==> rkeys@[a] <= rkeys@[b],
            forall|a: int, b: int|
                #![trigger perm[a], perm[b]]
                0 <= a < b < i && rkeys@[a] == rkeys@[b] ==> perm[a] < perm[b],
        decreases n - i,
    {
        let item = rest.remove(0);
        let key: i128 = keys[i];
        let mut pos: usize = 0;
        while pos < i && rkeys[pos] <= key
            invariant
                rkeys@.len() == i,
                0 <= pos <= i,
                forall|k: int| 0 <= k < pos ==> rkeys@[k] <= key,
            decreases i - pos,
        {
            pos = pos + 1;
        }
        proof {
            // everything from `pos` on has a larger key
            assert forall|k: int| pos <= k < i implies rkeys@[k] > key by {
                assert(rkeys@[pos as int] > key);
                assert(rkeys@[pos as int] <= rkeys@[k]);
            }
        }
        let ghost old_result = result@;
        let ghost old_rkeys = rkeys@;
        let ghost old_perm = perm;
        result.insert(pos, item);
        rkeys.insert(pos, key);
        proof {
            perm = old_perm.insert(pos as int, i as int);
            assert(ks[i as int] == key as int);
            assert forall|k: int| 0 <= k < i + 1 implies #[trigger] result@[k] == orig[perm[k]] by {
                if k < pos {
                } else if k == pos {
                } else {
                    assert(result@[k] == old_result[k - 1]);
                }
            }
            assert forall|k: int| 0 <= k < i + 1 implies #[trigger] rkeys@[k] == ks[perm[k]] by {
                if k < pos {
                } else if k == pos {
                } else {
                    assert(rkeys@[k] == old_rkeys[k - 1]);
                }
            }
            assert forall|k: int| 0 <= k < i + 1 implies 0 <= #[trigger] perm[k] < i + 1 by {
                if k < pos {
                } else if k == pos {
                } else {
                    assert(perm[k] == old_perm[k - 1]);
                }
            }
            assert forall|a: int, b: int| 0 <= a < b < i + 1 implies perm[a] != perm[b] by {
                if b < pos {
                } else if b == pos {
                    assert(old_perm[a] < i);
                } else if a < pos {
                    assert(perm[b] == old_perm[b - 1]);
                } else if a == pos {
                    assert(perm[b] == old_perm[b - 1]);
                    assert(old_perm[b - 1] < i);
                } else {
                    assert(perm[b] == old_perm[b - 1]);
                    assert(perm[a] == old_perm[a - 1]);
                }
            }
            assert forall|a: int, b: int| 0 <= a < b < i + 1 implies rkeys@[a] <= rkeys@[b] by {
                if b < pos {
                } else if b == pos {
                } else if a < pos {
                    assert(rkeys@[b] == old_rkeys[b - 1]);
                    assert(old_rkeys[b - 1] > key);
                } else if a == pos {
                    assert(rkeys@[b] == old_rkeys[b - 1]);
                } else {
                    assert(rkeys@[b] == old_rkeys[b - 1]);
                    assert(rkeys@[a] == old_rkeys[a - 1]);
                }
            }
            assert forall|a: int, b: int|
                #![trigger perm[a], perm[b]]
                0 <= a < b < i + 1 && rkeys@[a] == rkeys@[b] implies perm[a] < perm[b] by {
                if b < pos {
                } else if b == pos {
                    assert(old_perm[a] < i);
                } else if a < pos {
                    assert(rkeys@[b] == old_rkeys[b - 1]);
                    assert(old_rkeys[b - 1] > key);
                    assert(rkeys@[a] <= key);
                } else if a == pos {
                    assert(rkeys@[b] == old_rkeys[b - 1]);
                    assert(old_rkeys[b - 1] > key);
                } else {
                    assert(rkeys@[b] == old_rkeys[b - 1]);
                    assert(rkeys@[a] == old_rkeys[a - 1]);
                    assert(perm[b] == old_perm[b - 1]);
                    assert(perm[a] == old_perm[a - 1]);
                }
            }
            assert(rest@ == orig.subrange(i + 1, n as int));
        }
        i = i + 1;
    }
    proof {
        assert forall|a: int, b: int|
            #![trigger perm[a], perm[b]]
            0 <= a < b < perm.len() implies ks[perm[a]] <= ks[perm[b]] by {
            assert(rkeys@[a] == ks[perm[a]]);
            assert(rkeys@[b] == ks[perm[b]]);
        }
        assert forall|a: int, b: int|
            #![trigger perm[a], perm[b]]
            0 <= a < b < perm.len() && ks[perm[a]] == ks[perm[b]] implies perm[a] < perm[b] by {
            assert(rkeys@[a] == ks[perm[a]]);
            assert(rkeys@[b] == ks[perm[b]]);
        }
        assert(sorts_stably(result@, orig, ks, perm));
    }
    result
}

} // verus!
