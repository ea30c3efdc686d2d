//! Lists of keys and values, in which no key occurs twice, as maps.
use vstd::prelude::*;

verus! {

/// No key occurs twice.
pub open spec fn keys_distinct<K, V>(pairs: Seq<(K, V)>) -> bool {
    forall|i: int, j: int|
        #![trigger pairs[i], pairs[j]]
        0 <= i < j < pairs.len() ==> pairs[i].0 != pairs[j].0
}

/// The key `key` stands at place `i`.
pub open spec fn key_at<K, V>(pairs: Seq<(K, V)>, key: K, i: int) -> bool {
    0 <= i < pairs.len() && pairs[i].0 == key
}

/// The list as a map.
pub open spec fn pairs_map<K, V>(pairs: Seq<(K, V)>) -> Map<K, V> {
    Map::new(
        |key: K| exists|i: int| key_at(pairs, key, i),
        |key: K| pairs[choose|i: int| key_at(pairs, key, i)].1,
    )
}

pub(crate) proof fn lemma_pair_at<K, V>(pairs: Seq<(K, V)>, i: int)
    requires
        keys_distinct(pairs),
        0 <= i < pairs.len(),
    ensures
        pairs_map(pairs).contains_key(pairs[i].0),
        pairs_map(pairs)[pairs[i].0] == pairs[i].1,
{
    let key = pairs[i].0;
    assert(key_at(pairs, key, i));
    let j = choose|j: int| key_at(pairs, key, j);
    assert(key_at(pairs, key, j));
    if i < j {
        assert(pairs[i].0 != pairs[j].0);
    }
    if j < i {
        assert(pairs[j].0 != pairs[i].0);
    }
}

pub(crate) proof fn lemma_pairs_update<K, V>(pairs: Seq<(K, V)>, i: int, value: V)
    requires
        keys_distinct(pairs),
        0 <= i < pairs.len(),
    ensures
        keys_distinct(pairs.update(i, (pairs[i].0, value))),
        pairs_map(pairs.update(i, (pairs[i].0, value))) == pairs_map(pairs).insert(
            pairs[i].0,
            value,
        ),
{
    let next = pairs.update(i, (pairs[i].0, value));
    assert forall|a: int, b: int|
        #![trigger next[a], next[b]]
        0 <= a < b < next.len() implies next[a].0 != next[b].0 by {
        assert(pairs[a].0 != pairs[b].0);
    }
    let left = pairs_map(next);
    let right = pairs_map(pairs).insert(pairs[i].0, value);
    assert forall|k: K| #[trigger] left.contains_key(k) implies right.contains_key(k) && left[k]
        == right[k] by {
        let a = choose|a: int| key_at(next, k, a);
        lemma_pair_at(next, a);
        lemma_pair_at(pairs, a);
        if a != i && pairs[a].0 == pairs[i].0 {
            lemma_pair_at(pairs, i);
            if a < i {
                assert(pairs[a].0 != pairs[i].0);
            } else {
                assert(pairs[i].0 != pairs[a].0);
            }
        }
    }
    assert forall|k: K| #[trigger] right.contains_key(k) implies left.contains_key(k) by {
        if k == pairs[i].0 {
            lemma_pair_at(next, i);
        } else {
            let a = choose|a: int| key_at(pairs, k, a);
            lemma_pair_at(next, a);
        }
    }
    assert(left =~= right);
}

pub(crate) proof fn lemma_pairs_push<K, V>(pairs: Seq<(K, V)>, key: K, value: V)
    requires
        keys_distinct(pairs),
        !pairs_map(pairs).contains_key(key),
    ensures
        keys_distinct(pairs.push((key, value))),
        pairs_map(pairs.push((key, value))) == pairs_map(pairs).insert(key, value),
{
    let next = pairs.push((key, value));
    let n = pairs.len() as int;
    assert forall|a: int, b: int|
        #![trigger next[a], next[b]]
        0 <= a < b < next.len() implies next[a].0 != next[b].0 by {
        lemma_pair_at(pairs, a);
        if b < n {
            assert(pairs[a].0 != pairs[b].0);
        }
    }
    let left = pairs_map(next);
    let right = pairs_map(pairs).insert(key, value);
    assert forall|k: K| #[trigger] left.contains_key(k) implies right.contains_key(k) && left[k]
        == right[k] by {
        let a = choose|a: int| key_at(next, k, a);
        lemma_pair_at(next, a);
        if a < n {
            lemma_pair_at(pairs, a);
        }
    }
    assert forall|k: K| #[trigger] right.contains_key(k) implies left.contains_key(k) by {
        if k == key {
            lemma_pair_at(next, n);
        } else {
            let a = choose|a: int| key_at(pairs, k, a);
            lemma_pair_at(next, a);
        }
    }
    assert(left =~= right);
}

pub(crate) proof fn lemma_pairs_remove<K, V>(pairs: Seq<(K, V)>, i: int)
    requires
        keys_distinct(pairs),
        0 <= i < pairs.len(),
    ensures
        keys_distinct(pairs.remove(i)),
        pairs_map(pairs.remove(i)) == pairs_map(pairs).remove(pairs[i].0),
{
    let rest = pairs.remove(i);
    assert forall|a: int, b: int|
        #![trigger rest[a], rest[b]]
        0 <= a < b < rest.len() implies rest[a].0 != rest[b].0 by {
        let a0 = if a < i { a } else { a + 1 };
        let b0 = if b < i { b } else { b + 1 };
        assert(pairs[a0].0 != pairs[b0].0);
    }
    let left = pairs_map(rest);
    let right = pairs_map(pairs).remove(pairs[i].0);
    assert forall|k: K| #[trigger] left.contains_key(k) implies right.contains_key(k) && left[k]
        == right[k] by {
        let a = choose|a: int| key_at(rest, k, a);
        let a0 = if a < i { a } else { a + 1 };
        lemma_pair_at(rest, a);
        lemma_pair_at(pairs, a0);
        if a0 < i {
            assert(pairs[a0].0 != pairs[i].0);
        } else {
            assert(pairs[i].0 != pairs[a0].0);
        }
    }
    assert forall|k: K| #[trigger] right.contains_key(k) implies left.contains_key(k) by {
        let a = choose|a: int| key_at(pairs, k, a);
        assert(a != i);
        lemma_pair_at(rest, if a < i { a } else { a - 1 });
    }
    assert(left =~= right);
}

} // verus!
