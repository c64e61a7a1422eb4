use vstd::prelude::*;
use vstd::seq_lib::{commutative_foldl, lemma_fold_left_permutation};

verus! {

/// The weight of `key` in `m`; a key that is absent weighs 0.
pub open spec fn weight<K>(m: Map<K, int>, key: K) -> int {
    if m.contains_key(key) {
        m[key]
    } else {
        0
    }
}

/// The pointwise sum of two maps: a key is present when either map has it, and
/// weighs what it weighs in both together.
pub open spec fn merged<K>(a: Map<K, int>, b: Map<K, int>) -> Map<K, int> {
    Map::new(|key: K| a.contains_key(key) || b.contains_key(key), |key: K| weight(a, key) + weight(b, key))
}

/// Every weight of `m` is a 32-bit signed integer.
pub open spec fn fits<K>(m: Map<K, int>) -> bool {
    forall|key: K| #[trigger] m.contains_key(key) ==> i32::MIN <= m[key] <= i32::MAX
}

/// A map of 32-bit weights as a map of integers.
pub open spec fn widened<K>(m: Map<K, i32>) -> Map<K, int> {
    m.map_values(|w: i32| w as int)
}

/// Merging is commutative.
pub proof fn lemma_merged_commutative<K>(a: Map<K, int>, b: Map<K, int>)
    ensures
        merged(a, b) == merged(b, a),
{
    assert(merged(a, b) =~= merged(b, a));
}

/// Merging is associative.
pub proof fn lemma_merged_associative<K>(a: Map<K, int>, b: Map<K, int>, c: Map<K, int>)
    ensures
        merged(merged(a, b), c) == merged(a, merged(b, c)),
{
    assert(merged(merged(a, b), c) =~= merged(a, merged(b, c)));
}

/// The empty map is neutral for merging.
pub proof fn lemma_merged_empty<K>(a: Map<K, int>)
    ensures
        merged(a, Map::empty()) == a,
        merged(Map::empty(), a) == a,
{
    assert(merged(a, Map::empty()) =~= a);
    assert(merged(Map::empty(), a) =~= a);
}

/// The sum of `start` and all of `parts`.
pub open spec fn total<K>(start: Map<K, int>, parts: Seq<Map<K, int>>) -> Map<K, int>
    decreases parts.len(),
{
    if parts.len() == 0 {
        start
    } else {
        merged(total(start, parts.drop_last()), parts.last())
    }
}

/// Adding `parts` to `start` one after the other never leaves the 32-bit range.
pub open spec fn all_fit<K>(start: Map<K, int>, parts: Seq<Map<K, int>>) -> bool {
    forall|n: int| 0 <= n <= parts.len() ==> fits(#[trigger] total(start, parts.take(n)))
}

/// The sum of all is what folding the parts into `start` gives.
proof fn lemma_total_folds<K>(start: Map<K, int>, parts: Seq<Map<K, int>>)
    ensures
        total(start, parts) == parts.fold_left(
            start,
            |sum: Map<K, int>, part: Map<K, int>| merged(sum, part),
        ),
    decreases parts.len(),
{
    if parts.len() > 0 {
        lemma_total_folds(start, parts.drop_last());
    }
}

/// The sum of all does not depend on the order of the parts.
pub proof fn lemma_total_any_order<K>(
    start: Map<K, int>,
    parts: Seq<Map<K, int>>,
    others: Seq<Map<K, int>>,
)
    requires
        parts.to_multiset() == others.to_multiset(),
    ensures
        total(start, parts) == total(start, others),
{
    let f = |sum: Map<K, int>, part: Map<K, int>| merged(sum, part);
    assert(commutative_foldl(f)) by {
        assert forall|x: Map<K, int>, y: Map<K, int>, v: Map<K, int>| #[trigger]
            f(f(v, x), y) == f(f(v, y), x) by {
            assert(merged(merged(v, x), y) =~= merged(merged(v, y), x));
        }
    }
    lemma_total_folds(start, parts);
    lemma_total_folds(start, others);
    lemma_fold_left_permutation(parts, others, f, start);
}

/// `key` is one of the first `n` of `keys`.
pub open spec fn among<K>(keys: Seq<K>, n: int, key: K) -> bool {
    exists|j: int| 0 <= j < n && j < keys.len() && #[trigger] keys[j] == key
}

/// The part of `m` whose keys are among the first `n` of `keys`.
pub open spec fn part<K>(m: Map<K, int>, keys: Seq<K>, n: int) -> Map<K, int> {
    Map::new(|key: K| m.contains_key(key) && among(keys, n, key), |key: K| m[key])
}

/// One more key is among the first `n + 1` than among the first `n`: the one at `n`.
pub proof fn lemma_among_step<K>(keys: Seq<K>, n: int, key: K)
    requires
        0 <= n < keys.len(),
    ensures
        among(keys, n + 1, key) <==> among(keys, n, key) || keys[n] == key,
{
    if among(keys, n + 1, key) {
        let j = choose|j: int| 0 <= j < n + 1 && j < keys.len() && #[trigger] keys[j] == key;
        if j < n {
            assert(among(keys, n, key));
        }
    }
    if among(keys, n, key) {
        let j = choose|j: int| 0 <= j < n && j < keys.len() && #[trigger] keys[j] == key;
        assert(keys[j] == key);
    }
    if keys[n] == key {
        assert(among(keys, n + 1, key));
    }
}

/// Where no key occurs twice, the key at `n` is not among the first `n`.
pub proof fn lemma_among_fresh<K>(keys: Seq<K>, n: int)
    requires
        0 <= n < keys.len(),
        keys.no_duplicates(),
    ensures
        !among(keys, n, keys[n]),
{
    if among(keys, n, keys[n]) {
        let j = choose|j: int| 0 <= j < n && j < keys.len() && #[trigger] keys[j] == keys[n];
        assert(keys[j] == keys[n]);
    }
}

/// The part over a list that holds every key is the whole map.
pub proof fn lemma_part_whole<K>(m: Map<K, int>, keys: Seq<K>)
    requires
        forall|key: K| #[trigger] m.contains_key(key) ==> keys.contains(key),
    ensures
        part(m, keys, keys.len() as int) == m,
{
    assert forall|key: K| #[trigger] m.contains_key(key) implies among(
        keys,
        keys.len() as int,
        key,
    ) by {
        assert(keys.contains(key));
        let j = choose|j: int| 0 <= j < keys.len() && keys[j] == key;
        assert(keys[j] == key);
    }
    assert(part(m, keys, keys.len() as int) =~= m);
}

/// Merging the part up to `n + 1` is merging the part up to `n` and then adding
/// the weight of the key at `n`.
pub proof fn lemma_part_step<K>(base: Map<K, int>, m: Map<K, int>, keys: Seq<K>, n: int)
    requires
        0 <= n < keys.len(),
        keys.no_duplicates(),
        m.contains_key(keys[n]),
    ensures
        merged(base, part(m, keys, n + 1)) == merged(base, part(m, keys, n)).insert(
            keys[n],
            weight(base, keys[n]) + m[keys[n]],
        ),
        weight(merged(base, part(m, keys, n)), keys[n]) == weight(base, keys[n]),
{
    let now = merged(base, part(m, keys, n));
    let next = merged(base, part(m, keys, n + 1));
    let target = now.insert(keys[n], weight(base, keys[n]) + m[keys[n]]);
    lemma_among_fresh(keys, n);
    assert forall|key: K| #[trigger] next.contains_key(key) == target.contains_key(key) by {
        lemma_among_step(keys, n, key);
    }
    assert forall|key: K| #[trigger] next.contains_key(key) implies next[key] == target[key] by {
        lemma_among_step(keys, n, key);
    }
    assert(next =~= target);
}

/// The keys of the pairs that a walk through a map yields.
pub open spec fn keys_of<V>(pairs: Seq<(&u32, &V)>) -> Seq<u32> {
    Seq::new(pairs.len(), |i: int| *pairs[i].0)
}

/// The pairs are those of `m`, each once.
pub open spec fn walks<V>(pairs: Seq<(&u32, &V)>, m: Map<u32, V>) -> bool {
    &&& pairs.no_duplicates()
    &&& forall|i: int|
        0 <= i < pairs.len() ==> m.contains_key(*(#[trigger] pairs[i]).0) && m[*pairs[i].0]
            == *pairs[i].1
    &&& forall|k: u32| #[trigger] m.contains_key(k) ==> pairs.contains((&k, &m[k]))
}

/// A walk through a map meets every key once.
pub proof fn lemma_walk<V>(pairs: Seq<(&u32, &V)>, m: Map<u32, V>)
    requires
        walks(pairs, m),
    ensures
        keys_of(pairs).no_duplicates(),
        keys_of(pairs).to_set() == m.dom(),
        forall|k: u32| #[trigger] m.contains_key(k) ==> keys_of(pairs).contains(k),
        forall|i: int|
            0 <= i < pairs.len() ==> m.contains_key(#[trigger] keys_of(pairs)[i])
                && m[keys_of(pairs)[i]] == *pairs[i].1,
{
    let keys = keys_of(pairs);
    assert forall|i: int, j: int| 0 <= i < keys.len() && 0 <= j < keys.len() && i != j implies keys[i]
        != keys[j] by {
        if keys[i] == keys[j] {
            assert(*pairs[i].1 == m[*pairs[i].0]);
            assert(*pairs[j].1 == m[*pairs[j].0]);
            assert(pairs[i] == pairs[j]);
        }
    }
    assert forall|k: u32| #[trigger] m.contains_key(k) implies keys.contains(k) by {
        let p = (&k, &m[k]);
        assert(pairs.contains(p));
        let i = choose|i: int| 0 <= i < pairs.len() && pairs[i] == p;
        assert(keys[i] == k);
    }
    assert(keys.to_set() =~= m.dom()) by {
        assert forall|k: u32| keys.to_set().contains(k) implies m.dom().contains(k) by {
            assert(keys.contains(k));
            let i = choose|i: int| 0 <= i < keys.len() && keys[i] == k;
            assert(m.contains_key(*pairs[i].0));
        }
    }
}

} // verus!
