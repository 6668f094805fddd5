//! Lists of key/value pairs read as maps: a later pair overrides an earlier
//! one with the same key.
use vstd::prelude::*;

verus! {

/// The map that a list of pairs gives, a later pair overriding an earlier
/// one with the same key.
pub open spec fn map_of<V>(pairs: Seq<(Seq<char>, V)>) -> Map<Seq<char>, V>
    decreases pairs.len(),
{
    if pairs.len() == 0 {
        Map::empty()
    } else {
        map_of(pairs.drop_last()).insert(pairs.last().0, pairs.last().1)
    }
}

/// No key occurs twice in the list.
pub open spec fn keys_distinct<V>(pairs: Seq<(Seq<char>, V)>) -> bool {
    forall|i: int, j: int| 0 <= i < j < pairs.len() ==> pairs[i].0 != pairs[j].0
}

/// The keys of the map are the keys in the list.
pub proof fn lemma_map_of_dom<V>(pairs: Seq<(Seq<char>, V)>, k: Seq<char>)
    ensures
        map_of(pairs).contains_key(k) <==> exists|i: int| 0 <= i < pairs.len() && pairs[i].0 == k,
    decreases pairs.len(),
{
    if pairs.len() > 0 {
        let d = pairs.drop_last();
        lemma_map_of_dom(d, k);
        if map_of(pairs).contains_key(k) {
            if k == pairs.last().0 {
                assert(pairs[pairs.len() - 1].0 == k);
            } else {
                let i = choose|i: int| 0 <= i < d.len() && d[i].0 == k;
                assert(pairs[i].0 == k);
            }
        }
        if exists|i: int| 0 <= i < pairs.len() && pairs[i].0 == k {
            let i = choose|i: int| 0 <= i < pairs.len() && pairs[i].0 == k;
            if i < pairs.len() - 1 {
                assert(d[i].0 == k);
            }
        }
    }
}

/// Dropping the last pair keeps the keys distinct.
proof fn lemma_distinct_drop_last<V>(pairs: Seq<(Seq<char>, V)>)
    requires
        keys_distinct(pairs),
        pairs.len() > 0,
    ensures
        keys_distinct(pairs.drop_last()),
{
    let d = pairs.drop_last();
    assert forall|a: int, b: int| 0 <= a < b < d.len() implies d[a].0 != d[b].0 by {
        assert(d[a] == pairs[a]);
        assert(d[b] == pairs[b]);
    }
}

/// With distinct keys, each pair's key maps to that pair's value.
pub proof fn lemma_map_of_index<V>(pairs: Seq<(Seq<char>, V)>, i: int)
    requires
        keys_distinct(pairs),
        0 <= i < pairs.len(),
    ensures
        map_of(pairs).contains_key(pairs[i].0),
        map_of(pairs)[pairs[i].0] == pairs[i].1,
    decreases pairs.len(),
{
    if i < pairs.len() - 1 {
        let d = pairs.drop_last();
        lemma_distinct_drop_last(pairs);
        assert(d[i] == pairs[i]);
        lemma_map_of_index(d, i);
        assert(pairs[i].0 != pairs[pairs.len() - 1].0);
    }
}

/// Replacing the value of a pair, the keys being distinct, sets that key
/// to the new value.
pub proof fn lemma_map_of_update<V>(pairs: Seq<(Seq<char>, V)>, i: int, v: V)
    requires
        keys_distinct(pairs),
        0 <= i < pairs.len(),
    ensures
        keys_distinct(pairs.update(i, (pairs[i].0, v))),
        map_of(pairs.update(i, (pairs[i].0, v))) == map_of(pairs).insert(pairs[i].0, v),
{
    let u = pairs.update(i, (pairs[i].0, v));
    let m = map_of(pairs).insert(pairs[i].0, v);
    assert forall|a: int, b: int| 0 <= a < b < u.len() implies u[a].0 != u[b].0 by {
        assert(u[a].0 == pairs[a].0);
        assert(u[b].0 == pairs[b].0);
    }
    assert forall|k: Seq<char>| map_of(u).contains_key(k) <==> m.contains_key(k) by {
        lemma_map_of_dom(u, k);
        lemma_map_of_dom(pairs, k);
        if exists|j: int| 0 <= j < u.len() && u[j].0 == k {
            let j = choose|j: int| 0 <= j < u.len() && u[j].0 == k;
            assert(pairs[j].0 == k);
        }
        if exists|j: int| 0 <= j < pairs.len() && pairs[j].0 == k {
            let j = choose|j: int| 0 <= j < pairs.len() && pairs[j].0 == k;
            assert(u[j].0 == k);
        }
        if k == pairs[i].0 {
            assert(u[i].0 == k);
        }
    }
    assert forall|k: Seq<char>| #[trigger] map_of(u).contains_key(k) implies map_of(u)[k] == m[k] by {
        lemma_map_of_dom(u, k);
        let j = choose|j: int| 0 <= j < u.len() && u[j].0 == k;
        lemma_map_of_index(u, j);
        if j != i {
            assert(u[j] == pairs[j]);
            lemma_map_of_index(pairs, j);
        }
    }
    assert(map_of(u) =~= m);
}

/// Appending a pair whose key is new keeps the keys distinct.
pub proof fn lemma_distinct_push<V>(pairs: Seq<(Seq<char>, V)>, k: Seq<char>, v: V)
    requires
        keys_distinct(pairs),
        forall|i: int| 0 <= i < pairs.len() ==> pairs[i].0 != k,
    ensures
        keys_distinct(pairs.push((k, v))),
        map_of(pairs.push((k, v))) == map_of(pairs).insert(k, v),
{
    let p = pairs.push((k, v));
    assert(p.drop_last() =~= pairs);
    assert forall|a: int, b: int| 0 <= a < b < p.len() implies p[a].0 != p[b].0 by {
        if b < pairs.len() {
            assert(p[a] == pairs[a]);
            assert(p[b] == pairs[b]);
        } else {
            assert(p[a] == pairs[a]);
        }
    }
}

} // verus!
