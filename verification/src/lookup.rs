//! Per-key lookups built from query rows, where a later row overrides an earlier one.

use std::collections::HashMap;
use vstd::prelude::*;

verus! {

/// The map that inserting `rows` in order builds: for each key, the value of
/// the last row with that key.
pub open spec fn latest_map<V>(rows: Seq<(i64, V)>) -> Map<i64, V>
    decreases rows.len(),
{
    if rows.len() == 0 {
        Map::empty()
    } else {
        latest_map(rows.drop_last()).insert(rows.last().0, rows.last().1)
    }
}

/// Each key of the rows maps to the value of its last row, and no other key
/// is in the lookup.
pub proof fn lemma_latest_map_last<V>(rows: Seq<(i64, V)>, i: int)
    requires
        0 <= i < rows.len(),
        forall|j: int| i < j < rows.len() ==> (#[trigger] rows[j]).0 != rows[i].0,
    ensures
        latest_map(rows).contains_key(rows[i].0),
        latest_map(rows)[rows[i].0] == rows[i].1,
    decreases rows.len(),
{
    if i < rows.len() - 1 {
        let t = rows.drop_last();
        assert forall|j: int| i < j < t.len() implies (#[trigger] t[j]).0 != t[i].0 by {
            assert(t[j] == rows[j]);
        }
        lemma_latest_map_last(t, i);
        assert(rows.last() == rows[rows.len() - 1]);
    }
}

/// The lookup has exactly the keys of the rows.
pub proof fn lemma_latest_map_keys<V>(rows: Seq<(i64, V)>, k: i64)
    ensures
        latest_map(rows).contains_key(k) <==> exists|j: int|
            0 <= j < rows.len() && (#[trigger] rows[j]).0 == k,
    decreases rows.len(),
{
    if rows.len() > 0 {
        let t = rows.drop_last();
        lemma_latest_map_keys(t, k);
        if exists|j: int| 0 <= j < t.len() && (#[trigger] t[j]).0 == k {
            let j = choose|j: int| 0 <= j < t.len() && (#[trigger] t[j]).0 == k;
            assert(rows[j] == t[j]);
        }
        if exists|j: int| 0 <= j < rows.len() && (#[trigger] rows[j]).0 == k {
            let j = choose|j: int| 0 <= j < rows.len() && (#[trigger] rows[j]).0 == k;
            if j < t.len() {
                assert(t[j] == rows[j]);
            }
        }
    }
}

/// Builds the lookup from key to the value of its last row (a partner's
/// opening balance, a product's custom price, a partner's revenue).
pub fn latest_by_key<V>(rows: Vec<(i64, V)>) -> (m: HashMap<i64, V>)
    ensures
        m@ == latest_map(rows@),
{
    broadcast use vstd::std_specs::hash::group_hash_axioms;

    let ghost all = rows@;
    let mut m: HashMap<i64, V> = HashMap::new();
    for entry in it: rows.into_iter()
        invariant
            it.seq() == all,
            m@ == latest_map(all.take(it.index() as int)),
    {
        proof {
            assert(all.take(it.index() + 1).drop_last() =~= all.take(it.index() as int));
        }
        let (k, v) = entry;
        m.insert(k, v);
    }
    proof {
        assert(all.take(all.len() as int) =~= all);
    }
    m
}

/// The items of a bulk price list that name both a partner and a product,
/// in their order, with the two ids taken out of their options.
pub open spec fn complete_items<T>(items: Seq<(Option<i64>, Option<i64>, T)>) -> Seq<(i64, i64, T)>
    decreases items.len(),
{
    if items.len() == 0 {
        Seq::empty()
    } else {
        let rest = complete_items(items.drop_last());
        match items.last() {
            (Some(p), Some(q), price) => rest.push((p, q, price)),
            _ => rest,
        }
    }
}

/// Keeps the bulk price items that name both a partner and a product.
pub fn complete_price_items<T>(items: Vec<(Option<i64>, Option<i64>, T)>) -> (r: Vec<
    (i64, i64, T),
>)
    ensures
        r@ == complete_items(items@),
{
    let ghost all = items@;
    let mut r: Vec<(i64, i64, T)> = Vec::new();
    for item in it: items.into_iter()
        invariant
            it.seq() == all,
            r@ == complete_items(all.take(it.index() as int)),
    {
        proof {
            assert(all.take(it.index() + 1).drop_last() =~= all.take(it.index() as int));
        }
        match item {
            (Some(p), Some(q), price) => r.push((p, q, price)),
            _ => {},
        }
    }
    proof {
        assert(all.take(all.len() as int) =~= all);
    }
    r
}

} // verus!
