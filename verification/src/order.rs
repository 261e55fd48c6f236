//! Ranking by descending keys. Rows with equal keys keep their order.

use vstd::prelude::*;

verus! {

/// A pair of keys; the first decides, the second breaks its ties.
pub type Key = (u128, u128);

/// The key of a reading that may be missing: a missing one ranks below zero.
pub open spec fn key_of(v: Option<u64>) -> u128 {
    match v {
        Some(x) => (x + 1) as u128,
        None => 0,
    }
}

/// The key of a reading that may be missing.
pub fn key(v: Option<u64>) -> (r: u128)
    ensures
        r == key_of(v),
{
    match v {
        Some(x) => x as u128 + 1,
        None => 0,
    }
}

/// `a` is the greater key.
pub open spec fn above(a: Key, b: Key) -> bool {
    a.0 > b.0 || (a.0 == b.0 && a.1 > b.1)
}

/// The first place at or after `p` whose row has a smaller key than `k`.
pub open spec fn slot(keys: Seq<Key>, order: Seq<usize>, k: Key, p: int) -> int
    decreases order.len() - p,
{
    if p < 0 || p >= order.len() {
        p
    } else if above(k, keys[order[p] as int]) {
        p
    } else {
        slot(keys, order, k, p + 1)
    }
}

/// The indices of the rows from the greatest key to the smallest: each row
/// stands behind the earlier rows whose keys are not smaller.
pub open spec fn ranking(keys: Seq<Key>) -> Seq<usize>
    decreases keys.len(),
{
    if keys.len() == 0 {
        Seq::empty()
    } else {
        let order = ranking(keys.drop_last());
        order.insert(slot(keys, order, keys.last(), 0), (keys.len() - 1) as usize)
    }
}

/// Row `i` stands before row `j` in a stable ranking.
pub open spec fn precedes(keys: Seq<Key>, i: usize, j: usize) -> bool {
    above(keys[i as int], keys[j as int]) || (keys[i as int] == keys[j as int] && i < j)
}

/// `order` holds every row once, by descending key, equal keys in row order.
pub open spec fn is_stable_ranking(keys: Seq<Key>, order: Seq<usize>) -> bool {
    &&& order.len() == keys.len()
    &&& order.no_duplicates()
    &&& forall|p: int| 0 <= p < order.len() ==> (#[trigger] order[p]) < keys.len()
    &&& forall|p: int, q: int|
        0 <= p < q < order.len() ==> precedes(keys, #[trigger] order[p], #[trigger] order[q])
}

proof fn slot_bounds(keys: Seq<Key>, order: Seq<usize>, k: Key, p: int)
    requires
        0 <= p <= order.len(),
    ensures
        p <= slot(keys, order, k, p) <= order.len(),
        forall|q: int|
            p <= q < slot(keys, order, k, p) ==> !above(k, keys[#[trigger] order[q] as int]),
        slot(keys, order, k, p) < order.len() ==> above(
            k,
            keys[order[slot(keys, order, k, p)] as int],
        ),
    decreases order.len() - p,
{
    if p < order.len() && !above(k, keys[order[p] as int]) {
        slot_bounds(keys, order, k, p + 1);
    }
}

/// A ranking is the stable sort of the rows by descending key.
pub proof fn ranking_is_stable(keys: Seq<Key>)
    requires
        keys.len() <= usize::MAX,
    ensures
        is_stable_ranking(keys, ranking(keys)),
    decreases keys.len(),
{
    if keys.len() > 0 {
        let short = keys.drop_last();
        ranking_is_stable(short);
        let order = ranking(short);
        let k = keys.last();
        let s = slot(keys, order, k, 0);
        slot_bounds(keys, order, k, 0);
        let n = (keys.len() - 1) as usize;
        let out = order.insert(s, n);
        assert(out == ranking(keys));
        assert forall|p: int| 0 <= p < order.len() implies short[order[p] as int]
            == keys[#[trigger] order[p] as int] by {}
        assert forall|p: int| 0 <= p < out.len() implies #[trigger] out[p] == (if p < s {
            order[p]
        } else if p == s {
            n
        } else {
            order[p - 1]
        }) by {}
        assert forall|p: int, q: int| 0 <= p < q < out.len() implies precedes(
            keys,
            #[trigger] out[p],
            #[trigger] out[q],
        ) by {
            let a = if p < s { p } else { p - 1 };
            let b = if q < s { q } else { q - 1 };
            if p != s && q != s {
                assert(precedes(short, order[a], order[b]));
            } else if q == s {
                assert(!above(k, keys[order[p] as int]));
            } else {
                assert(above(k, keys[order[s] as int]));
                if b != s {
                    assert(precedes(short, order[s], order[b]));
                }
            }
        }
        assert(out.no_duplicates());
    }
}

/// Every row occurs in the ranking.
pub proof fn ranking_holds_every_row(keys: Seq<Key>, i: usize)
    requires
        keys.len() <= usize::MAX,
        i < keys.len(),
    ensures
        ranking(keys).contains(i),
    decreases keys.len(),
{
    let order = ranking(keys.drop_last());
    let n = (keys.len() - 1) as usize;
    ranking_is_stable(keys.drop_last());
    slot_bounds(keys, order, keys.last(), 0);
    let s = slot(keys, order, keys.last(), 0);
    let out = order.insert(s, n);
    if i == n {
        assert(out[s] == n);
    } else {
        ranking_holds_every_row(keys.drop_last(), i);
        let p = choose|p: int| 0 <= p < order.len() && order[p] == i;
        assert(out[if p < s { p } else { p + 1 }] == i);
    }
}

/// The ranking of the rows with the given keys.
pub fn rank(keys: &Vec<Key>) -> (r: Vec<usize>)
    ensures
        r@ == ranking(keys@),
        is_stable_ranking(keys@, r@),
{
    let mut order: Vec<usize> = Vec::new();
    let mut i: usize = 0;
    while i < keys.len()
        invariant
            i <= keys@.len(),
            order@ == ranking(keys@.take(i as int)),
        decreases keys.len() - i,
    {
        let ghost short = keys@.take(i as int);
        let ghost longer = keys@.take(i + 1);
        proof {
            ranking_is_stable(short);
            assert(longer.drop_last() =~= short);
            assert(longer.last() == keys@[i as int]);
        }
        let k: Key = keys[i];
        let mut p: usize = 0;
        while p < order.len() && !(k.0 > keys[order[p]].0 || (k.0 == keys[order[p]].0 && k.1
            > keys[order[p]].1))
            invariant
                p <= order@.len(),
                i < keys@.len(),
                k == keys@[i as int],
                longer == keys@.take(i + 1),
                forall|q: int| 0 <= q < order@.len() ==> (#[trigger] order@[q]) < i,
                slot(longer, order@, k, 0) == slot(longer, order@, k, p as int),
            decreases order.len() - p,
        {
            p += 1;
        }
        order.insert(p, i);
        i += 1;
    }
    proof {
        assert(keys@.take(keys@.len() as int) =~= keys@);
        ranking_is_stable(keys@);
    }
    order
}

} // verus!
