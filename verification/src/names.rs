//! Ascending order of texts.

use crate::text::{self, texts};
use vstd::prelude::*;

verus! {

/// `a` stands before `b` in the order of code points.
pub open spec fn text_before(a: Seq<char>, b: Seq<char>) -> bool
    decreases a.len(),
{
    if b.len() == 0 {
        false
    } else if a.len() == 0 {
        true
    } else {
        a[0] < b[0] || (a[0] == b[0] && text_before(a.skip(1), b.skip(1)))
    }
}

/// Whether `a` stands before `b`.
pub fn is_before(a: &[char], b: &[char]) -> (r: bool)
    ensures
        r == text_before(a@, b@),
{
    let mut i: usize = 0;
    proof {
        assert(a@.skip(0) =~= a@);
        assert(b@.skip(0) =~= b@);
    }
    while i < a.len() && i < b.len() && a[i] == b[i]
        invariant
            i <= a@.len(),
            i <= b@.len(),
            text_before(a@.skip(i as int), b@.skip(i as int)) == text_before(a@, b@),
        decreases a.len() - i,
    {
        proof {
            assert(a@.skip(i as int).skip(1) =~= a@.skip(i + 1));
            assert(b@.skip(i as int).skip(1) =~= b@.skip(i + 1));
        }
        i += 1;
    }
    if i == b.len() {
        false
    } else if i == a.len() {
        true
    } else {
        a[i] < b[i]
    }
}

/// Of two different texts, one stands before the other.
pub proof fn text_order_is_total(a: Seq<char>, b: Seq<char>)
    ensures
        !text_before(a, a),
        text_before(a, b) ==> !text_before(b, a),
        text_before(a, b) || text_before(b, a) || a == b,
    decreases a.len(),
{
    if a.len() > 0 {
        text_order_is_total(a.skip(1), a.skip(1));
        if b.len() > 0 {
            text_order_is_total(a.skip(1), b.skip(1));
            if a[0] == b[0] && a.skip(1) == b.skip(1) {
                assert(a =~= seq![a[0]] + a.skip(1));
                assert(b =~= seq![b[0]] + b.skip(1));
            }
        }
    } else if b.len() == 0 {
        assert(a =~= b);
    }
}

/// What stands before a text stands before whatever that text stands before.
pub proof fn text_order_is_transitive(a: Seq<char>, b: Seq<char>, c: Seq<char>)
    requires
        text_before(a, b),
        text_before(b, c),
    ensures
        text_before(a, c),
    decreases a.len(),
{
    if a.len() > 0 && a[0] == b[0] && b[0] == c[0] {
        text_order_is_transitive(a.skip(1), b.skip(1), c.skip(1));
    }
}

/// Row `i` stands before row `j`: by its text, or by its place if the texts
/// are the same.
pub open spec fn row_before(v: Seq<Seq<char>>, i: usize, j: usize) -> bool {
    text_before(v[i as int], v[j as int]) || (v[i as int] == v[j as int] && i < j)
}

/// `order` holds every row once, in ascending order of their texts, rows with
/// the same text in their own order.
pub open spec fn is_ascending(v: Seq<Seq<char>>, order: Seq<usize>) -> bool {
    &&& order.len() == v.len()
    &&& order.no_duplicates()
    &&& forall|p: int| 0 <= p < order.len() ==> (#[trigger] order[p]) < v.len()
    &&& forall|p: int, q: int|
        0 <= p < q < order.len() ==> row_before(v, #[trigger] order[p], #[trigger] order[q])
}

/// The rows in ascending order of their texts.
pub fn ascending(v: &Vec<String>) -> (r: Vec<usize>)
    ensures
        is_ascending(texts(v@), r@),
{
    let ghost all = texts(v@);
    let mut order: Vec<usize> = Vec::new();
    let mut i: usize = 0;
    while i < v.len()
        invariant
            i <= v@.len(),
            all == texts(v@),
            order@.len() == i,
            order@.no_duplicates(),
            forall|p: int| 0 <= p < order@.len() ==> (#[trigger] order@[p]) < i,
            forall|p: int, q: int|
                0 <= p < q < order@.len() ==> row_before(
                    all,
                    #[trigger] order@[p],
                    #[trigger] order@[q],
                ),
        decreases v.len() - i,
    {
        let k = text::chars(v[i].as_str());
        let mut s: usize = 0;
        while s < order.len() && !is_before(&k, &text::chars(v[order[s]].as_str()))
            invariant
                s <= order@.len(),
                i < v@.len(),
                all == texts(v@),
                k@ == all[i as int],
                forall|p: int| 0 <= p < order@.len() ==> (#[trigger] order@[p]) < i,
                forall|p: int|
                    0 <= p < s ==> !text_before(k@, all[#[trigger] order@[p] as int]),
            decreases order.len() - s,
        {
            s += 1;
        }
        let ghost before = order@;
        order.insert(s, i);
        proof {
            let out = order@;
            assert forall|p: int| 0 <= p < out.len() implies #[trigger] out[p] == (if p < s {
                before[p]
            } else if p == s {
                i
            } else {
                before[p - 1]
            }) by {}
            assert forall|p: int, q: int| 0 <= p < q < out.len() implies row_before(
                all,
                #[trigger] out[p],
                #[trigger] out[q],
            ) by {
                let a = if p < s { p } else { p - 1 };
                let b = if q < s { q } else { q - 1 };
                if p != s && q != s {
                    assert(row_before(all, before[a], before[b]));
                } else if q == s {
                    text_order_is_total(k@, all[before[p] as int]);
                } else {
                    let first = all[before[s as int] as int];
                    assert(text_before(k@, first));
                    if b != s {
                        assert(row_before(all, before[s as int], before[b]));
                        if text_before(first, all[before[b] as int]) {
                            text_order_is_transitive(k@, first, all[before[b] as int]);
                        }
                    }
                }
            }
            assert(out.no_duplicates());
        }
        i += 1;
    }
    order
}

} // verus!
