//! Ordering lists by a key.

use vstd::prelude::*;

verus! {

/// The item at position `a` comes before the item at position `b`: it has the
/// larger key or, among equal keys, stood first.
pub open spec fn ranks_before(keys: Seq<i128>, a: usize, b: usize) -> bool {
    keys[a as int] > keys[b as int] || keys[a as int] == keys[b as int] && a < b
}

/// `order` lists every position of `keys` once, largest key first.
pub open spec fn is_descending_order(keys: Seq<i128>, order: Seq<usize>) -> bool {
    &&& order.len() == keys.len()
    &&& forall|p: int| 0 <= p < order.len() ==> (#[trigger] order[p]) < keys.len()
    &&& forall|p: int, q: int|
        0 <= p < q < order.len() ==> ranks_before(keys, #[trigger] order[p], #[trigger] order[q])
}

/// The positions of `keys`, largest key first and equal keys in their order.
pub fn descending(keys: &Vec<i128>) -> (order: Vec<usize>)
    ensures
        is_descending_order(keys@, order@),
{
    let mut order: Vec<usize> = Vec::new();
    let mut i: usize = 0;
    while i < keys.len()
        invariant
            i <= keys.len(),
            order.len() == i,
            forall|p: int| 0 <= p < order.len() ==> (#[trigger] order@[p]) < i,
            forall|p: int, q: int|
                0 <= p < q < order.len() ==> ranks_before(
                    keys@,
                    #[trigger] order@[p],
                    #[trigger] order@[q],
                ),
        decreases keys.len() - i,
    {
        let mut at: usize = order.len();
        while at > 0 && keys[order[at - 1]] < keys[i]
            invariant
                at <= order.len(),
                i < keys.len(),
                order.len() == i,
                forall|p: int| 0 <= p < order.len() ==> (#[trigger] order@[p]) < i,
                forall|p: int|
                    at <= p < order.len() ==> keys@[(#[trigger] order@[p]) as int] < keys@[i as int],
            decreases at,
        {
            at -= 1;
        }
        let ghost before = order@;
        order.insert(at, i);
        proof {
            assert forall|p: int, q: int| 0 <= p < q < order.len() implies ranks_before(
                keys@,
                #[trigger] order@[p],
                #[trigger] order@[q],
            ) by {
                let old_p = if p < at { p } else { p - 1 };
                let old_q = if q < at { q } else { q - 1 };
                if p == at {
                    assert(order@[q] == before[old_q]);
                } else if q == at {
                    assert(order@[p] == before[old_p]);
                    if p < at - 1 {
                        assert(ranks_before(keys@, before[p], before[at - 1]));
                    }
                } else {
                    assert(order@[p] == before[old_p]);
                    assert(order@[q] == before[old_q]);
                }
            }
        }
        i += 1;
    }
    order
}

/// Every position occurs in a descending order.
pub proof fn law_order_is_complete(keys: Seq<i128>, order: Seq<usize>, i: usize)
    requires
        is_descending_order(keys, order),
        keys.len() <= usize::MAX,
        i < keys.len(),
    ensures
        order.contains(i),
{
    // Distinct positions below a bound: there is no room to leave one out.
    assert forall|p: int, q: int| 0 <= p < q < order.len() implies order[p] != order[q] by {
        assert(ranks_before(keys, order[p], order[q]));
    }
    assert(order.no_duplicates());
    let set = order.to_set();
    order.unique_seq_to_set();
    let all = Set::new(|x: usize| x < keys.len());
    lemma_below_is_finite(keys.len());
    assert(set.subset_of(all));
    vstd::set_lib::lemma_subset_equality(set, all);
    assert(set.contains(i));
}

/// There are `n` numbers below `n`.
proof fn lemma_below_is_finite(n: nat)
    requires
        n <= usize::MAX,
    ensures
        Set::new(|x: usize| x < n).finite(),
        Set::new(|x: usize| x < n).len() == n,
    decreases n,
{
    let all = Set::new(|x: usize| x < n);
    if n == 0 {
        assert(all =~= Set::empty());
    } else {
        let less = Set::new(|x: usize| x < n - 1);
        lemma_below_is_finite((n - 1) as nat);
        assert(all =~= less.insert((n - 1) as usize));
    }
}

/// `out` holds the values of `values`, each once, smallest first.
pub open spec fn is_distinct_ascending(values: Seq<i64>, out: Seq<i64>) -> bool {
    &&& forall|p: int, q: int| 0 <= p < q < out.len() ==> (#[trigger] out[p]) < (#[trigger] out[q])
    &&& forall|x: i64| out.contains(x) <==> values.contains(x)
}

/// The values that occur, each once, smallest first.
pub fn distinct_ascending(values: &Vec<i64>) -> (out: Vec<i64>)
    ensures
        is_distinct_ascending(values@, out@),
{
    let mut out: Vec<i64> = Vec::new();
    let mut i: usize = 0;
    while i < values.len()
        invariant
            i <= values.len(),
            out.len() <= i,
            is_distinct_ascending(values@.take(i as int), out@),
        decreases values.len() - i,
    {
        let v: i64 = values[i];
        let mut at: usize = out.len();
        while at > 0 && out[at - 1] > v
            invariant
                at <= out.len(),
                forall|p: int| at <= p < out.len() ==> (#[trigger] out@[p]) > v,
            decreases at,
        {
            at -= 1;
        }
        let ghost before = out@;
        let ghost seen = values@.take(i as int);
        let ghost now = values@.take(i + 1);
        proof {
            assert(now =~= seen.push(v));
            assert(forall|x: i64| now.contains(x) <==> (seen.contains(x) || x == v)) by {
                assert forall|x: i64| now.contains(x) implies seen.contains(x) || x == v by {
                    let k = choose|k: int| 0 <= k < now.len() && now[k] == x;
                    if k < seen.len() {
                        assert(seen[k] == x);
                    }
                }
                assert forall|x: i64| seen.contains(x) || x == v implies now.contains(x) by {
                    if x == v {
                        assert(now[i as int] == v);
                    } else {
                        let k = choose|k: int| 0 <= k < seen.len() && seen[k] == x;
                        assert(now[k] == x);
                    }
                }
            }
        }
        if at > 0 && out[at - 1] == v {
            proof {
                assert(before.contains(v)) by {
                    assert(before[at - 1] == v);
                }
            }
        } else {
            out.insert(at, v);
            proof {
                assert forall|x: i64| out@.contains(x) <==> (before.contains(x) || x == v) by {
                    if out@.contains(x) {
                        let k = choose|k: int| 0 <= k < out@.len() && out@[k] == x;
                        if k < at {
                            assert(before[k] == x);
                        } else if k > at {
                            assert(before[k - 1] == x);
                        }
                    }
                    if before.contains(x) {
                        let k = choose|k: int| 0 <= k < before.len() && before[k] == x;
                        if k < at {
                            assert(out@[k] == x);
                        } else {
                            assert(out@[k + 1] == x);
                        }
                    }
                    assert(out@[at as int] == v);
                }
                assert forall|p: int, q: int| 0 <= p < q < out@.len() implies (#[trigger] out@[p])
                    < (#[trigger] out@[q]) by {
                    let old_p = if p < at { p } else { p - 1 };
                    let old_q = if q < at { q } else { q - 1 };
                    if p == at {
                        assert(out@[q] == before[old_q]);
                    } else if q == at {
                        assert(out@[p] == before[old_p]);
                        if p < at - 1 {
                            assert(before[p] < before[at - 1]);
                        }
                    } else {
                        assert(out@[p] == before[old_p]);
                        assert(out@[q] == before[old_q]);
                    }
                }
            }
        }
        i += 1;
    }
    proof {
        assert(values@.take(values@.len() as int) =~= values@);
    }
    out
}

/// In a descending order no key is followed by a larger one, equal keys stay in order, and no
/// position occurs twice.
pub proof fn law_order_descends(keys: Seq<i128>, order: Seq<usize>, p: int, q: int)
    requires
        is_descending_order(keys, order),
        0 <= p < q < order.len(),
    ensures
        keys[order[p] as int] >= keys[order[q] as int],
        keys[order[p] as int] == keys[order[q] as int] ==> order[p] < order[q],
        order[p] != order[q],
        order.len() == keys.len(),
{
    assert(ranks_before(keys, order[p], order[q]));
}

/// The greater key ranks first, and of equal keys the one that came first: of two different
/// places exactly one ranks before the other.
pub proof fn law_one_of_two_ranks_first(keys: Seq<i128>, a: usize, b: usize)
    requires
        a != b,
    ensures
        ranks_before(keys, a, b) <==> !ranks_before(keys, b, a),
        keys[a as int] > keys[b as int] ==> ranks_before(keys, a, b),
        keys[a as int] == keys[b as int] && a < b ==> ranks_before(keys, a, b),
{
}

} // verus!
