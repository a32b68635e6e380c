//! Ordering rows by a number: a stable sort that returns the positions of the
//! rows in their new order.

use vstd::prelude::*;

verus! {

/// Row `a` comes before row `b`: its key is smaller, or the keys are equal
/// and it stood before `b`.
pub open spec fn precedes(keys: Seq<i128>, a: int, b: int) -> bool {
    keys[a] < keys[b] || (keys[a] == keys[b] && a < b)
}

/// `order` lists the positions of the first `n` rows, each exactly once, by
/// ascending key; rows with equal keys keep their order.
pub open spec fn orders_first(keys: Seq<i128>, order: Seq<usize>, n: int) -> bool {
    &&& order.len() == n
    &&& forall|i: int| 0 <= i < order.len() ==> (#[trigger] order[i]) < n
    &&& forall|i: int, j: int|
        0 <= i < j < order.len() ==> precedes(
            keys,
            (#[trigger] order[i]) as int,
            (#[trigger] order[j]) as int,
        )
}

/// `order` lists the positions of all rows, each exactly once, by ascending
/// key; rows with equal keys keep their order.
pub open spec fn orders(keys: Seq<i128>, order: Seq<usize>) -> bool {
    orders_first(keys, order, keys.len() as int)
}

/// The positions of the rows by ascending key; rows with equal keys keep
/// their order.
pub fn sorted_positions(keys: &Vec<i128>) -> (order: Vec<usize>)
    ensures
        orders(keys@, order@),
{
    let mut order: Vec<usize> = Vec::new();
    let mut n: usize = 0;
    while n < keys.len()
        invariant
            n <= keys.len(),
            orders_first(keys@, order@, n as int),
        decreases keys.len() - n,
    {
        let k = keys[n];
        let mut p: usize = order.len();
        while p > 0 && keys[order[p - 1]] > k
            invariant
                p <= order.len(),
                n < keys.len(),
                k == keys@[n as int],
                orders_first(keys@, order@, n as int),
                forall|i: int| p <= i < order.len() ==> keys@[(#[trigger] order@[i]) as int] > k,
            decreases p,
        {
            p -= 1;
        }
        let ghost before = order@;
        order.insert(p, n);
        proof {
            assert(order@ == before.insert(p as int, n));
            assert forall|i: int| 0 <= i < order@.len() implies (#[trigger] order@[i]) < n + 1 by {
                if i < p {
                    assert(order@[i] == before[i]);
                } else if i > p {
                    assert(order@[i] == before[i - 1]);
                }
            }
            assert forall|i: int, j: int| 0 <= i < j < order@.len() implies precedes(
                keys@,
                (#[trigger] order@[i]) as int,
                (#[trigger] order@[j]) as int,
            ) by {
                if j < p {
                    assert(order@[i] == before[i] && order@[j] == before[j]);
                } else if j == p {
                    assert(order@[i] == before[i]);
                    if p > 0 {
                        assert(keys@[before[p - 1] as int] <= k);
                        if i < p - 1 {
                            assert(precedes(keys@, before[i] as int, before[p - 1] as int));
                        }
                    }
                } else {
                    assert(order@[j] == before[j - 1]);
                    if i < p {
                        assert(order@[i] == before[i]);
                        assert(precedes(keys@, before[i] as int, before[j - 1] as int));
                    } else if i == p {
                        assert(keys@[before[j - 1] as int] > k);
                    } else {
                        assert(order@[i] == before[i - 1]);
                        assert(precedes(keys@, before[i - 1] as int, before[j - 1] as int));
                    }
                }
            }
        }
        n += 1;
    }
    order
}

} // verus!
