//! A list of distinct days, kept in calendar order.

use crate::clock::Date;
use vstd::prelude::*;

verus! {

/// The days are in strictly ascending calendar order.
pub open spec fn ascending(days: Seq<Date>) -> bool {
    forall|i: int, j: int|
        0 <= i < j < days.len() ==> (#[trigger] days[i]).key() < (#[trigger] days[j]).key()
}

/// The list holds the day.
pub open spec fn holds(days: Seq<Date>, d: Date) -> bool {
    exists|i: int| 0 <= i < days.len() && #[trigger] days[i] == d
}

/// Two days with the same rank are the same day.
pub proof fn lemma_key_injective(a: Date, b: Date)
    requires
        a.key() == b.key(),
    ensures
        a == b,
{
}

/// Puts a day into the list, at its place in calendar order, unless the list
/// already holds it.
pub fn note_day(days: &mut Vec<Date>, d: Date)
    requires
        ascending(old(days)@),
    ensures
        ascending(final(days)@),
        forall|x: Date| holds(final(days)@, x) <==> (holds(old(days)@, x) || x == d),
{
    let k = d.rank();
    let mut p: usize = 0;
    while p < days.len() && days[p].rank() < k
        invariant
            p <= days.len(),
            *days == *old(days),
            k == d.key(),
            forall|i: int| 0 <= i < p ==> (#[trigger] days@[i]).key() < k,
        decreases days.len() - p,
    {
        p += 1;
    }
    if p < days.len() && days[p].rank() == k {
        proof {
            lemma_key_injective(days@[p as int], d);
            assert(holds(days@, d));
        }
        return ;
    }
    let ghost before = days@;
    days.insert(p, d);
    proof {
        assert(days@ == before.insert(p as int, d));
        assert forall|i: int, j: int| 0 <= i < j < days@.len() implies (#[trigger] days@[i]).key()
            < (#[trigger] days@[j]).key() by {
            if j < p {
                assert(days@[i] == before[i] && days@[j] == before[j]);
            } else if j == p {
                assert(days@[i] == before[i]);
            } else {
                assert(days@[j] == before[j - 1]);
                if i < p {
                    assert(days@[i] == before[i]);
                    if j - 1 > i {
                        assert(before[i].key() < before[j - 1].key());
                    }
                } else if i == p {
                    assert(before[p as int].key() >= k);
                    if j - 1 > p {
                        assert(before[p as int].key() < before[j - 1].key());
                    }
                } else {
                    assert(days@[i] == before[i - 1]);
                    assert(before[i - 1].key() < before[j - 1].key());
                }
            }
        }
        assert forall|x: Date| holds(days@, x) <==> (holds(before, x) || x == d) by {
            if holds(days@, x) {
                let i = choose|i: int| 0 <= i < days@.len() && days@[i] == x;
                if i < p {
                    assert(before[i] == x);
                } else if i > p {
                    assert(before[i - 1] == x);
                }
            }
            if holds(before, x) {
                let i = choose|i: int| 0 <= i < before.len() && before[i] == x;
                if i < p {
                    assert(days@[i] == x);
                } else {
                    assert(days@[i + 1] == x);
                }
            }
            if x == d {
                assert(days@[p as int] == x);
            }
        }
    }
}

} // verus!
