//! Sorting real values by `f64::total_cmp`.

use vstd::prelude::*;
use vstd::relations::{sorted_by, total_ordering};
use crate::binary64::{lemma_total_key_injective, total_key, total_key_of};

verus! {

/// `a` comes no later than `b` in `f64::total_cmp` order.
pub open spec fn total_le() -> spec_fn(u64, u64) -> bool {
    |a: u64, b: u64| total_key(a) <= total_key(b)
}

/// `f64::total_cmp` is a total order on bit patterns.
pub proof fn lemma_total_le_total_ordering()
    ensures
        total_ordering(total_le()),
{
    assert forall|a: u64, b: u64|
        #[trigger] total_le()(a, b) && #[trigger] total_le()(b, a) implies a == b by {
        lemma_total_key_injective(a, b);
    }
}

/// The values of `v` in ascending `f64::total_cmp` order (as
/// `sort_by(|a, b| a.total_cmp(b))` leaves them).
pub fn sort_total_order(v: &Vec<u64>) -> (s: Vec<u64>)
    ensures
        s@ == v@.sort_by(total_le()),
{
    broadcast use vstd::seq_lib::group_to_multiset_ensures, vstd::seq_lib::to_multiset_insert;

    let n = v.len();
    let mut out: Vec<u64> = Vec::new();
    for i in 0..n
        invariant
            n == v@.len(),
            out@.len() == i,
            sorted_by(out@, total_le()),
            out@.to_multiset() == v@.take(i as int).to_multiset(),
    {
        let x = v[i];
        let kx = total_key_of(x);
        let mut p: usize = 0;
        while p < out.len() && total_key_of(out[p]) <= kx
            invariant
                p <= out@.len(),
                kx == total_key(x),
                forall|q: int| 0 <= q < p ==> total_key(#[trigger] out@[q]) <= kx,
            decreases out@.len() - p,
        {
            p = p + 1;
        }
        let ghost before = out@;
        proof {
            assert(p < before.len() ==> total_key(before[p as int]) > kx);
            assert forall|q: int| p <= q < before.len() implies total_key(#[trigger] before[q]) > kx by {
                assert(total_le()(before[p as int], before[q]) || p == q);
            }
        }
        out.insert(p, x);
        proof {
            assert(out@ == before.insert(p as int, x));
            assert forall|a: int, b: int| 0 <= a < b < out@.len() implies #[trigger] total_le()(
                out@[a],
                out@[b],
            ) by {
                if b < p {
                    assert(total_le()(before[a], before[b]));
                } else if b == p {
                } else if a < p {
                    assert(out@[b] == before[b - 1]);
                } else if a == p {
                    assert(out@[b] == before[b - 1]);
                } else {
                    assert(total_le()(before[a - 1], before[b - 1]));
                }
            }
            assert(v@.take(i + 1) =~= v@.take(i as int).push(x));
            vstd::seq_lib::to_multiset_insert(before, p as int, x);
            vstd::seq_lib::to_multiset_build(v@.take(i as int), x);
            assert(out@.to_multiset() =~= v@.take(i + 1).to_multiset());
        }
    }
    proof {
        assert(v@.take(n as int) =~= v@);
        lemma_total_le_total_ordering();
        v@.lemma_sort_by_ensures(total_le());
        vstd::seq_lib::lemma_sorted_unique(out@, v@.sort_by(total_le()), total_le());
    }
    out
}

} // verus!
