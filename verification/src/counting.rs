//! Counting over index ranges, and the pair relations of rank statistics.

use vstd::prelude::*;
use crate::binary64::{is_nan_bits, is_finite_bits, order_key, total_key};

verus! {

/// The number of indices `j` in `0..n` for which `p(j)` holds.
pub open spec fn count_where(n: int, p: spec_fn(int) -> bool) -> nat
    decreases n,
{
    if n <= 0 {
        0
    } else {
        count_where(n - 1, p) + (if p(n - 1) {
            1nat
        } else {
            0nat
        })
    }
}

/// A count over `0..n` is at most `n`.
pub proof fn lemma_count_where_bound(n: int, p: spec_fn(int) -> bool)
    ensures
        count_where(n, p) <= if n < 0 {
            0
        } else {
            n
        },
    decreases n,
{
    if n > 0 {
        lemma_count_where_bound(n - 1, p);
    }
}

/// A predicate that holds nowhere in `0..n` counts zero there.
pub proof fn lemma_count_where_none(n: int, p: spec_fn(int) -> bool)
    requires
        forall|j: int| 0 <= j < n ==> !#[trigger] p(j),
    ensures
        count_where(n, p) == 0,
    decreases n,
{
    if n > 0 {
        lemma_count_where_none(n - 1, p);
    }
}

/// A count over a longer range is at least the count over a shorter one.
pub proof fn lemma_count_where_monotone(m: int, n: int, p: spec_fn(int) -> bool)
    requires
        m <= n,
    ensures
        count_where(m, p) <= count_where(n, p),
    decreases n - m,
{
    if m < n {
        lemma_count_where_monotone(m, n - 1, p);
    }
}

/// Counts of predicates that agree on `0..n` are equal.
pub proof fn lemma_count_where_ext(n: int, p: spec_fn(int) -> bool, q: spec_fn(int) -> bool)
    requires
        forall|j: int| 0 <= j < n ==> #[trigger] p(j) == q(j),
    ensures
        count_where(n, p) == count_where(n, q),
    decreases n,
{
    if n > 0 {
        lemma_count_where_ext(n - 1, p, q);
    }
}

/// Counting over disjoint predicates adds up.
pub proof fn lemma_count_where_disjoint_sum(
    n: int,
    p: spec_fn(int) -> bool,
    q: spec_fn(int) -> bool,
    pq: spec_fn(int) -> bool,
)
    requires
        forall|j: int| 0 <= j < n ==> !(#[trigger] p(j) && q(j)),
        forall|j: int| 0 <= j < n ==> #[trigger] pq(j) == (p(j) || q(j)),
    ensures
        count_where(n, pq) == count_where(n, p) + count_where(n, q),
    decreases n,
{
    if n > 0 {
        lemma_count_where_disjoint_sum(n - 1, p, q, pq);
    }
}

/// A predicate that holds somewhere in `0..n` counts at least one there.
pub proof fn lemma_count_where_witness(n: int, p: spec_fn(int) -> bool, k: int)
    requires
        0 <= k < n,
        p(k),
    ensures
        count_where(n, p) >= 1,
    decreases n,
{
    if k < n - 1 {
        lemma_count_where_witness(n - 1, p, k);
    }
}

/// A predicate that implies another on `0..n` counts no more there.
pub proof fn lemma_count_where_implies(n: int, p: spec_fn(int) -> bool, q: spec_fn(int) -> bool)
    requires
        forall|j: int| 0 <= j < n && #[trigger] p(j) ==> q(j),
    ensures
        count_where(n, p) <= count_where(n, q),
    decreases n,
{
    if n > 0 {
        lemma_count_where_implies(n - 1, p, q);
    }
}

/// A predicate that holds everywhere in `0..n` counts all of it.
pub proof fn lemma_count_where_every(n: int, p: spec_fn(int) -> bool)
    requires
        n >= 0,
        forall|j: int| 0 <= j < n ==> #[trigger] p(j),
    ensures
        count_where(n, p) == n,
    decreases n,
{
    if n > 0 {
        lemma_count_where_every(n - 1, p);
    }
}

/// The sign of `b - a` as `f64` subtraction gives it, or `None` when the
/// difference is NaN: a NaN operand, or two infinities of the same sign.
pub open spec fn difference_sign(b: u64, a: u64) -> Option<int> {
    if is_nan_bits(a) || is_nan_bits(b) {
        None
    } else if !is_finite_bits(a) && !is_finite_bits(b) && order_key(a) == order_key(b) {
        None
    } else if order_key(a) < order_key(b) {
        Some(1)
    } else if order_key(b) < order_key(a) {
        Some(-1)
    } else {
        Some(0)
    }
}

/// Observations `i` and `j` are concordant: the two differences have the
/// same strict sign.
pub open spec fn concordant(x: Seq<u64>, y: Seq<u64>, i: int, j: int) -> bool {
    &&& difference_sign(x[j], x[i]) is Some
    &&& difference_sign(y[j], y[i]) is Some
    &&& difference_sign(x[j], x[i])->0 * difference_sign(y[j], y[i])->0 > 0
}

/// Observations `i` and `j` are discordant: the two differences have
/// opposite strict signs.
pub open spec fn discordant(x: Seq<u64>, y: Seq<u64>, i: int, j: int) -> bool {
    &&& difference_sign(x[j], x[i]) is Some
    &&& difference_sign(y[j], y[i]) is Some
    &&& difference_sign(x[j], x[i])->0 * difference_sign(y[j], y[i])->0 < 0
}

/// The later observations `j > i` that are concordant with observation `i`.
pub open spec fn concordant_after(x: Seq<u64>, y: Seq<u64>, i: int) -> spec_fn(int) -> bool {
    |j: int| i < j && concordant(x, y, i, j)
}

/// The later observations `j > i` that are discordant with observation `i`.
pub open spec fn discordant_after(x: Seq<u64>, y: Seq<u64>, i: int) -> spec_fn(int) -> bool {
    |j: int| i < j && discordant(x, y, i, j)
}

/// The number of concordant pairs `(i, j)` with `i < j` whose first index
/// is below `m`.
pub open spec fn concordant_pairs(x: Seq<u64>, y: Seq<u64>, m: int) -> nat
    decreases m,
{
    if m <= 0 {
        0
    } else {
        concordant_pairs(x, y, m - 1) + count_where(x.len() as int, concordant_after(x, y, m - 1))
    }
}

/// The number of discordant pairs `(i, j)` with `i < j` whose first index
/// is below `m`.
pub open spec fn discordant_pairs(x: Seq<u64>, y: Seq<u64>, m: int) -> nat
    decreases m,
{
    if m <= 0 {
        0
    } else {
        discordant_pairs(x, y, m - 1) + count_where(x.len() as int, discordant_after(x, y, m - 1))
    }
}

/// The positions of `s` whose value lies strictly below `s[i]`.
pub open spec fn below(s: Seq<u64>, i: int) -> spec_fn(int) -> bool {
    |j: int| order_key(s[j]) < order_key(s[i])
}

/// The positions of `s` whose value lies strictly above `s[i]`.
pub open spec fn above(s: Seq<u64>, i: int) -> spec_fn(int) -> bool {
    |j: int| order_key(s[i]) < order_key(s[j])
}

/// The positions of `s` whose value equals `s[i]`.
pub open spec fn equal_to(s: Seq<u64>, i: int) -> spec_fn(int) -> bool {
    |j: int| order_key(s[j]) == order_key(s[i])
}

/// Twice the average rank of `s[i]` among the values of `s`: ties share the
/// mean of the ranks they occupy.
pub open spec fn doubled_average_rank(s: Seq<u64>, i: int) -> nat {
    2 * count_where(s.len() as int, below(s, i)) + count_where(s.len() as int, equal_to(s, i)) + 1
}

/// The positions of `s` that come before `s[i]` in `f64::total_cmp` order.
pub open spec fn total_below(s: Seq<u64>, i: int) -> spec_fn(int) -> bool {
    |j: int| total_key(s[j]) < total_key(s[i])
}

/// The positions of `s` that hold the same bit pattern as `s[i]`.
pub open spec fn same_bits(s: Seq<u64>, i: int) -> spec_fn(int) -> bool {
    |j: int| total_key(s[j]) == total_key(s[i])
}

/// The 1-based position of `s[i]` when `s` is sorted stably by
/// `f64::total_cmp`: smaller values first, equal values in input order.
pub open spec fn ordinal_rank(s: Seq<u64>, i: int) -> nat {
    count_where(s.len() as int, total_below(s, i)) + count_where(i, same_bits(s, i)) + 1
}

/// Every average rank lies between 1 and n: the doubled rank of an entry
/// of a sample of size n is at least 2 and at most 2n. The pseudo-observation
/// rank / (n + 1) therefore lies strictly inside (0, 1).
pub proof fn lemma_doubled_rank_bounds(s: Seq<u64>, i: int)
    requires
        0 <= i < s.len(),
    ensures
        2 <= doubled_average_rank(s, i) <= 2 * s.len(),
{
    let n = s.len() as int;
    let lower = below(s, i);
    let same = equal_to(s, i);
    let either = |j: int| lower(j) || same(j);
    lemma_count_where_witness(n, same, i);
    lemma_count_where_disjoint_sum(n, lower, same, either);
    lemma_count_where_bound(n, either);
    let lower_but_i = |j: int| lower(j) && j != i;
    let all_but_i = |j: int| j != i;
    lemma_count_where_ext(n, lower, lower_but_i);
    lemma_count_where_implies(n, lower_but_i, all_but_i);
    lemma_count_where_disjoint_sum(n, all_but_i, |j: int| j == i, |j: int| true);
    lemma_count_where_bound(n, |j: int| j == i);
    lemma_count_where_witness(n, |j: int| j == i, i);
    lemma_count_where_all(n);
}

/// The number of values strictly below an entry of a sample of size n is at
/// most n - 1: the empirical CDF transform (position + 1) / (n + 1) lies
/// strictly inside (0, 1).
pub proof fn lemma_position_bounds(s: Seq<u64>, i: int)
    requires
        0 <= i < s.len(),
    ensures
        count_where(s.len() as int, below(s, i)) + 1 <= s.len(),
{
    lemma_doubled_rank_bounds(s, i);
    lemma_count_where_witness(s.len() as int, equal_to(s, i), i);
}

/// Counting a predicate that always holds counts the whole range.
proof fn lemma_count_where_all(n: int)
    requires
        n >= 0,
    ensures
        count_where(n, |j: int| true) == n,
{
    lemma_count_where_every(n, |j: int| true);
}

/// Ranks depend only on the order of the values: two samples whose entries
/// compare alike pairwise (as a strictly increasing map of the data gives)
/// have the same doubled average ranks.
pub proof fn lemma_ranks_depend_only_on_order(s: Seq<u64>, t: Seq<u64>)
    requires
        s.len() == t.len(),
        forall|i: int, j: int|
            0 <= i < s.len() && 0 <= j < s.len() ==> (order_key(#[trigger] s[i]) < order_key(
                #[trigger] s[j],
            )) == (order_key(t[i]) < order_key(t[j])) && (order_key(s[i]) == order_key(s[j]))
                == (order_key(t[i]) == order_key(t[j])),
    ensures
        forall|i: int|
            0 <= i < s.len() ==> #[trigger] doubled_average_rank(s, i) == doubled_average_rank(
                t,
                i,
            ),
{
    assert forall|i: int| 0 <= i < s.len() implies #[trigger] doubled_average_rank(s, i)
        == doubled_average_rank(t, i) by {
        assert forall|j: int| 0 <= j < s.len() implies #[trigger] below(s, i)(j) == below(t, i)(j) by {
            assert(s[j] == s[j] && s[i] == s[i]);
        }
        assert forall|j: int| 0 <= j < s.len() implies #[trigger] equal_to(s, i)(j) == equal_to(
            t,
            i,
        )(j) by {
            assert(s[j] == s[j] && s[i] == s[i]);
        }
        lemma_count_where_ext(s.len() as int, below(s, i), below(t, i));
        lemma_count_where_ext(s.len() as int, equal_to(s, i), equal_to(t, i));
    }
}

/// Ranks preserve the order of the values: a value strictly below another
/// has a strictly smaller average rank, and equal values share their rank.
pub proof fn lemma_ranks_preserve_order(s: Seq<u64>, i: int, j: int)
    requires
        0 <= i < s.len(),
        0 <= j < s.len(),
    ensures
        order_key(s[i]) < order_key(s[j]) ==> doubled_average_rank(s, i) < doubled_average_rank(
            s,
            j,
        ),
        order_key(s[i]) == order_key(s[j]) ==> doubled_average_rank(s, i)
            == doubled_average_rank(s, j),
{
    let n = s.len() as int;
    if order_key(s[i]) < order_key(s[j]) {
        let lower = below(s, i);
        let same = equal_to(s, i);
        let either = |k: int| lower(k) || same(k);
        lemma_count_where_disjoint_sum(n, lower, same, either);
        lemma_count_where_implies(n, either, below(s, j));
        lemma_count_where_witness(n, same, i);
        lemma_count_where_witness(n, equal_to(s, j), j);
    } else if order_key(s[i]) == order_key(s[j]) {
        lemma_count_where_ext(n, below(s, i), below(s, j));
        lemma_count_where_ext(n, equal_to(s, i), equal_to(s, j));
    }
}

/// Kendall's pair counts are symmetric in the two samples: swapping `x` and
/// `y` leaves the numbers of concordant and discordant pairs unchanged, so
/// tau(x, y) = tau(y, x).
pub proof fn lemma_kendall_counts_symmetric(x: Seq<u64>, y: Seq<u64>, m: int)
    requires
        x.len() == y.len(),
    ensures
        concordant_pairs(x, y, m) == concordant_pairs(y, x, m),
        discordant_pairs(x, y, m) == discordant_pairs(y, x, m),
    decreases m,
{
    if m > 0 {
        lemma_kendall_counts_symmetric(x, y, m - 1);
        let n = x.len() as int;
        assert forall|j: int| 0 <= j < n implies #[trigger] concordant_after(x, y, m - 1)(j)
            == concordant_after(y, x, m - 1)(j) by {
            assert(concordant(x, y, m - 1, j) == concordant(y, x, m - 1, j));
        }
        assert forall|j: int| 0 <= j < n implies #[trigger] discordant_after(x, y, m - 1)(j)
            == discordant_after(y, x, m - 1)(j) by {
            assert(discordant(x, y, m - 1, j) == discordant(y, x, m - 1, j));
        }
        lemma_count_where_ext(n, concordant_after(x, y, m - 1), concordant_after(y, x, m - 1));
        lemma_count_where_ext(n, discordant_after(x, y, m - 1), discordant_after(y, x, m - 1));
    }
}

/// The sequence of finite values strictly increases.
pub open spec fn strictly_increasing(s: Seq<u64>) -> bool {
    &&& forall|i: int| 0 <= i < s.len() ==> is_finite_bits(#[trigger] s[i])
    &&& forall|i: int, j: int|
        0 <= i < j < s.len() ==> order_key(#[trigger] s[i]) < order_key(#[trigger] s[j])
}

/// The sequence of finite values strictly decreases.
pub open spec fn strictly_decreasing(s: Seq<u64>) -> bool {
    &&& forall|i: int| 0 <= i < s.len() ==> is_finite_bits(#[trigger] s[i])
    &&& forall|i: int, j: int|
        0 <= i < j < s.len() ==> order_key(#[trigger] s[i]) > order_key(#[trigger] s[j])
}

/// Pair counts never decrease as more first indices are taken in.
proof fn lemma_pairs_monotone(x: Seq<u64>, y: Seq<u64>, m: int, k: int)
    requires
        m <= k,
    ensures
        concordant_pairs(x, y, m) <= concordant_pairs(x, y, k),
        discordant_pairs(x, y, m) <= discordant_pairs(x, y, k),
    decreases k - m,
{
    if m < k {
        lemma_pairs_monotone(x, y, m, k - 1);
    }
}

/// When every pair is concordant, the first `m` observations start
/// `m(2n - m - 1)/2` concordant pairs; likewise for discordant.
proof fn lemma_all_pairs_counted(x: Seq<u64>, y: Seq<u64>, m: int, conc: bool)
    requires
        0 <= m <= x.len(),
        conc ==> forall|i: int, j: int| 0 <= i < j < x.len() ==> #[trigger] concordant(x, y, i, j),
        !conc ==> forall|i: int, j: int| 0 <= i < j < x.len() ==> #[trigger] discordant(x, y, i, j),
    ensures
        conc ==> 2 * concordant_pairs(x, y, m) == m * (2 * x.len() - m - 1),
        !conc ==> 2 * discordant_pairs(x, y, m) == m * (2 * x.len() - m - 1),
    decreases m,
{
    let n = x.len() as int;
    if m > 0 {
        lemma_all_pairs_counted(x, y, m - 1, conc);
        let i = m - 1;
        let later = |j: int| i < j;
        lemma_count_later(i, n);
        assert(count_where(n, later) == n - 1 - i);
        let step = if conc {
            concordant_after(x, y, i)
        } else {
            discordant_after(x, y, i)
        };
        assert forall|j: int| 0 <= j < n implies #[trigger] step(j) == later(j) by {
            if i < j {
                if conc {
                    assert(concordant(x, y, i, j));
                } else {
                    assert(discordant(x, y, i, j));
                }
            }
        }
        lemma_count_where_ext(n, step, later);
        assert(m * (2 * n - m - 1) == (m - 1) * (2 * n - (m - 1) - 1) + 2 * (n - 1 - i))
            by (nonlinear_arith)
            requires
                i == m - 1,
        ;
        if conc {
            assert(concordant_pairs(x, y, m) == concordant_pairs(x, y, m - 1) + count_where(n, step));
        } else {
            assert(discordant_pairs(x, y, m) == discordant_pairs(x, y, m - 1) + count_where(n, step));
        }
    } else {
        assert(m * (2 * n - m - 1) == 0) by (nonlinear_arith)
            requires
                m == 0,
        ;
    }
}

/// Perfect concordance: when both samples strictly increase, every pair is
/// concordant and none discordant, so Kendall's tau is 1 (given two or more
/// observations).
pub proof fn lemma_comonotone_counts(x: Seq<u64>, y: Seq<u64>)
    requires
        x.len() == y.len(),
        x.len() >= 2,
        strictly_increasing(x),
        strictly_increasing(y),
    ensures
        discordant_pairs(x, y, x.len() as int) == 0,
        concordant_pairs(x, y, x.len() as int) >= 1,
        2 * concordant_pairs(x, y, x.len() as int) == x.len() * (x.len() - 1),
{
    let n = x.len() as int;
    assert forall|i: int, j: int| 0 <= i < j < n implies #[trigger] concordant(x, y, i, j) && !discordant(x, y, i, j) by {
        assert(order_key(x[i]) < order_key(x[j]));
        assert(order_key(y[i]) < order_key(y[j]));
        assert(is_finite_bits(x[i]) && is_finite_bits(x[j]));
        assert(is_finite_bits(y[i]) && is_finite_bits(y[j]));
    }
    lemma_no_discordant_pairs(x, y, n);
    assert(concordant_after(x, y, 0)(1));
    lemma_count_where_witness(n, concordant_after(x, y, 0), 1);
    lemma_pairs_monotone(x, y, 1, n);
    lemma_all_pairs_counted(x, y, n, true);
    assert(n * (2 * n - n - 1) == n * (n - 1)) by (nonlinear_arith);
}

/// Perfect discordance: when one sample strictly increases and the other
/// strictly decreases, every pair is discordant and none concordant, so
/// Kendall's tau is -1 (given two or more observations).
pub proof fn lemma_countermonotone_counts(x: Seq<u64>, y: Seq<u64>)
    requires
        x.len() == y.len(),
        x.len() >= 2,
        strictly_increasing(x),
        strictly_decreasing(y),
    ensures
        concordant_pairs(x, y, x.len() as int) == 0,
        discordant_pairs(x, y, x.len() as int) >= 1,
        2 * discordant_pairs(x, y, x.len() as int) == x.len() * (x.len() - 1),
{
    let n = x.len() as int;
    assert forall|i: int, j: int| 0 <= i < j < n implies #[trigger] discordant(x, y, i, j) && !concordant(x, y, i, j) by {
        assert(order_key(x[i]) < order_key(x[j]));
        assert(order_key(y[i]) > order_key(y[j]));
        assert(is_finite_bits(x[i]) && is_finite_bits(x[j]));
        assert(is_finite_bits(y[i]) && is_finite_bits(y[j]));
    }
    lemma_no_concordant_pairs(x, y, n);
    assert(discordant_after(x, y, 0)(1));
    lemma_count_where_witness(n, discordant_after(x, y, 0), 1);
    lemma_pairs_monotone(x, y, 1, n);
    lemma_all_pairs_counted(x, y, n, false);
    assert(n * (2 * n - n - 1) == n * (n - 1)) by (nonlinear_arith);
}

/// Without discordant pairs among the first `m` rows, their count is zero.
proof fn lemma_no_discordant_pairs(x: Seq<u64>, y: Seq<u64>, m: int)
    requires
        m <= x.len(),
        forall|i: int, j: int| 0 <= i < j < x.len() ==> !#[trigger] discordant(x, y, i, j),
    ensures
        discordant_pairs(x, y, m) == 0,
    decreases m,
{
    if m > 0 {
        lemma_no_discordant_pairs(x, y, m - 1);
        assert forall|j: int| 0 <= j < x.len() implies !#[trigger] discordant_after(x, y, m - 1)(j) by {
            if m - 1 < j {
                assert(!discordant(x, y, m - 1, j));
            }
        }
        lemma_count_where_none(x.len() as int, discordant_after(x, y, m - 1));
    }
}

/// Without concordant pairs among the first `m` rows, their count is zero.
proof fn lemma_no_concordant_pairs(x: Seq<u64>, y: Seq<u64>, m: int)
    requires
        m <= x.len(),
        forall|i: int, j: int| 0 <= i < j < x.len() ==> !#[trigger] concordant(x, y, i, j),
    ensures
        concordant_pairs(x, y, m) == 0,
    decreases m,
{
    if m > 0 {
        lemma_no_concordant_pairs(x, y, m - 1);
        assert forall|j: int| 0 <= j < x.len() implies !#[trigger] concordant_after(x, y, m - 1)(j) by {
            if m - 1 < j {
                assert(!concordant(x, y, m - 1, j));
            }
        }
        lemma_count_where_none(x.len() as int, concordant_after(x, y, m - 1));
    }
}

/// A predicate that does not hold in `i..n` counts the same over `0..n` as
/// over `0..i`.
proof fn lemma_count_where_prefix(i: int, n: int, p: spec_fn(int) -> bool)
    requires
        0 <= i <= n,
        forall|k: int| i <= k < n ==> !#[trigger] p(k),
    ensures
        count_where(n, p) == count_where(i, p),
    decreases n - i,
{
    if i < n {
        lemma_count_where_prefix(i, n - 1, p);
    }
}

/// The ordinal ranks of a sample are a permutation of `1..=n`: each lies in
/// `1..=n` and no two entries share one, so the pseudo-observations
/// `rank / (n + 1)` are distinct and inside (0, 1).
pub proof fn lemma_ordinal_ranks_are_a_permutation(s: Seq<u64>)
    ensures
        forall|i: int| 0 <= i < s.len() ==> 1 <= #[trigger] ordinal_rank(s, i) <= s.len(),
        forall|i: int, j: int|
            0 <= i < s.len() && 0 <= j < s.len() && i != j ==> #[trigger] ordinal_rank(s, i)
                != #[trigger] ordinal_rank(s, j),
{
    assert forall|i: int| 0 <= i < s.len() implies 1 <= #[trigger] ordinal_rank(s, i) <= s.len() by {
        lemma_ordinal_rank_bound(s, i);
    }
    assert forall|i: int, j: int|
        0 <= i < s.len() && 0 <= j < s.len() && i != j implies #[trigger] ordinal_rank(s, i)
            != #[trigger] ordinal_rank(s, j) by {
        if total_key(s[i]) < total_key(s[j]) {
            lemma_ordinal_rank_below(s, i, j);
        } else if total_key(s[j]) < total_key(s[i]) {
            lemma_ordinal_rank_below(s, j, i);
        } else if i < j {
            lemma_ordinal_rank_tie(s, i, j);
        } else {
            lemma_ordinal_rank_tie(s, j, i);
        }
    }
}

/// The entries before `i` that hold the same bit pattern as `s[i]`.
spec fn same_bits_before(s: Seq<u64>, i: int) -> spec_fn(int) -> bool {
    |k: int| k < i && same_bits(s, i)(k)
}

/// The count of equal entries before `i` is their count over the whole
/// sample restricted to indices below `i`.
proof fn lemma_same_bits_before(s: Seq<u64>, i: int)
    requires
        0 <= i < s.len(),
    ensures
        count_where(i, same_bits(s, i)) == count_where(s.len() as int, same_bits_before(s, i)),
{
    lemma_count_where_ext(i, same_bits(s, i), same_bits_before(s, i));
    lemma_count_where_prefix(i, s.len() as int, same_bits_before(s, i));
}

/// An ordinal rank lies in `1..=n`.
proof fn lemma_ordinal_rank_bound(s: Seq<u64>, i: int)
    requires
        0 <= i < s.len(),
    ensures
        1 <= ordinal_rank(s, i) <= s.len(),
{
    let n = s.len() as int;
    let lower = total_below(s, i);
    let earlier = same_bits_before(s, i);
    let either = |k: int| lower(k) || earlier(k);
    let all_but_i = |k: int| k != i;
    lemma_same_bits_before(s, i);
    lemma_count_where_disjoint_sum(n, lower, earlier, either);
    lemma_count_where_implies(n, either, all_but_i);
    lemma_count_where_disjoint_sum(n, all_but_i, |k: int| k == i, |k: int| true);
    lemma_count_where_witness(n, |k: int| k == i, i);
    lemma_count_where_bound(n, |k: int| k == i);
    lemma_count_where_all(n);
}

/// An entry strictly below another in total order has a smaller ordinal rank.
proof fn lemma_ordinal_rank_below(s: Seq<u64>, i: int, j: int)
    requires
        0 <= i < s.len(),
        0 <= j < s.len(),
        total_key(s[i]) < total_key(s[j]),
    ensures
        ordinal_rank(s, i) < ordinal_rank(s, j),
{
    let n = s.len() as int;
    let lower = total_below(s, i);
    let same = same_bits(s, i);
    let either = |k: int| lower(k) || same(k);
    lemma_count_where_disjoint_sum(n, lower, same, either);
    lemma_count_where_implies(n, either, total_below(s, j));
    lemma_count_where_monotone(i + 1, n, same);
}

/// Of two entries with the same bit pattern, the earlier has the smaller
/// ordinal rank.
proof fn lemma_ordinal_rank_tie(s: Seq<u64>, i: int, j: int)
    requires
        0 <= i < j < s.len(),
        total_key(s[i]) == total_key(s[j]),
    ensures
        ordinal_rank(s, i) < ordinal_rank(s, j),
{
    let n = s.len() as int;
    lemma_count_where_ext(n, total_below(s, i), total_below(s, j));
    lemma_count_where_ext(j, same_bits(s, i), same_bits(s, j));
    lemma_count_where_monotone(i + 1, j, same_bits(s, i));
}

/// The sum of `f(i)` over `i` in `0..n`.
pub open spec fn sum_of(n: int, f: spec_fn(int) -> int) -> int
    decreases n,
{
    if n <= 0 {
        0
    } else {
        sum_of(n - 1, f) + f(n - 1)
    }
}

/// Sums of functions that agree on `0..n` are equal.
proof fn lemma_sum_ext(n: int, f: spec_fn(int) -> int, g: spec_fn(int) -> int)
    requires
        forall|j: int| 0 <= j < n ==> #[trigger] f(j) == g(j),
    ensures
        sum_of(n, f) == sum_of(n, g),
    decreases n,
{
    if n > 0 {
        lemma_sum_ext(n - 1, f, g);
    }
}

/// A sum of sums is the sum of the two sums.
proof fn lemma_sum_add(n: int, f: spec_fn(int) -> int, g: spec_fn(int) -> int, h: spec_fn(int) -> int)
    requires
        forall|j: int| 0 <= j < n ==> #[trigger] h(j) == f(j) + g(j),
    ensures
        sum_of(n, h) == sum_of(n, f) + sum_of(n, g),
    decreases n,
{
    if n > 0 {
        lemma_sum_add(n - 1, f, g, h);
    }
}

/// The sum of a constant over `0..n` is `n` times the constant.
proof fn lemma_sum_const(n: int, f: spec_fn(int) -> int, c: int)
    requires
        n >= 0,
        forall|j: int| 0 <= j < n ==> #[trigger] f(j) == c,
    ensures
        sum_of(n, f) == n * c,
    decreases n,
{
    if n > 0 {
        lemma_sum_const(n - 1, f, c);
        assert(f(n - 1) == c);
        assert((n - 1) * c + c == n * c) by (nonlinear_arith);
    } else {
        assert(n * c == 0) by (nonlinear_arith)
            requires
                n == 0,
        ;
    }
}

/// A count is the sum of the indicator of its predicate.
proof fn lemma_count_is_sum(n: int, p: spec_fn(int) -> bool)
    ensures
        count_where(n, p) == sum_of(n, |j: int| if p(j) { 1int } else { 0int }),
    decreases n,
{
    if n > 0 {
        lemma_count_is_sum(n - 1, p);
    }
}

/// A double sum can be taken in either order.
proof fn lemma_sum_swap(m: int, n: int, f: spec_fn(int, int) -> int)
    requires
        m >= 0,
        n >= 0,
    ensures
        sum_of(m, |i: int| sum_of(n, |j: int| f(i, j))) == sum_of(
            n,
            |j: int| sum_of(m, |i: int| f(i, j)),
        ),
    decreases m,
{
    if m == 0 {
        lemma_sum_const(n, |j: int| sum_of(0, |i: int| f(i, j)), 0);
    } else {
        lemma_sum_swap(m - 1, n, f);
        lemma_sum_add(
            n,
            |j: int| sum_of(m - 1, |i: int| f(i, j)),
            |j: int| f(m - 1, j),
            |j: int| sum_of(m, |i: int| f(i, j)),
        );
    }
}

/// The average ranks of a sample of size n add up to 1 + 2 + ... + n =
/// n(n + 1)/2: the doubled ranks add up to n(n + 1).
pub proof fn lemma_doubled_ranks_sum(s: Seq<u64>)
    ensures
        sum_of(s.len() as int, |i: int| doubled_average_rank(s, i) as int) == s.len() * (s.len()
            + 1),
{
    let n = s.len() as int;
    let key = |i: int| order_key(s[i]);
    let before = |i: int, j: int| if key(j) < key(i) { 1int } else { 0int };
    let after = |i: int, j: int| if key(i) < key(j) { 1int } else { 0int };
    let lower = |i: int| count_where(n, below(s, i)) as int;
    let higher = |i: int| count_where(n, above(s, i)) as int;
    // Each entry: lower + equal + higher = n.
    assert forall|i: int| 0 <= i < n implies #[trigger] doubled_average_rank(s, i) as int
        == lower(i) - higher(i) + n + 1 by {
        let lt = below(s, i);
        let eq = equal_to(s, i);
        let gt = above(s, i);
        let le = |j: int| lt(j) || eq(j);
        lemma_count_where_disjoint_sum(n, lt, eq, le);
        lemma_count_where_disjoint_sum(n, le, gt, |j: int| true);
        lemma_count_where_all(n);
    }
    lemma_sum_ext(
        n,
        |i: int| doubled_average_rank(s, i) as int,
        |i: int| (lower(i) - higher(i)) + (n + 1),
    );
    lemma_sum_add(n, |i: int| lower(i) - higher(i), |i: int| n + 1, |i: int| (lower(i) - higher(i)) + (n + 1));
    lemma_sum_const(n, |i: int| n + 1, n + 1);
    // Counting pairs with j below i by rows is counting them by columns.
    assert forall|i: int| 0 <= i < n implies #[trigger] lower(i) == sum_of(n, |j: int| before(i, j)) by {
        lemma_count_is_sum(n, below(s, i));
        lemma_sum_ext(n, |j: int| if below(s, i)(j) { 1int } else { 0int }, |j: int| before(i, j));
    }
    assert forall|j: int| 0 <= j < n implies #[trigger] higher(j) == sum_of(n, |i: int| before(i, j)) by {
        lemma_count_is_sum(n, above(s, j));
        lemma_sum_ext(n, |i: int| if above(s, j)(i) { 1int } else { 0int }, |i: int| before(i, j));
    }
    lemma_sum_ext(n, lower, |i: int| sum_of(n, |j: int| before(i, j)));
    lemma_sum_ext(n, higher, |j: int| sum_of(n, |i: int| before(i, j)));
    lemma_sum_swap(n, n, before);
    lemma_sum_add(n, lower, |i: int| -higher(i), |i: int| lower(i) - higher(i));
    lemma_sum_negate(n, higher);
}

/// The sum of the negations is the negated sum.
proof fn lemma_sum_negate(n: int, f: spec_fn(int) -> int)
    ensures
        sum_of(n, |j: int| -f(j)) == -sum_of(n, f),
    decreases n,
{
    if n > 0 {
        lemma_sum_negate(n - 1, f);
    }
}

/// The indices after `i` in `0..n` number `n - 1 - i`.
proof fn lemma_count_later(i: int, n: int)
    requires
        0 <= i < n,
    ensures
        count_where(n, |j: int| i < j) == n - 1 - i,
    decreases n,
{
    if n - 1 > i {
        lemma_count_later(i, n - 1);
    } else {
        lemma_count_where_none(n - 1, |j: int| i < j);
    }
}

/// Concordant and discordant pairs are among the `n(n - 1)/2` pairs of a
/// sample of size n, so Kendall's tau taken over all pairs,
/// (C - D) / (n(n - 1)/2), lies in [-1, 1].
pub proof fn lemma_pair_counts_bounded(x: Seq<u64>, y: Seq<u64>)
    ensures
        2 * (concordant_pairs(x, y, x.len() as int) + discordant_pairs(x, y, x.len() as int))
            <= x.len() * (x.len() - 1),
{
    lemma_pair_counts_prefix(x, y, x.len() as int);
}

/// The pairs whose first index is below `m` number at most
/// `m(2n - m - 1)/2`.
proof fn lemma_pair_counts_prefix(x: Seq<u64>, y: Seq<u64>, m: int)
    requires
        0 <= m <= x.len(),
    ensures
        2 * (concordant_pairs(x, y, m) + discordant_pairs(x, y, m)) <= m * (2 * x.len() - m
            - 1),
    decreases m,
{
    let n = x.len() as int;
    if m > 0 {
        lemma_pair_counts_prefix(x, y, m - 1);
        let i = m - 1;
        let c = concordant_after(x, y, i);
        let d = discordant_after(x, y, i);
        let either = |j: int| c(j) || d(j);
        lemma_count_where_disjoint_sum(n, c, d, either);
        lemma_count_where_implies(n, either, |j: int| i < j);
        lemma_count_later(i, n);
        let prev = concordant_pairs(x, y, m - 1) + discordant_pairs(x, y, m - 1);
        let step = count_where(n, c) + count_where(n, d);
        assert(2 * (prev + step) <= m * (2 * n - m - 1)) by (nonlinear_arith)
            requires
                2 * prev <= (m - 1) * (2 * n - (m - 1) - 1),
                step <= n - 1 - i,
                i == m - 1,
        ;
    } else {
        assert(m * (2 * n - m - 1) == 0) by (nonlinear_arith)
            requires
                m == 0,
        ;
    }
}

/// For finite values the sign of `b - a` is the comparison of `a` and `b`.
proof fn lemma_finite_difference_sign(b: u64, a: u64)
    requires
        is_finite_bits(a),
        is_finite_bits(b),
    ensures
        difference_sign(b, a) == (if order_key(a) < order_key(b) {
            Some(1int)
        } else if order_key(b) < order_key(a) {
            Some(-1int)
        } else {
            Some(0int)
        }),
{
}

/// One pair of observations is concordant or discordant according to the
/// signs of its two differences alone.
proof fn lemma_pair_follows_signs(
    x: Seq<u64>,
    y: Seq<u64>,
    x2: Seq<u64>,
    y2: Seq<u64>,
    flip: bool,
    i: int,
    j: int,
)
    requires
        difference_sign(x2[j], x2[i]) == difference_sign(x[j], x[i]),
        (difference_sign(y2[j], y2[i]) is Some) == (difference_sign(y[j], y[i]) is Some),
        difference_sign(y2[j], y2[i]) is Some ==> difference_sign(y2[j], y2[i])->0 == (if flip {
            -difference_sign(y[j], y[i])->0
        } else {
            difference_sign(y[j], y[i])->0
        }),
    ensures
        concordant(x2, y2, i, j) == (if flip {
            discordant(x, y, i, j)
        } else {
            concordant(x, y, i, j)
        }),
        discordant(x2, y2, i, j) == (if flip {
            concordant(x, y, i, j)
        } else {
            discordant(x, y, i, j)
        }),
{
    if difference_sign(y2[j], y2[i]) is Some && difference_sign(x[j], x[i]) is Some {
        let a = difference_sign(x[j], x[i])->0;
        let b = difference_sign(y[j], y[i])->0;
        assert(a * (-b) == -(a * b)) by (nonlinear_arith);
    }
}

/// Pair counts depend only on the signs of the differences: samples whose
/// differences have the same signs, pair by pair, have the same counts, and
/// flipping every sign of the second sample swaps the two counts.
proof fn lemma_pairs_follow_signs(
    x: Seq<u64>,
    y: Seq<u64>,
    x2: Seq<u64>,
    y2: Seq<u64>,
    flip: bool,
    m: int,
)
    requires
        x.len() == y.len(),
        x2.len() == x.len(),
        y2.len() == x.len(),
        m <= x.len(),
        forall|i: int, j: int|
            0 <= i < x.len() && 0 <= j < x.len() ==> #[trigger] difference_sign(x2[j], x2[i])
                == difference_sign(x[j], x[i]),
        forall|i: int, j: int|
            0 <= i < x.len() && 0 <= j < x.len() ==> (#[trigger] difference_sign(y2[j], y2[i])
                is Some) == (difference_sign(y[j], y[i]) is Some),
        forall|i: int, j: int|
            0 <= i < x.len() && 0 <= j < x.len() && (#[trigger] difference_sign(y2[j], y2[i])
                is Some) ==> difference_sign(y2[j], y2[i])->0 == (if flip {
                -difference_sign(y[j], y[i])->0
            } else {
                difference_sign(y[j], y[i])->0
            }),
    ensures
        !flip ==> concordant_pairs(x2, y2, m) == concordant_pairs(x, y, m) && discordant_pairs(
            x2,
            y2,
            m,
        ) == discordant_pairs(x, y, m),
        flip ==> concordant_pairs(x2, y2, m) == discordant_pairs(x, y, m) && discordant_pairs(
            x2,
            y2,
            m,
        ) == concordant_pairs(x, y, m),
    decreases m,
{
    if m > 0 {
        lemma_pairs_follow_signs(x, y, x2, y2, flip, m - 1);
        let n = x.len() as int;
        let i = m - 1;
        assert forall|j: int| 0 <= j < n implies #[trigger] concordant_after(x2, y2, i)(j) == (if flip {
            discordant_after(x, y, i)(j)
        } else {
            concordant_after(x, y, i)(j)
        }) by {
            lemma_pair_follows_signs(x, y, x2, y2, flip, i, j);
        }
        assert forall|j: int| 0 <= j < n implies #[trigger] discordant_after(x2, y2, i)(j) == (if flip {
            concordant_after(x, y, i)(j)
        } else {
            discordant_after(x, y, i)(j)
        }) by {
            lemma_pair_follows_signs(x, y, x2, y2, flip, i, j);
        }
        if flip {
            lemma_count_where_ext(n, concordant_after(x2, y2, i), discordant_after(x, y, i));
            lemma_count_where_ext(n, discordant_after(x2, y2, i), concordant_after(x, y, i));
        } else {
            lemma_count_where_ext(n, concordant_after(x2, y2, i), concordant_after(x, y, i));
            lemma_count_where_ext(n, discordant_after(x2, y2, i), discordant_after(x, y, i));
        }
    }
}

/// The finite values of `t` compare pairwise as those of `s` do (as a
/// strictly increasing map of `s` gives).
pub open spec fn same_order(s: Seq<u64>, t: Seq<u64>) -> bool {
    &&& s.len() == t.len()
    &&& forall|i: int| 0 <= i < s.len() ==> is_finite_bits(#[trigger] s[i]) && is_finite_bits(t[i])
    &&& forall|i: int, j: int|
        0 <= i < s.len() && 0 <= j < s.len() ==> (order_key(#[trigger] s[i]) < order_key(
            #[trigger] s[j],
        )) == (order_key(t[i]) < order_key(t[j]))
}

/// The finite values of `t` compare pairwise opposite to those of `s` (as a
/// strictly decreasing map of `s`, such as negation, gives).
pub open spec fn reversed_order(s: Seq<u64>, t: Seq<u64>) -> bool {
    &&& s.len() == t.len()
    &&& forall|i: int| 0 <= i < s.len() ==> is_finite_bits(#[trigger] s[i]) && is_finite_bits(t[i])
    &&& forall|i: int, j: int|
        0 <= i < s.len() && 0 <= j < s.len() ==> (order_key(#[trigger] s[i]) < order_key(
            #[trigger] s[j],
        )) == (order_key(t[j]) < order_key(t[i]))
}

/// Kendall's pair counts depend only on the ranks: replacing the values of
/// either finite sample by a strictly increasing map of them leaves both
/// counts unchanged, so tau is unchanged.
pub proof fn lemma_kendall_counts_rank_invariant(x: Seq<u64>, y: Seq<u64>, x2: Seq<u64>, y2: Seq<u64>)
    requires
        x.len() == y.len(),
        same_order(x, x2),
        same_order(y, y2),
    ensures
        concordant_pairs(x2, y2, x.len() as int) == concordant_pairs(x, y, x.len() as int),
        discordant_pairs(x2, y2, x.len() as int) == discordant_pairs(x, y, x.len() as int),
{
    let n = x.len() as int;
    assert forall|i: int, j: int| 0 <= i < n && 0 <= j < n implies #[trigger] difference_sign(
        x2[j],
        x2[i],
    ) == difference_sign(x[j], x[i]) && difference_sign(y2[j], y2[i]) == difference_sign(
        y[j],
        y[i],
    ) by {
        assert(is_finite_bits(x[i]) && is_finite_bits(x2[i]));
        assert(is_finite_bits(x[j]) && is_finite_bits(x2[j]));
        assert(is_finite_bits(y[i]) && is_finite_bits(y2[i]));
        assert(is_finite_bits(y[j]) && is_finite_bits(y2[j]));
        assert((order_key(x[i]) < order_key(x[j])) == (order_key(x2[i]) < order_key(x2[j])));
        assert((order_key(x[j]) < order_key(x[i])) == (order_key(x2[j]) < order_key(x2[i])));
        assert((order_key(y[i]) < order_key(y[j])) == (order_key(y2[i]) < order_key(y2[j])));
        assert((order_key(y[j]) < order_key(y[i])) == (order_key(y2[j]) < order_key(y2[i])));
        lemma_finite_difference_sign(x[j], x[i]);
        lemma_finite_difference_sign(x2[j], x2[i]);
        lemma_finite_difference_sign(y[j], y[i]);
        lemma_finite_difference_sign(y2[j], y2[i]);
    }
    lemma_pairs_follow_signs(x, y, x2, y2, false, n);
}

/// Reversing the order of the second finite sample (negating it, or any
/// strictly decreasing map) swaps the concordant and discordant counts, so
/// tau changes sign.
pub proof fn lemma_kendall_counts_swap_under_reversal(x: Seq<u64>, y: Seq<u64>, y2: Seq<u64>)
    requires
        x.len() == y.len(),
        reversed_order(y, y2),
    ensures
        concordant_pairs(x, y2, x.len() as int) == discordant_pairs(x, y, x.len() as int),
        discordant_pairs(x, y2, x.len() as int) == concordant_pairs(x, y, x.len() as int),
{
    let n = x.len() as int;
    assert forall|i: int, j: int| 0 <= i < n && 0 <= j < n implies (#[trigger] difference_sign(
        y2[j],
        y2[i],
    ) is Some) && difference_sign(y[j], y[i]) is Some && difference_sign(y2[j], y2[i])->0
        == -difference_sign(y[j], y[i])->0 by {
        assert(is_finite_bits(y[i]) && is_finite_bits(y2[i]));
        assert(is_finite_bits(y[j]) && is_finite_bits(y2[j]));
        assert((order_key(y[i]) < order_key(y[j])) == (order_key(y2[j]) < order_key(y2[i])));
        assert((order_key(y[j]) < order_key(y[i])) == (order_key(y2[i]) < order_key(y2[j])));
        lemma_finite_difference_sign(y[j], y[i]);
        lemma_finite_difference_sign(y2[j], y2[i]);
    }
    lemma_pairs_follow_signs(x, y, x, y2, true, n);
}

/// On finite values, a pair of observations is concordant exactly when both
/// samples move the same way from one observation to the other (both up or
/// both down), and discordant exactly when they move opposite ways; a pair
/// tied in either sample is neither.
pub proof fn lemma_pair_kinds_follow_the_order(x: Seq<u64>, y: Seq<u64>, i: int, j: int)
    requires
        0 <= i < x.len(),
        0 <= j < x.len(),
        x.len() == y.len(),
        is_finite_bits(x[i]) && is_finite_bits(x[j]),
        is_finite_bits(y[i]) && is_finite_bits(y[j]),
    ensures
        concordant(x, y, i, j) <==> (order_key(x[i]) < order_key(x[j]) && order_key(y[i])
            < order_key(y[j])) || (order_key(x[j]) < order_key(x[i]) && order_key(y[j]) < order_key(
            y[i],
        )),
        discordant(x, y, i, j) <==> (order_key(x[i]) < order_key(x[j]) && order_key(y[j])
            < order_key(y[i])) || (order_key(x[j]) < order_key(x[i]) && order_key(y[i]) < order_key(
            y[j],
        )),
{
    lemma_finite_difference_sign(x[j], x[i]);
    lemma_finite_difference_sign(y[j], y[i]);
}

} // verus!
