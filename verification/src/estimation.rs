//! Parameter estimation: the rank-based building blocks.
//!
//! The estimators of this module work on ranks and empirical distribution
//! functions; what they compute exactly (counts, ranks, the admissible ranges
//! of Kendall's tau) is here, with the real-valued ratios formed from it.

use vstd::prelude::*;
use crate::binary64::{
    is_finite, is_finite_bits, le, le_bits, lt, lt_bits, order_key, total_key_of, total_lt,
    MINUS_ONE_BITS, ONE_BITS, ZERO_BITS,
};
use crate::counting::{
    concordant_pairs, count_where, discordant_pairs, lemma_count_where_bound,
    lemma_count_where_disjoint_sum, lemma_count_where_every, lemma_count_where_ext,
    lemma_count_where_implies, lemma_count_where_none, lemma_count_where_witness,
    lemma_ordinal_ranks_are_a_permutation, doubled_average_rank, ordinal_rank, same_bits,
    total_below,
};
use crate::error::{
    is_data_error, is_dimension_mismatch, is_invalid_parameter, CopulaError, Result,
};
use crate::matrix::RealMatrix;
use crate::sorting::{sort_total_order, total_le};
use crate::utils::{
    all_finite, average_ranks, column_of, KendallCounts, MAX_RANKED_LEN, MAX_SAMPLE_LEN,
};

verus! {

/// The values of `s` at or below `x`.
pub open spec fn at_most(s: Seq<u64>, x: u64) -> spec_fn(int) -> bool {
    |j: int| le_bits(s[j], x)
}

/// The values of `s` strictly below `x`.
pub open spec fn strictly_below(s: Seq<u64>, x: u64) -> spec_fn(int) -> bool {
    |j: int| lt_bits(s[j], x)
}

/// Empirical CDF estimator: F̂(x) = (1/n) Σ I(Xᵢ ≤ x).
#[derive(Debug)]
pub struct EmpiricalCdf {
    /// The data points, in ascending order
    data: Vec<u64>,
    n: usize,
}

impl View for EmpiricalCdf {
    type V = Seq<u64>;

    /// The sorted data points.
    closed spec fn view(&self) -> Seq<u64> {
        self.data@
    }
}

impl EmpiricalCdf {
    /// The estimator holds `n` data points, at least one.
    #[verifier::type_invariant]
    spec fn well_formed(self) -> bool {
        &&& self.n == self.data@.len()
        &&& 0 < self.data@.len()
    }

    /// Create a new empirical CDF from data.
    ///
    /// Fails on empty data and on data holding NaN or an infinity.
    pub fn new(data: Vec<u64>) -> (r: Result<Self>)
        ensures
            data@.len() == 0 ==> r is Err && is_data_error(
                r->Err_0,
                "EmpiricalCdf requires non-empty data"@,
            ),
            data@.len() > 0 ==> (r is Ok <==> all_finite(data@)),
            data@.len() > 0 && r is Err ==> is_data_error(
                r->Err_0,
                "EmpiricalCdf data contains non-finite values (NaN or infinite)"@,
            ),
            r is Ok ==> r->Ok_0@ == data@.sort_by(total_le()),
    {
        let n = data.len();
        if n == 0 {
            return Err(CopulaError::data_error("EmpiricalCdf requires non-empty data"));
        }
        for i in 0..n
            invariant
                n == data@.len(),
                forall|k: int| 0 <= k < i ==> is_finite_bits(#[trigger] data@[k]),
        {
            if !is_finite(data[i]) {
                return Err(
                    CopulaError::data_error(
                        "EmpiricalCdf data contains non-finite values (NaN or infinite)",
                    ),
                );
            }
        }
        let sorted = sort_total_order(&data);
        proof {
            broadcast use vstd::seq_lib::group_to_multiset_ensures;

            crate::sorting::lemma_total_le_total_ordering();
            data@.lemma_sort_by_ensures(total_le());
            assert(sorted@.len() == sorted@.to_multiset().len());
            assert(data@.len() == data@.to_multiset().len());
        }
        let n = sorted.len();
        Ok(EmpiricalCdf { data: sorted, n })
    }

    /// The number of data points `n`, at least one.
    pub fn len(&self) -> (r: usize)
        ensures
            r == self@.len(),
            r > 0,
    {
        proof {
            use_type_invariant(self);
        }
        self.n
    }

    /// The number of data points at or below `x`; F̂(x) is this count divided
    /// by the number of data points.
    pub fn count_at_most(&self, x: u64) -> (c: u64)
        ensures
            c == count_where(self@.len() as int, at_most(self@, x)),
    {
        proof {
            use_type_invariant(self);
        }
        let mut count: u64 = 0;
        for i in 0..self.n
            invariant
                self.n == self.data@.len(),
                count == count_where(i as int, at_most(self.data@, x)),
                count <= i,
        {
            if le(self.data[i], x) {
                count = count + 1;
            }
        }
        count
    }

    /// The rank of each data point, in ascending order of the points: one more
    /// than the number of points strictly below it. The pseudo-observations
    /// are these ranks divided by `n + 1`.
    pub fn pseudo_observation_ranks(&self) -> (r: Vec<u64>)
        ensures
            r@.len() == self@.len(),
            forall|k: int|
                0 <= k < self@.len() ==> #[trigger] r@[k] == count_where(
                    self@.len() as int,
                    strictly_below(self@, self@[k]),
                ) + 1,
    {
        proof {
            use_type_invariant(self);
        }
        let mut ranks: Vec<u64> = Vec::new();
        for k in 0..self.n
            invariant
                self.n == self.data@.len(),
                ranks@.len() == k,
                forall|t: int|
                    0 <= t < k ==> #[trigger] ranks@[t] == count_where(
                        self.data@.len() as int,
                        strictly_below(self.data@, self.data@[t]),
                    ) + 1,
        {
            let x = self.data[k];
            let mut less: u64 = 0;
            for j in 0..self.n
                invariant
                    self.n == self.data@.len(),
                    x == self.data@[k as int],
                    less == count_where(j as int, strictly_below(self.data@, x)),
                    less <= j,
            {
                if lt(self.data[j], x) {
                    less = less + 1;
                }
            }
            proof {
                lemma_ecdf_rank_bounds(self.data@, k as int);
            }
            ranks.push(less + 1);
        }
        ranks
    }
}

/// The empirical CDF is a proportion: F̂(x) lies in [0, 1].
pub proof fn lemma_ecdf_bounded(s: Seq<u64>, x: u64)
    ensures
        count_where(s.len() as int, at_most(s, x)) <= s.len(),
{
    lemma_count_where_bound(s.len() as int, at_most(s, x));
}

/// The empirical CDF is nondecreasing: x <= y gives F̂(x) <= F̂(y).
pub proof fn lemma_ecdf_monotone(s: Seq<u64>, x: u64, y: u64)
    requires
        le_bits(x, y),
    ensures
        count_where(s.len() as int, at_most(s, x)) <= count_where(s.len() as int, at_most(s, y)),
{
    assert forall|j: int| 0 <= j < s.len() && #[trigger] at_most(s, x)(j) implies at_most(s, y)(
        j,
    ) by {
        assert(le_bits(s[j], x));
    }
    lemma_count_where_implies(s.len() as int, at_most(s, x), at_most(s, y));
}

/// The empirical CDF reaches 1 at the largest data point and beyond: when
/// every point lies at or below x, F̂(x) = 1.
pub proof fn lemma_ecdf_reaches_one(s: Seq<u64>, x: u64)
    requires
        forall|j: int| 0 <= j < s.len() ==> le_bits(#[trigger] s[j], x),
    ensures
        count_where(s.len() as int, at_most(s, x)) == s.len(),
{
    assert forall|j: int| 0 <= j < s.len() implies #[trigger] at_most(s, x)(j) by {
        assert(le_bits(s[j], x));
    }
    lemma_count_where_every(s.len() as int, at_most(s, x));
}

/// The empirical CDF is 0 below the smallest data point.
pub proof fn lemma_ecdf_starts_at_zero(s: Seq<u64>, x: u64)
    requires
        forall|j: int| 0 <= j < s.len() ==> lt_bits(x, #[trigger] s[j]),
    ensures
        count_where(s.len() as int, at_most(s, x)) == 0,
{
    assert forall|j: int| 0 <= j < s.len() implies !#[trigger] at_most(s, x)(j) by {
        assert(lt_bits(x, s[j]));
    }
    lemma_count_where_none(s.len() as int, at_most(s, x));
}

/// The rank of a data point, one more than the number of points strictly
/// below it, lies in `1..=n`: the pseudo-observation rank / (n + 1) lies
/// strictly inside (0, 1).
pub proof fn lemma_ecdf_rank_bounds(s: Seq<u64>, k: int)
    requires
        0 <= k < s.len(),
    ensures
        1 <= count_where(s.len() as int, strictly_below(s, s[k])) + 1 <= s.len(),
{
    let n = s.len() as int;
    let lower = strictly_below(s, s[k]);
    assert(!lower(k));
    let without_k = |j: int| lower(j) && j != k;
    lemma_count_where_ext(n, lower, without_k);
    lemma_count_where_implies(n, without_k, |j: int| j != k);
    lemma_count_where_disjoint_sum(n, |j: int| j != k, |j: int| j == k, |j: int| true);
    lemma_count_where_witness(n, |j: int| j == k, k);
    lemma_count_where_every(n, |j: int| true);
}

/// The 1-based positions of the values of `data` when sorted stably by
/// `f64::total_cmp`; tied values are ranked in input order.
pub fn ordinal_ranks(data: &Vec<u64>) -> (r: Vec<u64>)
    ensures
        r@.len() == data@.len(),
        forall|i: int| 0 <= i < data@.len() ==> #[trigger] r@[i] == ordinal_rank(data@, i),
{
    let n = data.len();
    let mut ranks: Vec<u64> = Vec::new();
    for i in 0..n
        invariant
            n == data@.len(),
            ranks@.len() == i,
            forall|t: int| 0 <= t < i ==> #[trigger] ranks@[t] == ordinal_rank(data@, t),
    {
        let x = data[i];
        let mut less: u64 = 0;
        let mut earlier_equal: u64 = 0;
        for j in 0..n
            invariant
                n == data@.len(),
                i < n,
                x == data@[i as int],
                less == count_where(j as int, total_below(data@, i as int)),
                earlier_equal == count_where(
                    if j <= i { j as int } else { i as int },
                    same_bits(data@, i as int),
                ),
                less + earlier_equal <= j,
        {
            if total_lt(data[j], x) {
                less = less + 1;
            } else if j < i && total_key_of(data[j]) == total_key_of(x) {
                earlier_equal = earlier_equal + 1;
            }
        }
        proof {
            lemma_ordinal_ranks_are_a_permutation(data@);
            assert(1 <= ordinal_rank(data@, i as int) <= n);
        }
        ranks.push(less + earlier_equal + 1);
    }
    ranks
}

/// Estimate the pair counts of Kendall's tau from data.
///
/// Kendall's tau is `(concordant - discordant) / (n choose 2)`. Pairs whose
/// differences are tied (or NaN) count as neither. Fails on samples of
/// different lengths and on fewer than 2 observations.
pub fn kendall_tau(x: &Vec<u64>, y: &Vec<u64>) -> (r: Result<KendallCounts>)
    requires
        x@.len() <= MAX_SAMPLE_LEN,
    ensures
        x@.len() != y@.len() ==> r is Err && is_dimension_mismatch(
            r->Err_0,
            x@.len(),
            y@.len(),
        ),
        x@.len() == y@.len() && x@.len() < 2 ==> r is Err && is_invalid_parameter(
            r->Err_0,
            "need at least 2 observations"@,
        ),
        x@.len() == y@.len() && x@.len() >= 2 ==> r is Ok,
        r is Ok ==> r->Ok_0.concordant == concordant_pairs(x@, y@, x@.len() as int)
            && r->Ok_0.discordant == discordant_pairs(x@, y@, x@.len() as int),
{
    if x.len() != y.len() {
        return Err(CopulaError::dimension_mismatch(x.len(), y.len()));
    }
    if x.len() < 2 {
        return Err(CopulaError::invalid_parameter("need at least 2 observations"));
    }
    Ok(crate::utils::count_pairs(x, y))
}

/// The average ranks of both samples, doubled (see
/// [`crate::utils::average_ranks`]: tied values share the average of the
/// ranks they occupy), from which Spearman's rho is the Pearson correlation.
/// Fails on samples of different lengths and on fewer than 2 observations.
pub fn spearman_ranks(x: &Vec<u64>, y: &Vec<u64>) -> (r: Result<(Vec<u64>, Vec<u64>)>)
    requires
        x@.len() <= MAX_RANKED_LEN,
    ensures
        x@.len() != y@.len() ==> r is Err && is_dimension_mismatch(
            r->Err_0,
            x@.len(),
            y@.len(),
        ),
        x@.len() == y@.len() && x@.len() < 2 ==> r is Err && is_invalid_parameter(
            r->Err_0,
            "need at least 2 observations"@,
        ),
        x@.len() == y@.len() && x@.len() >= 2 ==> r is Ok,
        r is Ok ==> {
            &&& r->Ok_0.0@.len() == x@.len()
            &&& r->Ok_0.1@.len() == y@.len()
            &&& forall|i: int|
                0 <= i < x@.len() ==> #[trigger] r->Ok_0.0@[i] == doubled_average_rank(x@, i)
            &&& forall|i: int|
                0 <= i < y@.len() ==> #[trigger] r->Ok_0.1@[i] == doubled_average_rank(y@, i)
        },
{
    if x.len() != y.len() {
        return Err(CopulaError::dimension_mismatch(x.len(), y.len()));
    }
    if x.len() < 2 {
        return Err(CopulaError::invalid_parameter("need at least 2 observations"));
    }
    Ok((average_ranks(x), average_ranks(y)))
}

/// The ordinal ranks of every column of `data`; the pseudo-observations are
/// `rank / (n + 1)` with `n` the number of rows.
///
/// Fails on an empty matrix, and on a column holding NaN or an infinity (the
/// first such column).
pub fn pseudo_observation_ranks(data: &RealMatrix) -> (r: Result<Vec<Vec<u64>>>)
    ensures
        data.entries().len() == 0 || data.width() == 0 ==> r is Err && is_data_error(
            r->Err_0,
            "Data matrix must be non-empty"@,
        ),
        data.entries().len() > 0 && data.width() > 0 ==> {
            &&& r is Ok <==> forall|j: int|
                0 <= j < data.width() ==> all_finite(#[trigger] column_of(data.entries(), j))
            &&& r is Err ==> is_data_error(
                r->Err_0,
                "EmpiricalCdf data contains non-finite values (NaN or infinite)"@,
            )
        },
        r is Ok ==> r->Ok_0@.len() == data.width() && forall|j: int|
            0 <= j < data.width() ==> {
                &&& (#[trigger] r->Ok_0@[j])@.len() == data.entries().len()
                &&& forall|i: int|
                    0 <= i < data.entries().len() ==> #[trigger] r->Ok_0@[j]@[i]
                        == ordinal_rank(column_of(data.entries(), j), i)
            },
{
    let n = data.nrows();
    let d = data.ncols();
    if n == 0 || d == 0 {
        return Err(CopulaError::data_error("Data matrix must be non-empty"));
    }
    let ghost m = data.entries();
    let mut columns: Vec<Vec<u64>> = Vec::new();
    for j in 0..d
        invariant
            n == m.len(),
            n > 0,
            m == data.entries(),
            d == data.width(),
            columns@.len() == j,
            forall|k: int| 0 <= k < j ==> all_finite(#[trigger] column_of(m, k)),
            forall|k: int|
                0 <= k < j ==> {
                    &&& (#[trigger] columns@[k])@.len() == n
                    &&& forall|i: int|
                        0 <= i < n ==> #[trigger] columns@[k]@[i] == ordinal_rank(column_of(m, k), i)
                },
    {
        let column = data.column(j);
        assert(column@ =~= column_of(m, j as int));
        let _ecdf = EmpiricalCdf::new(column.clone())?;
        columns.push(ordinal_ranks(&column));
    }
    Ok(columns)
}

/// Method of moments estimator using Kendall's tau.
///
/// Many copulas have closed-form relationships between τ and parameters:
/// Clayton θ = 2τ/(1-τ), Gumbel θ = 1/(1-τ), Gaussian ρ = sin(πτ/2). Each
/// is defined on a range of τ, which the checks below enforce.
pub struct TauEstimator;

impl TauEstimator {
    /// The range of τ for the Clayton estimate: (0, 1).
    ///
    /// τ outside (-1, 1) fails with "tau must be in (-1, 1)", τ in (-1, 0]
    /// with "Clayton requires positive tau". A NaN passes, as no comparison
    /// rejects it.
    pub fn check_clayton_tau(tau: u64) -> (r: Result<()>)
        ensures
            le_bits(tau, MINUS_ONE_BITS) || le_bits(ONE_BITS, tau) ==> r is Err
                && is_invalid_parameter(r->Err_0, "tau must be in (-1, 1)"@),
            !(le_bits(tau, MINUS_ONE_BITS) || le_bits(ONE_BITS, tau)) && le_bits(tau, ZERO_BITS)
                ==> r is Err && is_invalid_parameter(r->Err_0, "Clayton requires positive tau"@),
            r is Ok <==> !(le_bits(tau, MINUS_ONE_BITS) || le_bits(ONE_BITS, tau) || le_bits(
                tau,
                ZERO_BITS,
            )),
    {
        if le(tau, MINUS_ONE_BITS) || le(ONE_BITS, tau) {
            return Err(CopulaError::invalid_parameter("tau must be in (-1, 1)"));
        }
        if le(tau, ZERO_BITS) {
            return Err(CopulaError::invalid_parameter("Clayton requires positive tau"));
        }
        Ok(())
    }

    /// The range of τ for the Gumbel estimate: (0, 1); outside it fails with
    /// "Gumbel requires tau in (0, 1)".
    pub fn check_gumbel_tau(tau: u64) -> (r: Result<()>)
        ensures
            r is Ok <==> !(le_bits(tau, ZERO_BITS) || le_bits(ONE_BITS, tau)),
            r is Err ==> is_invalid_parameter(r->Err_0, "Gumbel requires tau in (0, 1)"@),
    {
        if le(tau, ZERO_BITS) || le(ONE_BITS, tau) {
            return Err(CopulaError::invalid_parameter("Gumbel requires tau in (0, 1)"));
        }
        Ok(())
    }

    /// The range of τ for the Gaussian estimate: (-1, 1); outside it fails
    /// with "tau must be in (-1, 1)".
    pub fn check_gaussian_tau(tau: u64) -> (r: Result<()>)
        ensures
            r is Ok <==> !(le_bits(tau, MINUS_ONE_BITS) || le_bits(ONE_BITS, tau)),
            r is Err ==> is_invalid_parameter(r->Err_0, "tau must be in (-1, 1)"@),
    {
        if le(tau, MINUS_ONE_BITS) || le(ONE_BITS, tau) {
            return Err(CopulaError::invalid_parameter("tau must be in (-1, 1)"));
        }
        Ok(())
    }
}

/// On finite values, a data point counts toward F̂(x) exactly when it is at
/// most `x` (equality included), and toward its rank's lower count exactly
/// when it is strictly below, comparing the values as real numbers.
pub proof fn lemma_ecdf_compares_values(s: Seq<u64>, x: u64, j: int)
    requires
        0 <= j < s.len(),
        is_finite_bits(s[j]),
        is_finite_bits(x),
    ensures
        at_most(s, x)(j) <==> order_key(s[j]) <= order_key(x),
        strictly_below(s, x)(j) <==> order_key(s[j]) < order_key(x),
{
}

/// Every data point counts toward F̂ at itself, and not toward its own
/// strictly-below count: F̂ at the largest point is 1, and at any point it
/// is at least 1/n.
pub proof fn lemma_ecdf_counts_each_point(s: Seq<u64>, k: int)
    requires
        0 <= k < s.len(),
        is_finite_bits(s[k]),
    ensures
        at_most(s, s[k])(k),
        !strictly_below(s, s[k])(k),
        count_where(s.len() as int, at_most(s, s[k])) >= 1,
{
    lemma_ecdf_compares_values(s, s[k], k);
    lemma_count_where_witness(s.len() as int, at_most(s, s[k]), k);
}

} // verus!
