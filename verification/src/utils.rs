//! Rank statistics and data preprocessing for copula modelling.
//!
//! These are the exact parts of the utilities: ranks, pair counts, row
//! selection and the checks that come before them. The real-valued results
//! (a tau, a pseudo-observation) are ratios of the integers computed here.

use vstd::prelude::*;
use crate::binary64::{is_finite_bits, is_finite, is_nan, order_key, order_key_of};
use crate::counting::{
    lemma_count_where_bound, lemma_count_where_every, lemma_count_where_implies,
    below, concordant, concordant_after, concordant_pairs, count_where, difference_sign, discordant,
    discordant_after, discordant_pairs, doubled_average_rank, equal_to, lemma_count_where_monotone,
    lemma_count_where_none, lemma_count_where_witness,
};
use crate::binary64::{
    eq, eq_bits, le, le_bits, lt, lt_bits, ONE_BITS, ZERO_BITS,
};
use crate::error::{
    is_data_error, is_dimension_mismatch, outside_unit_interval, validate_finite_data,
    validate_unit_range, CopulaError, Result,
};
use crate::matrix::RealMatrix;
use crate::text::{append_decimal, append_str, decimal, text_of};

verus! {

/// The largest sample length the pair counts of Kendall's tau take: the
/// n(n - 1)/2 pairs must be counted in 64 bits (no vector of 8-byte values
/// gets near it).
pub const MAX_SAMPLE_LEN: u64 = 0xFFFF_FFFF;

/// The largest sample length the doubled ranks take: a doubled rank is at
/// most 2n, which must fit in 64 bits.
pub const MAX_RANKED_LEN: u64 = 0x7FFF_FFFF_FFFF_FFFF;

/// All values of `s` are finite.
pub open spec fn all_finite(s: Seq<u64>) -> bool {
    forall|i: int| 0 <= i < s.len() ==> is_finite_bits(#[trigger] s[i])
}

/// The message of the error for non-finite values in data named `name`.
pub open spec fn non_finite_message(name: Seq<char>) -> Seq<char> {
    name + " contains non-finite values (NaN or infinite)"@
}

/// The average ranks of the values of `data`, doubled, whatever the values.
///
/// Ranks are 1-based; equal values share the average of the ranks they
/// occupy, so a rank may be a half integer. Entry `i` of the result is twice
/// the rank of `data[i]`: `[1.0, 1.0, 2.0]` gives `[3, 3, 6]`, the ranks
/// `[1.5, 1.5, 3]`.
pub fn average_ranks(data: &Vec<u64>) -> (r: Vec<u64>)
    requires
        data@.len() <= MAX_RANKED_LEN,
    ensures
        r@.len() == data@.len(),
        forall|i: int| 0 <= i < data@.len() ==> #[trigger] r@[i] == doubled_average_rank(data@, i),
{
    let n = data.len();
    let mut ranks: Vec<u64> = Vec::new();
    for i in 0..n
        invariant
            n == data@.len(),
            n <= MAX_RANKED_LEN,
            ranks@.len() == i,
            forall|k: int| 0 <= k < i ==> #[trigger] ranks@[k] == doubled_average_rank(data@, k),
    {
        let key = order_key_of(data[i]);
        let mut less: u64 = 0;
        let mut equal: u64 = 0;
        for j in 0..n
            invariant
                n == data@.len(),
                n <= MAX_RANKED_LEN,
                i < n,
                key == order_key(data@[i as int]),
                less == count_where(j as int, below(data@, i as int)),
                equal == count_where(j as int, equal_to(data@, i as int)),
                less + equal <= j,
        {
            let other = order_key_of(data[j]);
            if other < key {
                less = less + 1;
            } else if other == key {
                equal = equal + 1;
            }
        }
        ranks.push(2 * less + equal + 1);
    }
    ranks
}

/// Compute empirical ranks of data points, doubled (see [`average_ranks`]):
/// `[3.0, 1.0, 4.0, 1.0, 5.0]` gives `[6, 3, 8, 3, 10]`, the ranks
/// `[3, 1.5, 4, 1.5, 5]`.
///
/// Empty data gives empty ranks; otherwise non-finite data is a data error.
pub fn empirical_ranks(data: &Vec<u64>) -> (r: Result<Vec<u64>>)
    requires
        data@.len() <= MAX_RANKED_LEN,
    ensures
        data@.len() == 0 ==> r is Ok && r->Ok_0@.len() == 0,
        data@.len() > 0 ==> (r is Ok <==> all_finite(data@)),
        r is Err ==> is_data_error(r->Err_0, non_finite_message("input data"@)),
        r is Ok ==> r->Ok_0@.len() == data@.len() && forall|i: int|
            0 <= i < data@.len() ==> #[trigger] r->Ok_0@[i] == doubled_average_rank(data@, i),
{
    let n = data.len();
    if n == 0 {
        return Ok(Vec::new());
    }
    validate_finite_data(data, "input data")?;
    Ok(average_ranks(data))
}

/// The numbers of concordant and discordant pairs of a paired sample.
///
/// Kendall's tau is `(concordant - discordant) / (concordant + discordant)`,
/// and 0 when every pair is tied.
#[derive(Debug, Clone, Copy, PartialEq, Eq)]
pub struct KendallCounts {
    /// Pairs whose two differences have the same strict sign
    pub concordant: u64,
    /// Pairs whose two differences have opposite strict signs
    pub discordant: u64,
}

/// The sign of `b - a` as `f64` subtraction gives it (`None` for NaN).
pub fn difference_sign_of(b: u64, a: u64) -> (s: Option<i8>)
    ensures
        (s is Some) == (difference_sign(b, a) is Some),
        s is Some ==> s->0 as int == difference_sign(b, a)->0,
{
    if is_nan(a) || is_nan(b) {
        return None;
    }
    let ka = order_key_of(a);
    let kb = order_key_of(b);
    if !is_finite(a) && !is_finite(b) && ka == kb {
        None
    } else if ka < kb {
        Some(1)
    } else if kb < ka {
        Some(-1)
    } else {
        Some(0)
    }
}

/// Whether observations `i` and `j` are concordant (1), discordant (-1) or
/// neither (0).
fn pair_direction(x: &Vec<u64>, y: &Vec<u64>, i: usize, j: usize) -> (d: i8)
    requires
        i < x@.len(),
        j < x@.len(),
        x@.len() == y@.len(),
    ensures
        d == 1 <==> concordant(x@, y@, i as int, j as int),
        d == -1 <==> discordant(x@, y@, i as int, j as int),
        d == 0 || d == 1 || d == -1,
{
    let sx = difference_sign_of(x[j], x[i]);
    let sy = difference_sign_of(y[j], y[i]);
    match (sx, sy) {
        (Some(p), Some(q)) => {
            let prod = p * q;
            if prod > 0 {
                1
            } else if prod < 0 {
                -1
            } else {
                0
            }
        },
        _ => 0,
    }
}

/// Count the concordant and discordant pairs of `(x, y)`.
pub(crate) fn count_pairs(x: &Vec<u64>, y: &Vec<u64>) -> (c: KendallCounts)
    requires
        x@.len() == y@.len(),
        x@.len() <= MAX_SAMPLE_LEN,
    ensures
        c.concordant == concordant_pairs(x@, y@, x@.len() as int),
        c.discordant == discordant_pairs(x@, y@, x@.len() as int),
{
    let n = x.len();
    let mut concordant: u64 = 0;
    let mut discordant: u64 = 0;
    for i in 0..n
        invariant
            n == x@.len(),
            n == y@.len(),
            n <= MAX_SAMPLE_LEN,
            concordant == concordant_pairs(x@, y@, i as int),
            discordant == discordant_pairs(x@, y@, i as int),
            concordant + discordant <= i * n,
    {
        proof {
            lemma_count_where_none(i + 1, concordant_after(x@, y@, i as int));
            lemma_count_where_none(i + 1, discordant_after(x@, y@, i as int));
        }
        for j in (i + 1)..n
            invariant
                n == x@.len(),
                n == y@.len(),
                n <= MAX_SAMPLE_LEN,
                i < n,
                concordant == concordant_pairs(x@, y@, i as int) + count_where(
                    j as int,
                    concordant_after(x@, y@, i as int),
                ),
                discordant == discordant_pairs(x@, y@, i as int) + count_where(
                    j as int,
                    discordant_after(x@, y@, i as int),
                ),
                concordant + discordant <= i * n + j,
        {
            proof {
                assert(i * n + j < n * n) by (nonlinear_arith)
                    requires
                        i < n,
                        j < n,
                ;
                assert(n * n <= MAX_SAMPLE_LEN * MAX_SAMPLE_LEN) by (nonlinear_arith)
                    requires
                        n <= MAX_SAMPLE_LEN,
                ;
            }
            let d = pair_direction(x, y, i, j);
            if d == 1 {
                concordant = concordant + 1;
            } else if d == -1 {
                discordant = discordant + 1;
            }
        }
        proof {
            assert((i + 1) * n == i * n + n) by (nonlinear_arith);
        }
    }
    KendallCounts { concordant, discordant }
}

/// Compute the pair counts behind Kendall's tau correlation coefficient.
///
/// Observations `i < j` are concordant when `x[i] - x[j]` and `y[i] - y[j]`
/// have the same strict sign and discordant when their signs are opposite;
/// tied pairs count as neither. Fails on samples of different lengths, on
/// fewer than 2 observations, and on non-finite data (`x` checked first).
pub fn kendall_tau(x: &Vec<u64>, y: &Vec<u64>) -> (r: Result<KendallCounts>)
    requires
        x@.len() <= MAX_SAMPLE_LEN,
    ensures
        x@.len() != y@.len() ==> r is Err && is_dimension_mismatch(
            r->Err_0,
            x@.len(),
            y@.len(),
        ),
        x@.len() == y@.len() && x@.len() < 2 ==> r is Err && is_data_error(
            r->Err_0,
            "Need at least 2 observations"@,
        ),
        x@.len() == y@.len() && x@.len() >= 2 ==> {
            &&& r is Ok <==> all_finite(x@) && all_finite(y@)
            &&& !all_finite(x@) ==> is_data_error(r->Err_0, non_finite_message("x variable"@))
            &&& all_finite(x@) && !all_finite(y@) ==> is_data_error(
                r->Err_0,
                non_finite_message("y variable"@),
            )
        },
        r is Ok ==> r->Ok_0.concordant == concordant_pairs(x@, y@, x@.len() as int)
            && r->Ok_0.discordant == discordant_pairs(x@, y@, x@.len() as int),
{
    if x.len() != y.len() {
        return Err(CopulaError::dimension_mismatch(x.len(), y.len()));
    }
    let n = x.len();
    if n < 2 {
        return Err(CopulaError::data_error("Need at least 2 observations"));
    }
    validate_finite_data(x, "x variable")?;
    validate_finite_data(y, "y variable")?;
    Ok(count_pairs(x, y))
}

/// The doubled ranks of both samples, from which Spearman's rho is the
/// Pearson correlation.
///
/// Fails on samples of different lengths, on fewer than 2 observations, and
/// on non-finite data (`x` checked first).
pub fn spearman_ranks(x: &Vec<u64>, y: &Vec<u64>) -> (r: Result<(Vec<u64>, Vec<u64>)>)
    requires
        x@.len() <= MAX_RANKED_LEN,
    ensures
        x@.len() != y@.len() ==> r is Err && is_dimension_mismatch(
            r->Err_0,
            x@.len(),
            y@.len(),
        ),
        x@.len() == y@.len() && x@.len() < 2 ==> r is Err && is_data_error(
            r->Err_0,
            "Need at least 2 observations"@,
        ),
        x@.len() == y@.len() && x@.len() >= 2 ==> {
            &&& r is Ok <==> all_finite(x@) && all_finite(y@)
            &&& r is Err ==> is_data_error(r->Err_0, non_finite_message("input data"@))
        },
        r is Ok ==> {
            &&& r->Ok_0.0@.len() == x@.len()
            &&& r->Ok_0.1@.len() == y@.len()
            &&& forall|i: int|
                0 <= i < x@.len() ==> #[trigger] r->Ok_0.0@[i] == doubled_average_rank(x@, i)
            &&& forall|i: int|
                0 <= i < y@.len() ==> #[trigger] r->Ok_0.1@[i] == doubled_average_rank(y@, i)
        },
{
    if x.len() != y.len() {
        return Err(CopulaError::dimension_mismatch(x.len(), y.len()));
    }
    if x.len() < 2 {
        return Err(CopulaError::data_error("Need at least 2 observations"));
    }
    let ranks_x = empirical_ranks(x)?;
    let ranks_y = empirical_ranks(y)?;
    Ok((ranks_x, ranks_y))
}

/// The name under which column `j` of a data matrix appears in messages.
pub open spec fn column_name(j: nat) -> Seq<char> {
    "column "@ + decimal(j)
}

/// Check that column `j` of `data` is finite, naming it "column j".
fn validate_finite_column(column: &Vec<u64>, j: usize) -> (r: Result<()>)
    ensures
        r is Ok <==> all_finite(column@),
        r is Err ==> is_data_error(r->Err_0, non_finite_message(column_name(j as nat))),
{
    let n = column.len();
    for i in 0..n
        invariant
            n == column@.len(),
            forall|k: int| 0 <= k < i ==> is_finite_bits(#[trigger] column@[k]),
    {
        if !is_finite(column[i]) {
            let mut message = text_of("column ");
            append_decimal(&mut message, j);
            append_str(&mut message, " contains non-finite values (NaN or infinite)");
            return Err(CopulaError::DataError { message });
        }
    }
    Ok(())
}

/// Column `j` of the rows `m`.
pub open spec fn column_of(m: Seq<Seq<u64>>, j: int) -> Seq<u64> {
    Seq::new(m.len(), |i: int| m[i][j])
}

/// The doubled ranks of every column of `data`, from which the
/// pseudo-observations are `rank / (n + 1)` with `n` the number of rows.
///
/// Entry `[j][i]` is twice the average rank of row `i` within column `j` (see
/// [`empirical_ranks`]). An empty matrix is a data error ("Data matrix is
/// empty"), as is a non-finite value, reported for the first such column.
pub fn pseudo_observation_ranks(data: &RealMatrix) -> (r: Result<Vec<Vec<u64>>>)
    requires
        data.entries().len() <= MAX_RANKED_LEN,
    ensures
        data.entries().len() == 0 || data.width() == 0 ==> r is Err && is_data_error(
            r->Err_0,
            "Data matrix is empty"@,
        ),
        data.entries().len() > 0 && data.width() > 0 ==> {
            &&& r is Ok <==> forall|j: int|
                0 <= j < data.width() ==> all_finite(#[trigger] column_of(data.entries(), j))
            &&& r is Err ==> exists|j: int|
                0 <= j < data.width() && !all_finite(#[trigger] column_of(data.entries(), j))
                    && (forall|k: int| 0 <= k < j ==> all_finite(#[trigger] column_of(data.entries(), k)))
                    && is_data_error(r->Err_0, non_finite_message(column_name(j as nat)))
        },
        r is Ok ==> r->Ok_0@.len() == data.width() && forall|j: int|
            0 <= j < data.width() ==> {
                &&& (#[trigger] r->Ok_0@[j])@.len() == data.entries().len()
                &&& forall|i: int|
                    0 <= i < data.entries().len() ==> #[trigger] r->Ok_0@[j]@[i]
                        == doubled_average_rank(column_of(data.entries(), j), i)
            },
{
    let n_rows = data.nrows();
    let n_cols = data.ncols();
    if n_rows == 0 || n_cols == 0 {
        return Err(CopulaError::data_error("Data matrix is empty"));
    }
    let mut columns: Vec<Vec<u64>> = Vec::new();
    for j in 0..n_cols
        invariant
            n_rows == data.entries().len(),
            n_rows > 0,
            n_rows <= MAX_RANKED_LEN,
            n_cols == data.width(),
            columns@.len() == j,
            forall|k: int| 0 <= k < j ==> all_finite(#[trigger] column_of(data.entries(), k)),
            forall|k: int|
                0 <= k < j ==> {
                    &&& (#[trigger] columns@[k])@.len() == n_rows
                    &&& forall|i: int|
                        0 <= i < n_rows ==> #[trigger] columns@[k]@[i] == doubled_average_rank(
                            column_of(data.entries(), k),
                            i,
                        )
                },
    {
        let column = data.column(j);
        assert(column@ =~= column_of(data.entries(), j as int));
        validate_finite_column(&column, j)?;
        let ranks = match empirical_ranks(&column) {
            Ok(ranks) => ranks,
            Err(e) => {
                return Err(e);
            },
        };
        columns.push(ranks);
    }
    Ok(columns)
}

/// The 0-based positions behind the empirical CDF transform.
///
/// Entry `[j][i]` is the number of values in column `j` strictly below row
/// `i`'s value; the transformed value is `(position + 1) / (n + 1)`. A
/// non-finite value is a data error, reported for the first such column.
pub fn empirical_cdf_positions(data: &RealMatrix) -> (r: Result<Vec<Vec<u64>>>)
    ensures
        r is Ok <==> forall|j: int|
            0 <= j < data.width() ==> all_finite(#[trigger] column_of(data.entries(), j)),
        r is Err ==> exists|j: int|
            0 <= j < data.width() && !all_finite(#[trigger] column_of(data.entries(), j))
                && (forall|k: int| 0 <= k < j ==> all_finite(#[trigger] column_of(data.entries(), k)))
                && is_data_error(r->Err_0, non_finite_message(column_name(j as nat))),
        r is Ok ==> r->Ok_0@.len() == data.width() && forall|j: int|
            0 <= j < data.width() ==> {
                &&& (#[trigger] r->Ok_0@[j])@.len() == data.entries().len()
                &&& forall|i: int|
                    0 <= i < data.entries().len() ==> #[trigger] r->Ok_0@[j]@[i] == count_where(
                        data.entries().len() as int,
                        below(column_of(data.entries(), j), i),
                    )
            },
{
    let n_rows = data.nrows();
    let n_cols = data.ncols();
    let mut columns: Vec<Vec<u64>> = Vec::new();
    for j in 0..n_cols
        invariant
            n_rows == data.entries().len(),
            n_cols == data.width(),
            columns@.len() == j,
            forall|k: int| 0 <= k < j ==> all_finite(#[trigger] column_of(data.entries(), k)),
            forall|k: int|
                0 <= k < j ==> {
                    &&& (#[trigger] columns@[k])@.len() == n_rows
                    &&& forall|i: int|
                        0 <= i < n_rows ==> #[trigger] columns@[k]@[i] == count_where(
                            n_rows as int,
                            below(column_of(data.entries(), k), i),
                        )
                },
    {
        let column = data.column(j);
        let ghost col = column_of(data.entries(), j as int);
        assert(column@ =~= col);
        validate_finite_column(&column, j)?;
        let mut positions: Vec<u64> = Vec::new();
        for i in 0..n_rows
            invariant
                n_rows == column@.len(),
                    column@ == col,
                positions@.len() == i,
                forall|t: int|
                    0 <= t < i ==> #[trigger] positions@[t] == count_where(
                        n_rows as int,
                        below(col, t),
                    ),
        {
            let key = order_key_of(column[i]);
            let mut less: u64 = 0;
            for k in 0..n_rows
                invariant
                    n_rows == column@.len(),
                            i < n_rows,
                    column@ == col,
                    key == order_key(col[i as int]),
                    less == count_where(k as int, below(col, i as int)),
                    less <= k,
            {
                if order_key_of(column[k]) < key {
                    less = less + 1;
                }
            }
            positions.push(less);
        }
        columns.push(positions);
    }
    Ok(columns)
}

/// The value of any copula at a point with a coordinate equal to 0 or 1, when
/// it follows from the copula axioms alone.
///
/// C(u) = 0 if some u_i = 0. Coordinates equal to 1 drop out, so C(u) = 1 when
/// every u_i = 1 and C(u) = u_j when u_j is the only coordinate below 1.
/// Returns `None` when at least two coordinates lie below 1 (and none is 0).
/// `u` must already be validated to lie in [0, 1].
pub fn copula_boundary_value(u: &Vec<u64>) -> (r: Option<u64>)
    ensures
        (exists|i: int| 0 <= i < u@.len() && eq_bits(#[trigger] u@[i], ZERO_BITS)) ==> r
            == Some(ZERO_BITS),
        !(exists|i: int| 0 <= i < u@.len() && eq_bits(#[trigger] u@[i], ZERO_BITS)) ==> {
            let interior = count_where(u@.len() as int, |i: int| lt_bits(u@[i], ONE_BITS));
            &&& interior == 0 ==> r == Some(ONE_BITS)
            &&& interior == 1 ==> r is Some && exists|i: int|
                0 <= i < u@.len() && lt_bits(#[trigger] u@[i], ONE_BITS) && r->0 == u@[i]
            &&& interior >= 2 ==> r is None
        },
{
    let n = u.len();
    for i in 0..n
        invariant
            n == u@.len(),
            forall|k: int| 0 <= k < i ==> !eq_bits(#[trigger] u@[k], ZERO_BITS),
    {
        if eq(u[i], ZERO_BITS) {
            return Some(ZERO_BITS);
        }
    }
    let ghost interior = |k: int| lt_bits(u@[k], ONE_BITS);
    let mut found: Option<u64> = None;
    let mut count: usize = 0;
    for i in 0..n
        invariant
            n == u@.len(),
            interior == (|k: int| lt_bits(u@[k], ONE_BITS)),
            forall|k: int| 0 <= k < n ==> !eq_bits(#[trigger] u@[k], ZERO_BITS),
            count == count_where(i as int, interior),
            count <= 1,
            count == 0 ==> found is None,
            count == 1 ==> found is Some && exists|k: int|
                0 <= k < i && lt_bits(#[trigger] u@[k], ONE_BITS) && found->0 == u@[k],
    {
        if lt(u[i], ONE_BITS) {
            if count == 1 {
                proof {
                    assert(count_where(i + 1, interior) == 2);
                    lemma_count_where_monotone(i + 1, n as int, interior);
                }
                return None;
            }
            count = count + 1;
            found = Some(u[i]);
        }
    }
    assert(count_where(u@.len() as int, |k: int| lt_bits(u@[k], ONE_BITS)) == count);
    match found {
        None => Some(ONE_BITS),
        Some(only) => Some(only),
    }
}

/// Row `i` of `m` lies componentwise at or below `u`.
pub open spec fn dominated_by(m: Seq<Seq<u64>>, u: Seq<u64>, i: int) -> bool {
    forall|j: int| 0 <= j < u.len() ==> le_bits(#[trigger] m[i][j], u[j])
}

/// The rows of `m` that lie componentwise at or below `u`.
pub open spec fn rows_below(m: Seq<Seq<u64>>, u: Seq<u64>) -> spec_fn(int) -> bool {
    |i: int| dominated_by(m, u, i)
}

/// Count the pseudo-observations at or below `u`: the empirical copula at
/// `u` is this count divided by the number of rows.
///
/// Fails when `u` does not have one coordinate per column, and when a
/// coordinate lies outside [0, 1] (listing every such coordinate).
pub fn empirical_copula_count(pseudo_obs: &RealMatrix, u: &Vec<u64>) -> (r: Result<u64>)
    ensures
        u@.len() != pseudo_obs.width() ==> r is Err && is_dimension_mismatch(
            r->Err_0,
            pseudo_obs.width(),
            u@.len(),
        ),
        u@.len() == pseudo_obs.width() ==> {
            &&& r is Ok <==> outside_unit_interval(u@).len() == 0
            &&& r is Err ==> (r->Err_0 matches CopulaError::InvalidRange { values: v } && v@
                == outside_unit_interval(u@))
        },
        r is Ok ==> r->Ok_0 == count_where(
            pseudo_obs.entries().len() as int,
            rows_below(pseudo_obs.entries(), u@),
        ),
{
    let n_rows = pseudo_obs.nrows();
    let n_cols = pseudo_obs.ncols();
    if u.len() != n_cols {
        return Err(CopulaError::dimension_mismatch(n_cols, u.len()));
    }
    validate_unit_range(u)?;
    pseudo_obs.note_rectangular();
    let ghost m = pseudo_obs.entries();
    let mut count: u64 = 0;
    for i in 0..n_rows
        invariant
            n_rows == m.len(),
            n_cols == u@.len(),
            m == pseudo_obs.entries(),
            forall|k: int| 0 <= k < m.len() ==> (#[trigger] m[k]).len() == n_cols,
            count == count_where(i as int, rows_below(m, u@)),
            count <= i,
    {
        let row = pseudo_obs.row(i);
        let mut all_below = true;
        for j in 0..n_cols
            invariant
                n_cols == u@.len(),
                row@ == m[i as int],
                row@.len() == n_cols,
                all_below == (forall|k: int| 0 <= k < j ==> le_bits(#[trigger] m[i as int][k], u@[k])),
        {
            if !le(row[j], u[j]) {
                all_below = false;
            }
        }
        if all_below {
            count = count + 1;
        }
    }
    Ok(count)
}

/// Every entry of every row lies in the open interval (0, 1).
pub open spec fn valid_pseudo_observations(m: Seq<Seq<u64>>) -> bool {
    forall|i: int, j: int|
        0 <= i < m.len() && 0 <= j < m[i].len() ==> !outside_open_unit(#[trigger] m[i][j])
}

/// The empirical copula is a proportion: at most every row lies at or below
/// a point, so C(u) lies in [0, 1].
pub proof fn lemma_empirical_copula_bounded(m: Seq<Seq<u64>>, u: Seq<u64>)
    ensures
        count_where(m.len() as int, rows_below(m, u)) <= m.len(),
{
    lemma_count_where_bound(m.len() as int, rows_below(m, u));
}

/// The empirical copula is nondecreasing: raising the coordinates of the
/// point never lowers the count of rows at or below it.
pub proof fn lemma_empirical_copula_monotone(m: Seq<Seq<u64>>, u: Seq<u64>, v: Seq<u64>)
    requires
        u.len() == v.len(),
        forall|j: int| 0 <= j < u.len() ==> le_bits(#[trigger] u[j], v[j]),
    ensures
        count_where(m.len() as int, rows_below(m, u)) <= count_where(
            m.len() as int,
            rows_below(m, v),
        ),
{
    assert forall|i: int| 0 <= i < m.len() && #[trigger] rows_below(m, u)(i) implies rows_below(
        m,
        v,
    )(i) by {
        assert forall|j: int| 0 <= j < v.len() implies le_bits(#[trigger] m[i][j], v[j]) by {
            assert(le_bits(m[i][j], u[j]));
            assert(le_bits(u[j], v[j]));
        }
    }
    lemma_count_where_implies(m.len() as int, rows_below(m, u), rows_below(m, v));
}

/// At the upper corner (1, ..., 1) the empirical copula of valid
/// pseudo-observations is 1: every row lies at or below it.
pub proof fn lemma_empirical_copula_at_upper_corner(m: Seq<Seq<u64>>, u: Seq<u64>)
    requires
        valid_pseudo_observations(m),
        forall|i: int| 0 <= i < m.len() ==> (#[trigger] m[i]).len() == u.len(),
        forall|j: int| 0 <= j < u.len() ==> #[trigger] u[j] == ONE_BITS,
    ensures
        count_where(m.len() as int, rows_below(m, u)) == m.len(),
{
    assert forall|i: int| 0 <= i < m.len() implies #[trigger] rows_below(m, u)(i) by {
        assert forall|j: int| 0 <= j < u.len() implies le_bits(#[trigger] m[i][j], u[j]) by {
            assert(!outside_open_unit(m[i][j]));
        }
    }
    lemma_count_where_every(m.len() as int, rows_below(m, u));
}

/// The empirical copula of valid pseudo-observations is grounded: it is 0
/// at every point with a coordinate at or below 0.
pub proof fn lemma_empirical_copula_grounded(m: Seq<Seq<u64>>, u: Seq<u64>, k: int)
    requires
        valid_pseudo_observations(m),
        forall|i: int| 0 <= i < m.len() ==> (#[trigger] m[i]).len() == u.len(),
        0 <= k < u.len(),
        le_bits(u[k], ZERO_BITS),
    ensures
        count_where(m.len() as int, rows_below(m, u)) == 0,
{
    assert forall|i: int| 0 <= i < m.len() implies !#[trigger] rows_below(m, u)(i) by {
        assert(!outside_open_unit(m[i][k]));
        if le_bits(m[i][k], u[k]) {
            assert(le_bits(m[i][k], ZERO_BITS));
        }
    }
    lemma_count_where_none(m.len() as int, rows_below(m, u));
}

/// On finite values, a row counts toward the empirical copula at `u` exactly
/// when each of its coordinates is at most the matching coordinate of `u`
/// (equality included), comparing the values as real numbers.
pub proof fn lemma_rows_below_compares_values(m: Seq<Seq<u64>>, u: Seq<u64>, i: int)
    requires
        0 <= i < m.len(),
        m[i].len() == u.len(),
        forall|j: int| 0 <= j < u.len() ==> is_finite_bits(#[trigger] m[i][j]) && is_finite_bits(u[j]),
    ensures
        rows_below(m, u)(i) <==> forall|j: int|
            0 <= j < u.len() ==> order_key(#[trigger] m[i][j]) <= order_key(u[j]),
{
}

/// Every observation counts toward the empirical copula at itself: at the
/// point `U_k` of a row of valid pseudo-observations, that row lies
/// componentwise at or below the point, so C_n(U_k) >= 1/n.
pub proof fn lemma_empirical_copula_counts_each_observation(m: Seq<Seq<u64>>, k: int)
    requires
        valid_pseudo_observations(m),
        0 <= k < m.len(),
        forall|i: int| 0 <= i < m.len() ==> (#[trigger] m[i]).len() == m[k].len(),
    ensures
        rows_below(m, m[k])(k),
        count_where(m.len() as int, rows_below(m, m[k])) >= 1,
{
    assert forall|j: int| 0 <= j < m[k].len() implies order_key(#[trigger] m[k][j]) <= order_key(
        m[k][j],
    ) && is_finite_bits(m[k][j]) by {
        assert(!outside_open_unit(m[k][j]));
    }
    lemma_rows_below_compares_values(m, m[k], k);
    lemma_count_where_witness(m.len() as int, rows_below(m, m[k]), k);
}

/// At any finite point at or above every observation, coordinate by
/// coordinate (the componentwise maximum of the rows among them), every row
/// counts: C_n is 1 there.
pub proof fn lemma_empirical_copula_at_componentwise_maximum(m: Seq<Seq<u64>>, u: Seq<u64>)
    requires
        valid_pseudo_observations(m),
        forall|i: int| 0 <= i < m.len() ==> (#[trigger] m[i]).len() == u.len(),
        forall|j: int| 0 <= j < u.len() ==> is_finite_bits(#[trigger] u[j]),
        forall|i: int, j: int|
            0 <= i < m.len() && 0 <= j < u.len() ==> order_key(#[trigger] m[i][j]) <= order_key(
                u[j],
            ),
    ensures
        count_where(m.len() as int, rows_below(m, u)) == m.len(),
{
    assert forall|i: int| 0 <= i < m.len() implies #[trigger] rows_below(m, u)(i) by {
        assert forall|j: int| 0 <= j < u.len() implies is_finite_bits(#[trigger] m[i][j])
            && is_finite_bits(u[j]) by {
            assert(!outside_open_unit(m[i][j]));
        }
        assert forall|j: int| 0 <= j < u.len() implies order_key(#[trigger] m[i][j]) <= order_key(
            u[j],
        ) by {}
        lemma_rows_below_compares_values(m, u, i);
    }
    lemma_count_where_every(m.len() as int, rows_below(m, u));
}

/// Remove observations with missing values: the rows holding a NaN or an
/// infinity are dropped, the others kept in order.
pub fn remove_missing_values(data: &RealMatrix) -> (clean: RealMatrix)
    ensures
        clean.width() == data.width(),
        clean.entries() == data.entries().filter(|row: Seq<u64>| all_finite(row)),
{
    let n_rows = data.nrows();
    let n_cols = data.ncols();
    data.note_rectangular();
    let ghost m = data.entries();
    let mut valid_rows: Vec<usize> = Vec::new();
    for i in 0..n_rows
        invariant
            n_rows == m.len(),
            m == data.entries(),
            n_cols == data.width(),
            forall|k: int| 0 <= k < m.len() ==> (#[trigger] m[k]).len() == n_cols,
            forall|k: int| 0 <= k < valid_rows@.len() ==> #[trigger] valid_rows@[k] < i,
            valid_rows@.map_values(|k: usize| m[k as int]) == m.take(i as int).filter(
                |row: Seq<u64>| all_finite(row),
            ),
    {
        proof {
            reveal_with_fuel(Seq::<_>::filter, 1);
            assert(m.take(i + 1).drop_last() =~= m.take(i as int));
        }
        let row = data.row(i);
        let mut finite = true;
        for j in 0..n_cols
            invariant
                row@ == m[i as int],
                row@.len() == n_cols,
                finite == (forall|k: int| 0 <= k < j ==> is_finite_bits(#[trigger] row@[k])),
        {
            if !is_finite(row[j]) {
                finite = false;
            }
        }
        let ghost before = valid_rows@;
        if finite {
            valid_rows.push(i);
            assert(valid_rows@.map_values(|k: usize| m[k as int]) =~= before.map_values(
                |k: usize| m[k as int],
            ).push(m[i as int]));
        }
    }
    assert(m.take(n_rows as int) =~= m);
    let clean = data.select_rows(&valid_rows);
    assert(clean.entries() =~= valid_rows@.map_values(|k: usize| m[k as int]));
    clean
}

/// A value that is not a valid pseudo-observation: not finite, or outside
/// the open interval (0, 1).
pub open spec fn outside_open_unit(v: u64) -> bool {
    !is_finite_bits(v) || le_bits(v, ZERO_BITS) || le_bits(ONE_BITS, v)
}

/// A value is refused as a pseudo-observation exactly when it is not a real
/// number strictly between 0 and 1 (0x3FF0_0000_0000_0000 is the key of
/// 1.0; `order_key` is the position on the real line).
pub proof fn lemma_pseudo_observation_domain(v: u64)
    ensures
        !outside_open_unit(v) <==> is_finite_bits(v) && 0 < order_key(v) < 0x3FF0_0000_0000_0000,
{
}

/// The first entry of `pseudo_obs`, in row-major order, that is not a valid
/// pseudo-observation (see [`outside_open_unit`]), or `None` when every
/// entry lies in (0, 1).
pub fn find_invalid_pseudo_observation(pseudo_obs: &RealMatrix) -> (r: Option<(usize, usize)>)
    ensures
        r is None <==> forall|i: int, j: int|
            0 <= i < pseudo_obs.entries().len() && 0 <= j < pseudo_obs.width()
                ==> !outside_open_unit(#[trigger] pseudo_obs.entries()[i][j]),
        r matches Some((i, j)) ==> {
            &&& i < pseudo_obs.entries().len()
            &&& j < pseudo_obs.width()
            &&& outside_open_unit(pseudo_obs.entries()[i as int][j as int])
            &&& forall|a: int, b: int|
                (0 <= a < i && 0 <= b < pseudo_obs.width()) || (a == i && 0 <= b < j)
                    ==> !outside_open_unit(#[trigger] pseudo_obs.entries()[a][b])
        },
{
    let n_rows = pseudo_obs.nrows();
    let n_cols = pseudo_obs.ncols();
    pseudo_obs.note_rectangular();
    let ghost m = pseudo_obs.entries();
    for i in 0..n_rows
        invariant
            n_rows == m.len(),
            m == pseudo_obs.entries(),
            n_cols == pseudo_obs.width(),
            forall|k: int| 0 <= k < m.len() ==> (#[trigger] m[k]).len() == n_cols,
            forall|a: int, b: int|
                0 <= a < i && 0 <= b < n_cols ==> !outside_open_unit(#[trigger] m[a][b]),
    {
        let row = pseudo_obs.row(i);
        for j in 0..n_cols
            invariant
                row@ == m[i as int],
                row@.len() == n_cols,
                i < m.len(),
                m == pseudo_obs.entries(),
                n_cols == pseudo_obs.width(),
                forall|a: int, b: int|
                    0 <= a < i && 0 <= b < n_cols ==> !outside_open_unit(#[trigger] m[a][b]),
                forall|b: int| 0 <= b < j ==> !outside_open_unit(#[trigger] m[i as int][b]),
        {
            let v = row[j];
            if !is_finite(v) || le(v, ZERO_BITS) || le(ONE_BITS, v) {
                assert(outside_open_unit(m[i as int][j as int]));
                assert(i < m.len() && j < n_cols);
                return Some((i, j));
            }
        }
    }
    None
}

/// The pair counts of Kendall's tau for every pair of columns `i < j` of
/// `data`: entry `[i][t]` belongs to columns `i` and `i + 1 + t`.
///
/// Fails with fewer than 2 rows. With two or more columns every column must
/// be finite: a non-finite first column is reported as the "x variable", any
/// other as the "y variable" (it first meets column 0 in the pair `(0, k)`).
pub fn kendall_tau_table(data: &RealMatrix) -> (r: Result<Vec<Vec<KendallCounts>>>)
    requires
        data.entries().len() <= MAX_SAMPLE_LEN,
    ensures
        data.entries().len() < 2 ==> r is Err && is_data_error(
            r->Err_0,
            "Need at least 2 observations"@,
        ),
        data.entries().len() >= 2 && data.width() >= 2 ==> {
            &&& r is Ok <==> forall|j: int|
                0 <= j < data.width() ==> all_finite(#[trigger] column_of(data.entries(), j))
            &&& !all_finite(column_of(data.entries(), 0)) ==> is_data_error(
                r->Err_0,
                non_finite_message("x variable"@),
            )
            &&& all_finite(column_of(data.entries(), 0)) && r is Err ==> is_data_error(
                r->Err_0,
                non_finite_message("y variable"@),
            )
        },
        data.entries().len() >= 2 && data.width() < 2 ==> r is Ok,
        r is Ok ==> r->Ok_0@.len() == data.width() && forall|i: int|
            0 <= i < data.width() ==> {
                &&& (#[trigger] r->Ok_0@[i])@.len() == data.width() - i - 1
                &&& forall|t: int|
                    0 <= t < data.width() - i - 1 ==> {
                        let x = column_of(data.entries(), i);
                        let y = column_of(data.entries(), i + 1 + t);
                        &&& (#[trigger] r->Ok_0@[i]@[t]).concordant == concordant_pairs(
                            x,
                            y,
                            x.len() as int,
                        )
                        &&& r->Ok_0@[i]@[t].discordant == discordant_pairs(x, y, x.len() as int)
                    }
            },
{
    let n_rows = data.nrows();
    let n_cols = data.ncols();
    if n_rows < 2 {
        return Err(CopulaError::data_error("Need at least 2 observations"));
    }
    let ghost m = data.entries();
    let mut table: Vec<Vec<KendallCounts>> = Vec::new();
    for i in 0..n_cols
        invariant
            n_rows == m.len(),
            n_rows >= 2,
            n_rows <= MAX_SAMPLE_LEN,
            m == data.entries(),
            n_cols == data.width(),
            table@.len() == i,
            i > 0 && n_cols >= 2 ==> forall|k: int|
                0 <= k < n_cols ==> all_finite(#[trigger] column_of(m, k)),
            forall|k: int|
                0 <= k < i ==> {
                    &&& (#[trigger] table@[k])@.len() == n_cols - k - 1
                    &&& forall|t: int|
                        0 <= t < n_cols - k - 1 ==> {
                            let x = column_of(m, k);
                            let y = column_of(m, k + 1 + t);
                            &&& (#[trigger] table@[k]@[t]).concordant == concordant_pairs(
                                x,
                                y,
                                x.len() as int,
                            )
                            &&& table@[k]@[t].discordant == discordant_pairs(x, y, x.len() as int)
                        }
                },
    {
        let col_i = data.column(i);
        assert(col_i@ =~= column_of(m, i as int));
        let mut row: Vec<KendallCounts> = Vec::new();
        for j in (i + 1)..n_cols
            invariant
                n_rows == m.len(),
                n_rows >= 2,
                n_rows <= MAX_SAMPLE_LEN,
                m == data.entries(),
                n_cols == data.width(),
                i < n_cols,
                col_i@ == column_of(m, i as int),
                row@.len() == j - i - 1,
                i > 0 && n_cols >= 2 ==> forall|k: int|
                    0 <= k < n_cols ==> all_finite(#[trigger] column_of(m, k)),
                i == 0 && j > 1 ==> all_finite(column_of(m, 0)),
                i == 0 ==> forall|k: int| 0 < k < j ==> all_finite(#[trigger] column_of(m, k)),
                forall|t: int|
                    0 <= t < j - i - 1 ==> {
                        let x = column_of(m, i as int);
                        let y = column_of(m, i + 1 + t);
                        &&& (#[trigger] row@[t]).concordant == concordant_pairs(x, y, x.len() as int)
                        &&& row@[t].discordant == discordant_pairs(x, y, x.len() as int)
                    },
        {
            let col_j = data.column(j);
            assert(col_j@ =~= column_of(m, j as int));
            let counts = kendall_tau(&col_i, &col_j)?;
            row.push(counts);
        }
        table.push(row);
    }
    Ok(table)
}

/// The doubled ranks of every column of `data`, from which the pairwise
/// Spearman correlations are the Pearson correlations of rank columns.
///
/// Fails with fewer than 2 rows, and, with two or more columns, when a
/// column is not finite. With fewer than two columns there are no pairs and
/// the result is empty.
pub fn spearman_rank_columns(data: &RealMatrix) -> (r: Result<Vec<Vec<u64>>>)
    requires
        data.entries().len() <= MAX_RANKED_LEN,
    ensures
        data.entries().len() < 2 ==> r is Err && is_data_error(
            r->Err_0,
            "Need at least 2 observations"@,
        ),
        data.entries().len() >= 2 && data.width() < 2 ==> r is Ok && r->Ok_0@.len() == 0,
        data.entries().len() >= 2 && data.width() >= 2 ==> {
            &&& r is Ok <==> forall|j: int|
                0 <= j < data.width() ==> all_finite(#[trigger] column_of(data.entries(), j))
            &&& r is Err ==> is_data_error(r->Err_0, non_finite_message("input data"@))
            &&& r is Ok ==> r->Ok_0@.len() == data.width() && forall|j: int|
                0 <= j < data.width() ==> {
                    &&& (#[trigger] r->Ok_0@[j])@.len() == data.entries().len()
                    &&& forall|i: int|
                        0 <= i < data.entries().len() ==> #[trigger] r->Ok_0@[j]@[i]
                            == doubled_average_rank(column_of(data.entries(), j), i)
                }
        },
{
    let n_rows = data.nrows();
    let n_cols = data.ncols();
    if n_rows < 2 {
        return Err(CopulaError::data_error("Need at least 2 observations"));
    }
    if n_cols < 2 {
        let none: Vec<Vec<u64>> = Vec::new();
        assert(none@.len() == 0);
        return Ok(none);
    }
    let ghost m = data.entries();
    let mut columns: Vec<Vec<u64>> = Vec::new();
    for j in 0..n_cols
        invariant
            n_rows == m.len(),
            n_rows >= 2,
            n_rows <= MAX_RANKED_LEN,
            m == data.entries(),
            n_cols == data.width(),
            n_cols >= 2,
            columns@.len() == j,
            forall|k: int| 0 <= k < j ==> all_finite(#[trigger] column_of(m, k)),
            forall|k: int|
                0 <= k < j ==> {
                    &&& (#[trigger] columns@[k])@.len() == n_rows
                    &&& forall|i: int|
                        0 <= i < n_rows ==> #[trigger] columns@[k]@[i] == doubled_average_rank(
                            column_of(m, k),
                            i,
                        )
                },
    {
        let column = data.column(j);
        assert(column@ =~= column_of(m, j as int));
        let ranks = empirical_ranks(&column)?;
        columns.push(ranks);
    }
    Ok(columns)
}

} // verus!
