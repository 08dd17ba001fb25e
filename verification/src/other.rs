//! Other copula families: Marshall-Olkin and the empirical copula.

use vstd::prelude::*;
use crate::binary64::{is_finite_bits, le, le_bits, lt, lt_bits, order_key, ONE_BITS, ZERO_BITS};
use crate::counting::count_where;
use crate::error::{is_dimension_mismatch, is_invalid_parameter, outside_unit_interval,
    validate_unit_range, CopulaError, Result};
use crate::matrix::RealMatrix;
use crate::traits::Copula;
use crate::utils::{
    empirical_copula_count, find_invalid_pseudo_observation, outside_open_unit, rows_below,
};

verus! {

/// `(0.0..1.0).contains(&v)`.
pub open spec fn in_half_open_unit(v: u64) -> bool {
    le_bits(ZERO_BITS, v) && lt_bits(v, ONE_BITS)
}

/// Marshall-Olkin copula with parameters α and β in [0, 1).
#[derive(Debug, Clone, Copy)]
pub struct MarshallOlkinCopula {
    alpha: u64,
    beta: u64,
}

impl View for MarshallOlkinCopula {
    type V = (u64, u64);

    /// The bit patterns of α and β.
    closed spec fn view(&self) -> (u64, u64) {
        (self.alpha, self.beta)
    }
}

impl MarshallOlkinCopula {
    /// Create a new Marshall-Olkin copula; both parameters must lie in [0, 1).
    pub fn new(alpha: u64, beta: u64) -> (r: Result<Self>)
        ensures
            r is Ok <==> in_half_open_unit(alpha) && in_half_open_unit(beta),
            r is Ok ==> r->Ok_0@ == (alpha, beta),
            r is Err ==> is_invalid_parameter(r->Err_0, "alpha and beta must be in [0,1)"@),
    {
        let alpha_ok = le(ZERO_BITS, alpha) && lt(alpha, ONE_BITS);
        let beta_ok = le(ZERO_BITS, beta) && lt(beta, ONE_BITS);
        if !alpha_ok || !beta_ok {
            return Err(CopulaError::invalid_parameter("alpha and beta must be in [0,1)"));
        }
        Ok(MarshallOlkinCopula { alpha, beta })
    }

    /// α, as an `f64` bit pattern.
    pub fn alpha(&self) -> (a: u64)
        ensures
            a == self@.0,
    {
        self.alpha
    }

    /// β, as an `f64` bit pattern.
    pub fn beta(&self) -> (b: u64)
        ensures
            b == self@.1,
    {
        self.beta
    }
}

impl Copula for MarshallOlkinCopula {
    /// The family is bivariate.
    fn dimension(&self) -> (d: usize)
        ensures
            d == 2,
    {
        2
    }
}

/// An entry of a data matrix that is not a valid pseudo-observation.
#[derive(Debug, Clone, Copy, PartialEq, Eq)]
pub struct InvalidPseudoObservation {
    /// Its row
    pub row: usize,
    /// Its column
    pub col: usize,
    /// Its value, as an `f64` bit pattern
    pub value: u64,
}

/// Empirical copula based on pseudo-observation data.
#[derive(Debug)]
pub struct EmpiricalCopula {
    data: RealMatrix,
}

impl EmpiricalCopula {
    /// The pseudo-observations.
    pub closed spec fn pseudo_observations(&self) -> RealMatrix {
        self.data
    }

    /// Create an empirical copula from pseudo-observations, which must all lie
    /// in the open interval (0, 1); otherwise the first invalid entry, in
    /// row-major order, is returned.
    pub fn new(data: RealMatrix) -> (r: core::result::Result<Self, InvalidPseudoObservation>)
        ensures
            r is Ok <==> forall|i: int, j: int|
                0 <= i < data.entries().len() && 0 <= j < data.width() ==> !outside_open_unit(
                    #[trigger] data.entries()[i][j],
                ),
            r is Ok ==> r->Ok_0.pseudo_observations() == data,
            r matches Err(e) ==> {
                &&& e.row < data.entries().len()
                &&& e.col < data.width()
                &&& e.value == data.entries()[e.row as int][e.col as int]
                &&& outside_open_unit(e.value)
                &&& forall|a: int, b: int|
                    (0 <= a < e.row && 0 <= b < data.width()) || (a == e.row && 0 <= b < e.col)
                        ==> !outside_open_unit(#[trigger] data.entries()[a][b])
            },
    {
        match find_invalid_pseudo_observation(&data) {
            Some((row, col)) => {
                let value = data.get(row, col);
                Err(InvalidPseudoObservation { row, col, value })
            },
            None => Ok(EmpiricalCopula { data }),
        }
    }

    /// The pseudo-observations.
    pub fn data(&self) -> (m: &RealMatrix)
        ensures
            *m == self.pseudo_observations(),
    {
        &self.data
    }

    /// Count the pseudo-observations at or below `u`: the CDF at `u` is this
    /// count divided by the number of observations.
    ///
    /// Fails when `u` does not have one coordinate per column and when a
    /// coordinate lies outside [0, 1].
    pub fn cdf_count(&self, u: &Vec<u64>) -> (r: Result<u64>)
        ensures
            u@.len() != self.pseudo_observations().width() ==> r is Err && is_dimension_mismatch(
                r->Err_0,
                self.pseudo_observations().width(),
                u@.len(),
            ),
            u@.len() == self.pseudo_observations().width() ==> {
                &&& r is Ok <==> outside_unit_interval(u@).len() == 0
                &&& r is Err ==> (r->Err_0 matches CopulaError::InvalidRange { values: v } && v@
                    == outside_unit_interval(u@))
            },
            r is Ok ==> r->Ok_0 == count_where(
                self.pseudo_observations().entries().len() as int,
                rows_below(self.pseudo_observations().entries(), u@),
            ),
    {
        empirical_copula_count(&self.data, u)
    }

    /// The density: the empirical copula is discrete, so after checking `u`
    /// this always fails with a not-implemented error.
    pub fn pdf(&self, u: &Vec<u64>) -> (r: Result<u64>)
        ensures
            r is Err,
            u@.len() != self.pseudo_observations().width() ==> is_dimension_mismatch(
                r->Err_0,
                self.pseudo_observations().width(),
                u@.len(),
            ),
            u@.len() == self.pseudo_observations().width() && outside_unit_interval(u@).len() > 0
                ==> (r->Err_0 matches CopulaError::InvalidRange { values: v } && v@
                == outside_unit_interval(u@)),
            u@.len() == self.pseudo_observations().width() && outside_unit_interval(u@).len() == 0
                ==> (r->Err_0 matches CopulaError::NotImplemented { feature: f } && f@
                == "Empirical copula PDF is not well-defined (discrete distribution). Use CDF instead or implement kernel density estimation."@),
    {
        let n_cols = self.data.ncols();
        if u.len() != n_cols {
            return Err(CopulaError::dimension_mismatch(n_cols, u.len()));
        }
        validate_unit_range(u)?;
        Err(
            CopulaError::not_implemented(
                "Empirical copula PDF is not well-defined (discrete distribution). Use CDF instead or implement kernel density estimation.",
            ),
        )
    }

    /// Resample observations: row `draws[k]` becomes sample `k`. A draw of
    /// `None` (there is no row to draw) fails with a computation error.
    pub fn sample_rows(&self, draws: &Vec<Option<usize>>) -> (r: Result<RealMatrix>)
        requires
            forall|k: int|
                0 <= k < draws@.len() && (#[trigger] draws@[k]) is Some ==> draws@[k]->0
                    < self.pseudo_observations().entries().len(),
        ensures
            r is Ok <==> forall|k: int| 0 <= k < draws@.len() ==> (#[trigger] draws@[k]) is Some,
            r is Err ==> (r->Err_0 matches CopulaError::ComputationError { message: m } && m@
                == "failed to sample from indices"@),
            r is Ok ==> {
                &&& r->Ok_0.width() == self.pseudo_observations().width()
                &&& r->Ok_0.entries().len() == draws@.len()
                &&& forall|k: int|
                    0 <= k < draws@.len() ==> #[trigger] r->Ok_0.entries()[k]
                        == self.pseudo_observations().entries()[draws@[k]->0 as int]
            },
    {
        let mut idx: Vec<usize> = Vec::new();
        let n = draws.len();
        for k in 0..n
            invariant
                n == draws@.len(),
                idx@.len() == k,
                forall|t: int|
                    0 <= t < draws@.len() && (#[trigger] draws@[t]) is Some ==> draws@[t]->0
                        < self.pseudo_observations().entries().len(),
                forall|t: int| 0 <= t < k ==> (#[trigger] draws@[t]) is Some && idx@[t]
                    == draws@[t]->0,
        {
            match draws[k] {
                Some(i) => idx.push(i),
                None => {
                    return Err(CopulaError::computation("failed to sample from indices"));
                },
            }
        }
        assert forall|t: int| 0 <= t < idx@.len() implies #[trigger] idx@[t]
            < self.data.entries().len() by {
            assert(draws@[t] is Some);
        }
        Ok(self.data.select_rows(&idx))
    }
}

impl Clone for EmpiricalCopula {
    /// A copy of the copula, with the same pseudo-observations.
    fn clone(&self) -> (c: Self)
        ensures
            c.pseudo_observations().entries() == self.pseudo_observations().entries(),
            c.pseudo_observations().width() == self.pseudo_observations().width(),
    {
        EmpiricalCopula { data: self.data.clone() }
    }
}

impl Copula for EmpiricalCopula {
    /// One dimension per column of the pseudo-observations.
    fn dimension(&self) -> (d: usize)
        ensures
            d == self.pseudo_observations().width(),
    {
        self.data.ncols()
    }
}


/// Marshall-Olkin accepts a parameter exactly when it is a real value in
/// [0, 1) (0x3FF0_0000_0000_0000 is the key of 1.0; `order_key` is the
/// position on the real line, 0 for both zeros).
pub proof fn lemma_marshall_olkin_domain(v: u64)
    ensures
        in_half_open_unit(v) <==> is_finite_bits(v) && 0 <= order_key(v) < 0x3FF0_0000_0000_0000,
{
}

} // verus!
