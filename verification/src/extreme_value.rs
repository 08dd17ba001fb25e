//! Extreme value copulas: their parameters and parameter domains.
//!
//! Extreme value copulas arise as the limiting distribution of componentwise
//! maxima. Both families here are bivariate with one parameter, held as an
//! `f64` bit pattern (see [`crate::binary64`]).

use vstd::prelude::*;
use crate::binary64::{is_finite, is_finite_bits, le, le_bits, lt, lt_bits, order_key, ZERO_BITS};
use crate::error::{is_invalid_parameter, CopulaError, Result};
use crate::traits::Copula;

verus! {

/// The parameter domain of [`GalambosCopula`].
pub open spec fn galambos_theta_valid(theta: u64) -> bool {
    !(lt_bits(theta, ZERO_BITS) || !is_finite_bits(theta))
}

/// Galambos copula with parameter θ ≥ 0: θ = 0 is independence, θ → ∞ comonotonicity.
#[derive(Debug, Clone, Copy)]
pub struct GalambosCopula {
    /// Copula parameter θ ≥ 0, as an `f64` bit pattern
    theta: u64,
}

impl View for GalambosCopula {
    type V = u64;

    /// The parameter's bit pattern.
    closed spec fn view(&self) -> u64 {
        self.theta
    }
}

impl GalambosCopula {
    /// Create a new copula with parameter `theta`.
    ///
    /// Fails with an invalid-parameter error, "theta must be >= 0", outside the domain.
    pub fn new(theta: u64) -> (r: Result<Self>)
        ensures
            r is Ok <==> galambos_theta_valid(theta),
            r is Ok ==> r->Ok_0@ == theta,
            r is Err ==> is_invalid_parameter(r->Err_0, "theta must be >= 0"@),
    {
        if lt(theta, ZERO_BITS) || !is_finite(theta) {
            return Err(CopulaError::invalid_parameter("theta must be >= 0"));
        }
        Ok(GalambosCopula { theta })
    }

    /// The parameter, as an `f64` bit pattern.
    pub fn theta(&self) -> (t: u64)
        ensures
            t == self@,
    {
        self.theta
    }
}

impl Copula for GalambosCopula {
    /// The family is bivariate.
    fn dimension(&self) -> (d: usize)
        ensures
            d == 2,
    {
        2
    }
}

/// The parameter domain of [`HuslerReissCopula`].
pub open spec fn husler_reiss_lambda_valid(lambda: u64) -> bool {
    !(le_bits(lambda, ZERO_BITS) || !is_finite_bits(lambda))
}

/// Husler-Reiss copula with parameter λ > 0.
#[derive(Debug, Clone, Copy)]
pub struct HuslerReissCopula {
    /// Copula parameter λ > 0, as an `f64` bit pattern
    lambda: u64,
}

impl View for HuslerReissCopula {
    type V = u64;

    /// The parameter's bit pattern.
    closed spec fn view(&self) -> u64 {
        self.lambda
    }
}

impl HuslerReissCopula {
    /// Create a new copula with parameter `lambda`.
    ///
    /// Fails with an invalid-parameter error, "lambda must be > 0", outside the domain.
    pub fn new(lambda: u64) -> (r: Result<Self>)
        ensures
            r is Ok <==> husler_reiss_lambda_valid(lambda),
            r is Ok ==> r->Ok_0@ == lambda,
            r is Err ==> is_invalid_parameter(r->Err_0, "lambda must be > 0"@),
    {
        if le(lambda, ZERO_BITS) || !is_finite(lambda) {
            return Err(CopulaError::invalid_parameter("lambda must be > 0"));
        }
        Ok(HuslerReissCopula { lambda })
    }

    /// The parameter, as an `f64` bit pattern.
    pub fn lambda(&self) -> (t: u64)
        ensures
            t == self@,
    {
        self.lambda
    }
}

impl Copula for HuslerReissCopula {
    /// The family is bivariate.
    fn dimension(&self) -> (d: usize)
        ensures
            d == 2,
    {
        2
    }
}


// The parameter domains as statements about the real value of the parameter
// (`order_key` is its position on the real line, 0 for both zeros).

/// Galambos accepts exactly the finite θ >= 0.
pub proof fn lemma_galambos_domain(theta: u64)
    ensures
        galambos_theta_valid(theta) <==> is_finite_bits(theta) && order_key(theta) >= 0,
{
}

/// Husler-Reiss accepts exactly the finite λ > 0.
pub proof fn lemma_husler_reiss_domain(lambda: u64)
    ensures
        husler_reiss_lambda_valid(lambda) <==> is_finite_bits(lambda) && order_key(lambda) > 0,
{
}

} // verus!
