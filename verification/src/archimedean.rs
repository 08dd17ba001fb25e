//! Archimedean copula families: their parameters and parameter domains.
//!
//! An Archimedean copula is C(u₁, ..., uₙ) = φ⁻¹(φ(u₁) + ... + φ(uₙ)) for a
//! generator φ. Each family here is bivariate and has one parameter, held as
//! an `f64` bit pattern (see [`crate::binary64`]); the constructors accept
//! exactly the parameters of the family's domain.

use vstd::prelude::*;
use crate::binary64::{
    is_finite, is_finite_bits, le, le_bits, lt, lt_bits, magnitude, magnitude_of, order_key,
    EPSILON_BITS, ONE_BITS, ZERO_BITS,
};
use crate::error::{is_invalid_parameter, CopulaError, Result};
use crate::traits::Copula;

verus! {

/// The parameter domain of [`ClaytonCopula`].
pub open spec fn clayton_theta_valid(theta: u64) -> bool {
    !(le_bits(theta, ZERO_BITS) || !is_finite_bits(theta))
}

/// Clayton copula with positive parameter `theta`.
#[derive(Debug, Clone, Copy)]
pub struct ClaytonCopula {
    /// Copula parameter θ > 0, as an `f64` bit pattern
    theta: u64,
}

impl View for ClaytonCopula {
    type V = u64;

    /// The parameter's bit pattern.
    closed spec fn view(&self) -> u64 {
        self.theta
    }
}

impl ClaytonCopula {
    /// Create a new copula with parameter `theta`.
    ///
    /// Fails with an invalid-parameter error, "theta must be positive", outside the domain.
    pub fn new(theta: u64) -> (r: Result<Self>)
        ensures
            r is Ok <==> clayton_theta_valid(theta),
            r is Ok ==> r->Ok_0@ == theta,
            r is Err ==> is_invalid_parameter(r->Err_0, "theta must be positive"@),
    {
        if le(theta, ZERO_BITS) || !is_finite(theta) {
            return Err(CopulaError::invalid_parameter("theta must be positive"));
        }
        Ok(ClaytonCopula { theta })
    }

    /// The parameter, as an `f64` bit pattern.
    pub fn theta(&self) -> (t: u64)
        ensures
            t == self@,
    {
        self.theta
    }

    /// Store a fitted parameter, as the estimation routines do; unlike
    /// [`ClaytonCopula::new`] this does not check the domain.
    pub fn set_fitted_theta(&mut self, theta: u64)
        ensures
            final(self)@ == theta,
    {
        self.theta = theta;
    }

    /// Replace the parameter by `params`, which must lie in the domain;
    /// on an error the copula is left unchanged.
    pub fn set_parameters(&mut self, params: u64) -> (r: Result<()>)
        ensures
            r is Ok <==> clayton_theta_valid(params),
            r is Ok ==> final(self)@ == params,
            r is Err ==> final(self)@ == old(self)@ && is_invalid_parameter(r->Err_0, "theta must be positive"@),
    {
        let fresh = Self::new(params)?;
        *self = fresh;
        Ok(())
    }
}

impl Copula for ClaytonCopula {
    /// The family is bivariate.
    fn dimension(&self) -> (d: usize)
        ensures
            d == 2,
    {
        2
    }
}

/// The parameter domain of [`GumbelCopula`].
pub open spec fn gumbel_theta_valid(theta: u64) -> bool {
    !(le_bits(theta, ONE_BITS) || !is_finite_bits(theta))
}

/// Gumbel copula with parameter `theta` > 1.
#[derive(Debug, Clone, Copy)]
pub struct GumbelCopula {
    /// Copula parameter θ > 1, as an `f64` bit pattern
    theta: u64,
}

impl View for GumbelCopula {
    type V = u64;

    /// The parameter's bit pattern.
    closed spec fn view(&self) -> u64 {
        self.theta
    }
}

impl GumbelCopula {
    /// Create a new copula with parameter `theta`.
    ///
    /// Fails with an invalid-parameter error, "theta must be > 1", outside the domain.
    pub fn new(theta: u64) -> (r: Result<Self>)
        ensures
            r is Ok <==> gumbel_theta_valid(theta),
            r is Ok ==> r->Ok_0@ == theta,
            r is Err ==> is_invalid_parameter(r->Err_0, "theta must be > 1"@),
    {
        if le(theta, ONE_BITS) || !is_finite(theta) {
            return Err(CopulaError::invalid_parameter("theta must be > 1"));
        }
        Ok(GumbelCopula { theta })
    }

    /// The parameter, as an `f64` bit pattern.
    pub fn theta(&self) -> (t: u64)
        ensures
            t == self@,
    {
        self.theta
    }

    /// Store a fitted parameter, as the estimation routines do; unlike
    /// [`GumbelCopula::new`] this does not check the domain.
    pub fn set_fitted_theta(&mut self, theta: u64)
        ensures
            final(self)@ == theta,
    {
        self.theta = theta;
    }

    /// Replace the parameter by `params`, which must lie in the domain;
    /// on an error the copula is left unchanged.
    pub fn set_parameters(&mut self, params: u64) -> (r: Result<()>)
        ensures
            r is Ok <==> gumbel_theta_valid(params),
            r is Ok ==> final(self)@ == params,
            r is Err ==> final(self)@ == old(self)@ && is_invalid_parameter(r->Err_0, "theta must be > 1"@),
    {
        let fresh = Self::new(params)?;
        *self = fresh;
        Ok(())
    }
}

impl Copula for GumbelCopula {
    /// The family is bivariate.
    fn dimension(&self) -> (d: usize)
        ensures
            d == 2,
    {
        2
    }
}

/// The parameter domain of [`FrankCopula`].
pub open spec fn frank_theta_valid(theta: u64) -> bool {
    !(!is_finite_bits(theta) || magnitude(theta) < EPSILON_BITS)
}

/// Frank copula with finite, non-zero parameter `theta` (|θ| at least `f64::EPSILON`).
#[derive(Debug, Clone, Copy)]
pub struct FrankCopula {
    /// Copula parameter θ ≠ 0, as an `f64` bit pattern
    theta: u64,
}

impl View for FrankCopula {
    type V = u64;

    /// The parameter's bit pattern.
    closed spec fn view(&self) -> u64 {
        self.theta
    }
}

impl FrankCopula {
    /// Create a new copula with parameter `theta`.
    ///
    /// Fails with an invalid-parameter error, "theta must be finite and non-zero", outside the domain.
    pub fn new(theta: u64) -> (r: Result<Self>)
        ensures
            r is Ok <==> frank_theta_valid(theta),
            r is Ok ==> r->Ok_0@ == theta,
            r is Err ==> is_invalid_parameter(r->Err_0, "theta must be finite and non-zero"@),
    {
        if !is_finite(theta) || magnitude_of(theta) < EPSILON_BITS {
            return Err(CopulaError::invalid_parameter("theta must be finite and non-zero"));
        }
        Ok(FrankCopula { theta })
    }

    /// The parameter, as an `f64` bit pattern.
    pub fn theta(&self) -> (t: u64)
        ensures
            t == self@,
    {
        self.theta
    }

    /// Store a fitted parameter, as the estimation routines do; unlike
    /// [`FrankCopula::new`] this does not check the domain.
    pub fn set_fitted_theta(&mut self, theta: u64)
        ensures
            final(self)@ == theta,
    {
        self.theta = theta;
    }

    /// Replace the parameter by `params`, which must lie in the domain;
    /// on an error the copula is left unchanged.
    pub fn set_parameters(&mut self, params: u64) -> (r: Result<()>)
        ensures
            r is Ok <==> frank_theta_valid(params),
            r is Ok ==> final(self)@ == params,
            r is Err ==> final(self)@ == old(self)@ && is_invalid_parameter(r->Err_0, "theta must be finite and non-zero"@),
    {
        let fresh = Self::new(params)?;
        *self = fresh;
        Ok(())
    }
}

impl Copula for FrankCopula {
    /// The family is bivariate.
    fn dimension(&self) -> (d: usize)
        ensures
            d == 2,
    {
        2
    }
}

/// The parameter domain of [`JoeCopula`].
pub open spec fn joe_theta_valid(theta: u64) -> bool {
    !(!is_finite_bits(theta) || le_bits(theta, ONE_BITS))
}

/// Joe copula with parameter `theta` > 1.
#[derive(Debug, Clone, Copy)]
pub struct JoeCopula {
    /// Copula parameter θ > 1, as an `f64` bit pattern
    theta: u64,
}

impl View for JoeCopula {
    type V = u64;

    /// The parameter's bit pattern.
    closed spec fn view(&self) -> u64 {
        self.theta
    }
}

impl JoeCopula {
    /// Create a new copula with parameter `theta`.
    ///
    /// Fails with an invalid-parameter error, "theta must be finite and > 1", outside the domain.
    pub fn new(theta: u64) -> (r: Result<Self>)
        ensures
            r is Ok <==> joe_theta_valid(theta),
            r is Ok ==> r->Ok_0@ == theta,
            r is Err ==> is_invalid_parameter(r->Err_0, "theta must be finite and > 1"@),
    {
        if !is_finite(theta) || le(theta, ONE_BITS) {
            return Err(CopulaError::invalid_parameter("theta must be finite and > 1"));
        }
        Ok(JoeCopula { theta })
    }

    /// The parameter, as an `f64` bit pattern.
    pub fn theta(&self) -> (t: u64)
        ensures
            t == self@,
    {
        self.theta
    }

    /// Store a fitted parameter, as the estimation routines do; unlike
    /// [`JoeCopula::new`] this does not check the domain.
    pub fn set_fitted_theta(&mut self, theta: u64)
        ensures
            final(self)@ == theta,
    {
        self.theta = theta;
    }

    /// Replace the parameter by `params`, which must lie in the domain;
    /// on an error the copula is left unchanged.
    pub fn set_parameters(&mut self, params: u64) -> (r: Result<()>)
        ensures
            r is Ok <==> joe_theta_valid(params),
            r is Ok ==> final(self)@ == params,
            r is Err ==> final(self)@ == old(self)@ && is_invalid_parameter(r->Err_0, "theta must be finite and > 1"@),
    {
        let fresh = Self::new(params)?;
        *self = fresh;
        Ok(())
    }
}

impl Copula for JoeCopula {
    /// The family is bivariate.
    fn dimension(&self) -> (d: usize)
        ensures
            d == 2,
    {
        2
    }
}

/// The parameter domain of [`AMHCopula`].
pub open spec fn amh_theta_valid(theta: u64) -> bool {
    !(!is_finite_bits(theta) || magnitude(theta) >= ONE_BITS)
}

/// Ali-Mikhail-Haq copula with parameter `theta` in (-1, 1).
#[derive(Debug, Clone, Copy)]
pub struct AMHCopula {
    /// Copula parameter θ ∈ (-1, 1), as an `f64` bit pattern
    theta: u64,
}

impl View for AMHCopula {
    type V = u64;

    /// The parameter's bit pattern.
    closed spec fn view(&self) -> u64 {
        self.theta
    }
}

impl AMHCopula {
    /// Create a new copula with parameter `theta`.
    ///
    /// Fails with an invalid-parameter error, "theta must be finite and in (-1, 1)", outside the domain.
    pub fn new(theta: u64) -> (r: Result<Self>)
        ensures
            r is Ok <==> amh_theta_valid(theta),
            r is Ok ==> r->Ok_0@ == theta,
            r is Err ==> is_invalid_parameter(r->Err_0, "theta must be finite and in (-1, 1)"@),
    {
        if !is_finite(theta) || magnitude_of(theta) >= ONE_BITS {
            return Err(CopulaError::invalid_parameter("theta must be finite and in (-1, 1)"));
        }
        Ok(AMHCopula { theta })
    }

    /// The parameter, as an `f64` bit pattern.
    pub fn theta(&self) -> (t: u64)
        ensures
            t == self@,
    {
        self.theta
    }

    /// Store a fitted parameter, as the estimation routines do; unlike
    /// [`AMHCopula::new`] this does not check the domain.
    pub fn set_fitted_theta(&mut self, theta: u64)
        ensures
            final(self)@ == theta,
    {
        self.theta = theta;
    }

    /// Replace the parameter by `params`, which must lie in the domain;
    /// on an error the copula is left unchanged.
    pub fn set_parameters(&mut self, params: u64) -> (r: Result<()>)
        ensures
            r is Ok <==> amh_theta_valid(params),
            r is Ok ==> final(self)@ == params,
            r is Err ==> final(self)@ == old(self)@ && is_invalid_parameter(r->Err_0, "theta must be finite and in (-1, 1)"@),
    {
        let fresh = Self::new(params)?;
        *self = fresh;
        Ok(())
    }
}

impl Copula for AMHCopula {
    /// The family is bivariate.
    fn dimension(&self) -> (d: usize)
        ensures
            d == 2,
    {
        2
    }
}

/// The lower end of the Clayton parameter range used for fitting (`1e-4`).
pub const CLAYTON_THETA_MIN_BITS: u64 = 0x3F1A_36E2_EB1C_432D;

/// The upper end of the Clayton parameter range used for fitting (`10.0`).
pub const CLAYTON_THETA_MAX_BITS: u64 = 0x4024_0000_0000_0000;

impl ClaytonCopula {
    /// The valid parameter bounds as (min, max) pairs: `[(1e-4, 10.0)]`.
    pub fn parameter_bounds() -> (b: Vec<(u64, u64)>)
        ensures
            b@ == seq![(CLAYTON_THETA_MIN_BITS, CLAYTON_THETA_MAX_BITS)],
    {
        let mut b = Vec::new();
        b.push((CLAYTON_THETA_MIN_BITS, CLAYTON_THETA_MAX_BITS));
        b
    }

    /// Check that the parameter lies within [`ClaytonCopula::parameter_bounds`].
    pub fn check_bounds(&self) -> (r: Result<()>)
        ensures
            r is Ok <==> !(lt_bits(self@, CLAYTON_THETA_MIN_BITS) || lt_bits(
                CLAYTON_THETA_MAX_BITS,
                self@,
            )),
            r is Err ==> is_invalid_parameter(r->Err_0, "theta out of bounds"@),
    {
        let bounds = Self::parameter_bounds();
        let (min, max) = bounds[0];
        if lt(self.theta, min) || lt(max, self.theta) {
            Err(CopulaError::invalid_parameter("theta out of bounds"))
        } else {
            Ok(())
        }
    }
}


// The parameter domains as statements about the real value of the parameter.
// For a finite value, `order_key` is its position on the real line (0 for
// both zeros); 0x3FF0_0000_0000_0000 is the key of 1.0 and
// 0x3CB0_0000_0000_0000 that of f64::EPSILON.

/// Clayton accepts exactly the finite θ > 0.
pub proof fn lemma_clayton_domain(theta: u64)
    ensures
        clayton_theta_valid(theta) <==> is_finite_bits(theta) && order_key(theta) > 0,
{
}

/// Gumbel accepts exactly the finite θ > 1.
pub proof fn lemma_gumbel_domain(theta: u64)
    ensures
        gumbel_theta_valid(theta) <==> is_finite_bits(theta) && order_key(theta)
            > 0x3FF0_0000_0000_0000,
{
}

/// Frank accepts exactly the finite θ with |θ| >= f64::EPSILON: θ >= ε or
/// θ <= -ε.
pub proof fn lemma_frank_domain(theta: u64)
    ensures
        frank_theta_valid(theta) <==> is_finite_bits(theta) && (order_key(theta)
            >= 0x3CB0_0000_0000_0000 || order_key(theta) <= -0x3CB0_0000_0000_0000),
{
}

/// Joe accepts exactly the finite θ > 1.
pub proof fn lemma_joe_domain(theta: u64)
    ensures
        joe_theta_valid(theta) <==> is_finite_bits(theta) && order_key(theta)
            > 0x3FF0_0000_0000_0000,
{
}

/// Ali-Mikhail-Haq accepts exactly the θ in the open interval (-1, 1).
pub proof fn lemma_amh_domain(theta: u64)
    ensures
        amh_theta_valid(theta) <==> is_finite_bits(theta) && -0x3FF0_0000_0000_0000 < order_key(
            theta,
        ) < 0x3FF0_0000_0000_0000,
{
}

} // verus!
