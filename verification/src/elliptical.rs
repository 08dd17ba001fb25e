//! Elliptical copulas: the checks on their dimension and on the Student-t
//! degrees of freedom.
//!
//! An elliptical copula built on an identity correlation matrix needs at least
//! two dimensions. The Student-t copula takes its degrees of freedom `df` as
//! an `f64` bit pattern (see [`crate::binary64`]); both its constructor and
//! `set_parameters` accept only a positive, finite `df`.

use vstd::prelude::*;
use crate::binary64::{is_finite, is_finite_bits, lt, lt_bits, ZERO_BITS};
use crate::error::{is_invalid_parameter, CopulaError, Result};

verus! {

/// Check the degrees of freedom of a Student-t copula: `df` must be positive
/// and finite, else the error is "df must be positive".
pub fn check_degrees_of_freedom(df: u64) -> (r: Result<()>)
    ensures
        r is Ok <==> lt_bits(ZERO_BITS, df) && is_finite_bits(df),
        r is Err ==> is_invalid_parameter(r->Err_0, "df must be positive"@),
{
    if lt(ZERO_BITS, df) && is_finite(df) {
        Ok(())
    } else {
        Err(CopulaError::invalid_parameter("df must be positive"))
    }
}

/// Check the dimension of an elliptical copula built on an identity
/// correlation matrix: it must be at least 2, else the error is "Copula
/// dimension must be at least 2".
pub fn check_identity_dimension(dim: usize) -> (r: Result<()>)
    ensures
        r is Ok <==> dim >= 2,
        r is Err ==> is_invalid_parameter(r->Err_0, "Copula dimension must be at least 2"@),
{
    if dim < 2 {
        Err(CopulaError::invalid_parameter("Copula dimension must be at least 2"))
    } else {
        Ok(())
    }
}

} // verus!
