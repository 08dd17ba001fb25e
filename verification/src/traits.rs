//! Core traits that define the interface shared by all copula types.
//!
//! A copula C: [0,1]ⁿ → [0,1] is a multivariate distribution function whose
//! univariate margins are uniform on [0,1]. The library's part of that
//! interface is what does not evaluate real-valued functions: the dimension
//! and which closed forms a family offers.

use vstd::prelude::*;

verus! {

/// Core trait that all copulas implement.
pub trait Copula {
    /// The number of variables (dimension) of the copula.
    fn dimension(&self) -> usize;

    /// Whether the family has analytical forms for the CDF and the PDF.
    ///
    /// Both are assumed to be available unless a family says otherwise.
    fn has_closed_form(&self) -> (r: (bool, bool))
        default_ensures
            r == (true, true),
    {
        (true, true)
    }
}

/// Marker trait for copulas that have symmetric dependence structure.
///
/// Symmetric copulas satisfy C(u₁, u₂) = C(u₂, u₁).
pub trait SymmetricCopula: Copula {}

/// Marker trait for copulas that are exchangeable.
///
/// Exchangeable copulas have the same dependence structure regardless
/// of variable ordering.
pub trait ExchangeableCopula: Copula {}

} // verus!
