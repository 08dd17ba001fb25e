//! Copula modelling: the exact, discrete part of the library, verified.

use vstd::prelude::*;

pub mod binary64;
pub mod text;
pub mod counting;
pub mod error;
pub mod traits;
pub mod matrix;
pub mod sorting;
pub mod utils;
pub mod estimation;
pub mod elliptical;
pub mod sampling;
pub mod model_selection;
pub mod vine;
pub mod archimedean;
pub mod extreme_value;
pub mod other;
pub mod factor;

verus! {

/// Library version information.
pub const VERSION: &'static str = "0.2.0";

} // verus!
