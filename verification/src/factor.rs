//! Factor copulas: the checks on factor loadings.
//!
//! A one-factor Gaussian copula takes one loading per variable, each in
//! [0, 1]. The loadings are `f64` bit patterns (see [`crate::binary64`]); a
//! NaN lies in no interval, so a NaN loading is invalid. A multi-factor
//! Gaussian copula takes a row of loadings per variable, of any sign, whose
//! squares sum to at most 1; a row holding a NaN is refused (an infinite
//! loading already makes the sum too large).

use vstd::prelude::*;
use crate::binary64::{in_unit_interval, is_in_unit_interval, is_nan, is_nan_bits, order_key};

verus! {

/// The loading does not lie in [0, 1]: it is below 0, above 1, or NaN.
pub open spec fn loading_out_of_range(v: u64) -> bool {
    !in_unit_interval(v)
}

/// The position of the first loading outside [0, 1] (NaN included), or
/// `None` when every loading lies inside it.
pub fn first_invalid_loading(loadings: &Vec<u64>) -> (r: Option<usize>)
    ensures
        r is None <==> forall|i: int|
            0 <= i < loadings@.len() ==> !loading_out_of_range(#[trigger] loadings@[i]),
        r matches Some(i) ==> {
            &&& i < loadings@.len()
            &&& loading_out_of_range(loadings@[i as int])
            &&& forall|k: int| 0 <= k < i ==> !loading_out_of_range(#[trigger] loadings@[k])
        },
{
    let n = loadings.len();
    for i in 0..n
        invariant
            n == loadings@.len(),
            forall|k: int| 0 <= k < i ==> !loading_out_of_range(#[trigger] loadings@[k]),
    {
        if !is_in_unit_interval(loadings[i]) {
            return Some(i);
        }
    }
    None
}

/// The position of the first loading of a row that is NaN, or `None` when no
/// loading of the row is NaN.
pub fn first_nan_loading(row: &Vec<u64>) -> (r: Option<usize>)
    ensures
        r is None <==> forall|i: int| 0 <= i < row@.len() ==> !is_nan_bits(#[trigger] row@[i]),
        r matches Some(i) ==> {
            &&& i < row@.len()
            &&& is_nan_bits(row@[i as int])
            &&& forall|k: int| 0 <= k < i ==> !is_nan_bits(#[trigger] row@[k])
        },
{
    let n = row.len();
    for i in 0..n
        invariant
            n == row@.len(),
            forall|k: int| 0 <= k < i ==> !is_nan_bits(#[trigger] row@[k]),
    {
        if is_nan(row[i]) {
            return Some(i);
        }
    }
    None
}

/// A one-factor loading is refused exactly when it is not a real number from
/// 0 to 1: NaN, below 0, or above 1 (0x3FF0_0000_0000_0000 is the key of
/// 1.0; `order_key` is the position on the real line).
pub proof fn lemma_loading_domain(v: u64)
    ensures
        loading_out_of_range(v) <==> is_nan_bits(v) || order_key(v) < 0 || order_key(v)
            > 0x3FF0_0000_0000_0000,
{
}

} // verus!
