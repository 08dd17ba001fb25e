//! Error types and the validation helpers shared by the copula routines.
//!
//! Every fallible operation of the library returns a [`Result`] whose error is
//! a [`CopulaError`]. Real-valued inputs are held as `f64` bit patterns; see
//! [`crate::binary64`].

use vstd::prelude::*;
use crate::binary64::{
    in_unit_interval, is_finite, is_finite_bits, is_in_unit_interval, is_nan_bits, le, le_bits, lt,
    lt_bits, order_key, ZERO_BITS,
};
use crate::text::{append_str, text_of};

verus! {

/// Result type used throughout the crate.
pub type Result<T> = core::result::Result<T, CopulaError>;

/// Errors that can occur in copula operations.
#[derive(Debug)]
pub enum CopulaError {
    /// Invalid parameter value provided to a copula constructor or method.
    InvalidParameter {
        /// Description of what makes the parameter invalid
        message: String,
        /// Optional suggestion for fixing the issue
        suggestion: Option<String>,
    },
    /// Dimension mismatch between expected and actual dimensions.
    DimensionMismatch {
        /// Expected dimension
        expected: usize,
        /// Actual dimension provided
        actual: usize,
        /// Optional context about where the mismatch occurred
        context: Option<String>,
    },
    /// Input values are outside the valid range [0, 1] for copula evaluation.
    InvalidRange {
        /// The problematic values, as `f64` bit patterns
        values: Vec<u64>,
    },
    /// Numerical computation error.
    NumericalError {
        /// Description of the numerical issue
        message: String,
    },
    /// Matrix operation failed.
    MatrixError {
        /// The operation that failed
        operation: String,
        /// Reason for failure
        reason: String,
    },
    /// Optimization algorithm failed to converge.
    OptimizationError {
        /// Reason for optimization failure
        reason: String,
    },
    /// Statistical test or computation error.
    StatisticalError {
        /// Description of the statistical issue
        message: String,
    },
    /// Data validation error.
    DataError {
        /// Description of the data issue
        message: String,
    },
    /// Feature not yet implemented.
    NotImplemented {
        /// The feature that is not implemented
        feature: String,
    },
    /// Generic computation error with custom message.
    ComputationError {
        /// Description of the computation error
        message: String,
    },
    /// Serialization or deserialization error.
    SerializationError {
        /// Description of the serialization issue
        message: String,
    },
}

/// `e` is an `InvalidParameter` error with message `text` and no suggestion.
pub open spec fn is_invalid_parameter(e: CopulaError, text: Seq<char>) -> bool {
    e matches CopulaError::InvalidParameter { message, suggestion } && message@ == text
        && suggestion is None
}

/// `e` is a `DataError` with message `text`.
pub open spec fn is_data_error(e: CopulaError, text: Seq<char>) -> bool {
    e matches CopulaError::DataError { message } && message@ == text
}

/// `e` is a `DimensionMismatch` error for `expected` and `actual`, without context.
pub open spec fn is_dimension_mismatch(e: CopulaError, expected: nat, actual: nat) -> bool {
    e matches CopulaError::DimensionMismatch { expected: x, actual: a, context }
        && x == expected && a == actual && context is None
}

/// The category name of each kind of error.
pub open spec fn category_of(e: CopulaError) -> Seq<char> {
    match e {
        CopulaError::InvalidParameter { .. } => "parameter"@,
        CopulaError::DimensionMismatch { .. } => "dimension"@,
        CopulaError::InvalidRange { .. } => "range"@,
        CopulaError::NumericalError { .. } => "numerical"@,
        CopulaError::MatrixError { .. } => "matrix"@,
        CopulaError::OptimizationError { .. } => "optimization"@,
        CopulaError::StatisticalError { .. } => "statistical"@,
        CopulaError::DataError { .. } => "data"@,
        CopulaError::NotImplemented { .. } => "implementation"@,
        CopulaError::ComputationError { .. } => "computation"@,
        CopulaError::SerializationError { .. } => "serialization"@,
    }
}

/// Whether an error of this kind may go away with other parameters or
/// another algorithm.
pub open spec fn recoverable(e: CopulaError) -> bool {
    ||| e is NumericalError
    ||| e is OptimizationError
    ||| e is StatisticalError
    ||| e is ComputationError
}

/// The recoverable errors are exactly those of the numerical, optimization,
/// statistical and computation categories.
pub proof fn lemma_recoverable_by_category(e: CopulaError)
    ensures
        recoverable(e) <==> (category_of(e) == "numerical"@ || category_of(e) == "optimization"@
            || category_of(e) == "statistical"@ || category_of(e) == "computation"@),
{
    reveal_strlit("parameter");
    reveal_strlit("dimension");
    reveal_strlit("range");
    reveal_strlit("numerical");
    reveal_strlit("matrix");
    reveal_strlit("optimization");
    reveal_strlit("statistical");
    reveal_strlit("data");
    reveal_strlit("implementation");
    reveal_strlit("computation");
    reveal_strlit("serialization");
    assert("numerical"@[0] == 'n' && "optimization"@[0] == 'o' && "statistical"@[0] == 's'
        && "computation"@[0] == 'c');
    assert("statistical"@.len() == 11 && "serialization"@.len() == 13);
    match e {
        CopulaError::InvalidParameter { .. } => assert(category_of(e)[0] == 'p'),
        CopulaError::DimensionMismatch { .. } => assert(category_of(e)[0] == 'd'),
        CopulaError::InvalidRange { .. } => assert(category_of(e)[0] == 'r'),
        CopulaError::MatrixError { .. } => assert(category_of(e)[0] == 'm'),
        CopulaError::DataError { .. } => assert(category_of(e)[0] == 'd'),
        CopulaError::NotImplemented { .. } => assert(category_of(e)[0] == 'i'),
        CopulaError::SerializationError { .. } => assert(category_of(e).len() == 13),
        _ => {},
    }
}

impl CopulaError {
    /// Create an invalid parameter error with a custom message.
    pub fn invalid_parameter(message: &str) -> (e: Self)
        ensures
            is_invalid_parameter(e, message@),
    {
        CopulaError::InvalidParameter { message: text_of(message), suggestion: None }
    }

    /// Create an invalid parameter error with a custom message and suggestion.
    pub fn invalid_parameter_with_suggestion(message: &str, suggestion: &str) -> (e: Self)
        ensures
            e matches CopulaError::InvalidParameter { message: m, suggestion: Some(s) }
                && m@ == message@ && s@ == suggestion@,
    {
        CopulaError::InvalidParameter {
            message: text_of(message),
            suggestion: Some(text_of(suggestion)),
        }
    }

    /// Create a dimension mismatch error.
    pub fn dimension_mismatch(expected: usize, actual: usize) -> (e: Self)
        ensures
            is_dimension_mismatch(e, expected as nat, actual as nat),
    {
        CopulaError::DimensionMismatch { expected, actual, context: None }
    }

    /// Create a dimension mismatch error with context.
    pub fn dimension_mismatch_with_context(expected: usize, actual: usize, context: &str) -> (e:
        Self)
        ensures
            e matches CopulaError::DimensionMismatch { expected: x, actual: a, context: Some(c) }
                && x == expected && a == actual && c@ == context@,
    {
        CopulaError::DimensionMismatch { expected, actual, context: Some(text_of(context)) }
    }

    /// Create an invalid range error for values outside [0, 1].
    pub fn invalid_range(values: Vec<u64>) -> (e: Self)
        ensures
            e matches CopulaError::InvalidRange { values: v } && v@ == values@,
    {
        CopulaError::InvalidRange { values }
    }

    /// Create a numerical error with a custom message.
    pub fn numerical(message: &str) -> (e: Self)
        ensures
            e matches CopulaError::NumericalError { message: m } && m@ == message@,
    {
        CopulaError::NumericalError { message: text_of(message) }
    }

    /// Create a matrix operation error.
    pub fn matrix_error(operation: &str, reason: &str) -> (e: Self)
        ensures
            e matches CopulaError::MatrixError { operation: o, reason: r } && o@ == operation@
                && r@ == reason@,
    {
        CopulaError::MatrixError { operation: text_of(operation), reason: text_of(reason) }
    }

    /// Create an optimization error.
    pub fn optimization(reason: &str) -> (e: Self)
        ensures
            e matches CopulaError::OptimizationError { reason: r } && r@ == reason@,
    {
        CopulaError::OptimizationError { reason: text_of(reason) }
    }

    /// Create a statistical error with a custom message.
    pub fn statistical(message: &str) -> (e: Self)
        ensures
            e matches CopulaError::StatisticalError { message: m } && m@ == message@,
    {
        CopulaError::StatisticalError { message: text_of(message) }
    }

    /// Create a data validation error.
    pub fn data_error(message: &str) -> (e: Self)
        ensures
            is_data_error(e, message@),
    {
        CopulaError::DataError { message: text_of(message) }
    }

    /// Create a not implemented error.
    pub fn not_implemented(feature: &str) -> (e: Self)
        ensures
            e matches CopulaError::NotImplemented { feature: f } && f@ == feature@,
    {
        CopulaError::NotImplemented { feature: text_of(feature) }
    }

    /// Create a generic computation error.
    pub fn computation(message: &str) -> (e: Self)
        ensures
            e matches CopulaError::ComputationError { message: m } && m@ == message@,
    {
        CopulaError::ComputationError { message: text_of(message) }
    }

    /// Create a serialization error.
    pub fn serialization(message: &str) -> (e: Self)
        ensures
            e matches CopulaError::SerializationError { message: m } && m@ == message@,
    {
        CopulaError::SerializationError { message: text_of(message) }
    }

    /// Check if the error is recoverable.
    ///
    /// Numerical, optimization, statistical and computation errors might be
    /// recoverable by adjusting parameters or using different algorithms;
    /// the others are not.
    pub fn is_recoverable(&self) -> (r: bool)
        ensures
            r == recoverable(*self),
    {
        match self {
            CopulaError::NumericalError { .. } => true,
            CopulaError::OptimizationError { .. } => true,
            CopulaError::StatisticalError { .. } => true,
            CopulaError::ComputationError { .. } => true,
            _ => false,
        }
    }

    /// Get the error category as a string.
    pub fn category(&self) -> (c: &'static str)
        ensures
            c@ == category_of(*self),
    {
        match self {
            CopulaError::InvalidParameter { .. } => "parameter",
            CopulaError::DimensionMismatch { .. } => "dimension",
            CopulaError::InvalidRange { .. } => "range",
            CopulaError::NumericalError { .. } => "numerical",
            CopulaError::MatrixError { .. } => "matrix",
            CopulaError::OptimizationError { .. } => "optimization",
            CopulaError::StatisticalError { .. } => "statistical",
            CopulaError::DataError { .. } => "data",
            CopulaError::NotImplemented { .. } => "implementation",
            CopulaError::ComputationError { .. } => "computation",
            CopulaError::SerializationError { .. } => "serialization",
        }
    }
}

/// The values of `values` that lie outside [0, 1] (NaN among them), in order.
pub open spec fn outside_unit_interval(values: Seq<u64>) -> Seq<u64> {
    values.filter(|b: u64| !in_unit_interval(b))
}

/// No value lies outside [0, 1] exactly when every value lies inside it.
proof fn lemma_none_outside_unit_interval(values: Seq<u64>)
    ensures
        outside_unit_interval(values).len() == 0 <==> forall|i: int|
            0 <= i < values.len() ==> in_unit_interval(#[trigger] values[i]),
{
    let outside = |b: u64| !in_unit_interval(b);
    if forall|i: int| 0 <= i < values.len() ==> in_unit_interval(#[trigger] values[i]) {
        assert(values.all(|x: u64| !outside(x)));
        values.lemma_all_neg_filter_empty(outside);
    } else {
        let i = choose|i: int| 0 <= i < values.len() && !in_unit_interval(#[trigger] values[i]);
        values.lemma_filter_contains(outside, i);
    }
}

/// Validate that all values are in the range [0, 1].
///
/// The error lists every value outside the range, in input order.
pub fn validate_unit_range(values: &Vec<u64>) -> (r: Result<()>)
    ensures
        r is Ok <==> forall|i: int| 0 <= i < values@.len() ==> in_unit_interval(#[trigger] values@[i]),
        r is Ok <==> outside_unit_interval(values@).len() == 0,
        r is Err ==> (r->Err_0 matches CopulaError::InvalidRange { values: v } && v@
            == outside_unit_interval(values@)),
{
    let mut invalid: Vec<u64> = Vec::new();
    let n = values.len();
    for i in 0..n
        invariant
            n == values@.len(),
            invalid@ == outside_unit_interval(values@.take(i as int)),
    {
        proof {
            reveal_with_fuel(Seq::<_>::filter, 1);
            assert(values@.take(i + 1).drop_last() =~= values@.take(i as int));
        }
        if !is_in_unit_interval(values[i]) {
            invalid.push(values[i]);
        }
    }
    assert(values@.take(n as int) =~= values@);
    proof {
        lemma_none_outside_unit_interval(values@);
    }
    if invalid.len() == 0 {
        Ok(())
    } else {
        Err(CopulaError::invalid_range(invalid))
    }
}

/// Validate that a parameter is positive and finite.
///
/// `shown` is the text of `value` as it appears in the error message.
pub fn validate_positive(value: u64, name: &str, shown: &str) -> (r: Result<()>)
    ensures
        r is Ok <==> lt_bits(ZERO_BITS, value) && is_finite_bits(value),
        r is Err ==> is_invalid_parameter(
            r->Err_0,
            name@ + " must be positive and finite, got "@ + shown@,
        ),
{
    if lt(ZERO_BITS, value) && is_finite(value) {
        Ok(())
    } else {
        let mut message = text_of(name);
        append_str(&mut message, " must be positive and finite, got ");
        append_str(&mut message, shown);
        Err(CopulaError::InvalidParameter { message, suggestion: None })
    }
}

/// Validate that a parameter is non-negative and finite.
///
/// `shown` is the text of `value` as it appears in the error message.
pub fn validate_non_negative(value: u64, name: &str, shown: &str) -> (r: Result<()>)
    ensures
        r is Ok <==> le_bits(ZERO_BITS, value) && is_finite_bits(value),
        r is Err ==> is_invalid_parameter(
            r->Err_0,
            name@ + " must be non-negative and finite, got "@ + shown@,
        ),
{
    if le(ZERO_BITS, value) && is_finite(value) {
        Ok(())
    } else {
        let mut message = text_of(name);
        append_str(&mut message, " must be non-negative and finite, got ");
        append_str(&mut message, shown);
        Err(CopulaError::InvalidParameter { message, suggestion: None })
    }
}

/// Validate that a parameter lies in `[min, max]` and is finite.
///
/// `shown_min`, `shown_max` and `shown` are the texts of `min`, `max` and
/// `value` as they appear in the error message.
pub fn validate_range(
    value: u64,
    min: u64,
    max: u64,
    name: &str,
    shown_min: &str,
    shown_max: &str,
    shown: &str,
) -> (r: Result<()>)
    ensures
        r is Ok <==> le_bits(min, value) && le_bits(value, max) && is_finite_bits(value),
        r is Err ==> is_invalid_parameter(
            r->Err_0,
            name@ + " must be in ["@ + shown_min@ + ", "@ + shown_max@ + "], got "@ + shown@,
        ),
{
    if le(min, value) && le(value, max) && is_finite(value) {
        Ok(())
    } else {
        let mut message = text_of(name);
        append_str(&mut message, " must be in [");
        append_str(&mut message, shown_min);
        append_str(&mut message, ", ");
        append_str(&mut message, shown_max);
        append_str(&mut message, "], got ");
        append_str(&mut message, shown);
        Err(CopulaError::InvalidParameter { message, suggestion: None })
    }
}

/// Validate matrix dimensions.
pub fn validate_dimensions(expected: usize, actual: usize, _context: &str) -> (r: Result<()>)
    ensures
        r is Ok <==> expected == actual,
        r is Err ==> is_dimension_mismatch(r->Err_0, expected as nat, actual as nat),
{
    if expected == actual {
        Ok(())
    } else {
        Err(CopulaError::dimension_mismatch(expected, actual))
    }
}

/// Validate that data contains no NaN or infinite values.
///
/// The error message names the data as `name`.
pub fn validate_finite_data(data: &Vec<u64>, name: &str) -> (r: Result<()>)
    ensures
        r is Ok <==> (forall|i: int| 0 <= i < data@.len() ==> is_finite_bits(#[trigger] data@[i])),
        r is Err ==> is_data_error(
            r->Err_0,
            name@ + " contains non-finite values (NaN or infinite)"@,
        ),
{
    let n = data.len();
    for i in 0..n
        invariant
            n == data@.len(),
            forall|j: int| 0 <= j < i ==> is_finite_bits(#[trigger] data@[j]),
    {
        if !is_finite(data[i]) {
            let mut message = text_of(name);
            append_str(&mut message, " contains non-finite values (NaN or infinite)");
            return Err(CopulaError::DataError { message });
        }
    }
    Ok(())
}

/// The values reported as outside [0, 1] are exactly those that are not a
/// real number from 0 to 1: each one listed is NaN, below 0 or above 1
/// (0x3FF0_0000_0000_0000 is the key of 1.0), each such value of the input
/// is listed, and no more are listed than the input holds.
pub proof fn lemma_outside_unit_interval_lists_the_offenders(values: Seq<u64>)
    ensures
        forall|k: int|
            0 <= k < outside_unit_interval(values).len() ==> {
                let v = #[trigger] outside_unit_interval(values)[k];
                is_nan_bits(v) || order_key(v) < 0 || order_key(v) > 0x3FF0_0000_0000_0000
            },
        forall|i: int|
            0 <= i < values.len() && (is_nan_bits(#[trigger] values[i]) || order_key(values[i]) < 0
                || order_key(values[i]) > 0x3FF0_0000_0000_0000) ==> outside_unit_interval(
                values,
            ).contains(values[i]),
        outside_unit_interval(values).len() <= values.len(),
{
    let outside = |b: u64| !in_unit_interval(b);
    assert forall|k: int| 0 <= k < outside_unit_interval(values).len() implies {
        let v = #[trigger] outside_unit_interval(values)[k];
        is_nan_bits(v) || order_key(v) < 0 || order_key(v) > 0x3FF0_0000_0000_0000
    } by {
        values.lemma_filter_pred(outside, k);
    }
    assert forall|i: int|
        0 <= i < values.len() && (is_nan_bits(#[trigger] values[i]) || order_key(values[i]) < 0
            || order_key(values[i]) > 0x3FF0_0000_0000_0000) implies outside_unit_interval(
        values,
    ).contains(values[i]) by {
        values.lemma_filter_contains(outside, i);
    }
    values.lemma_filter_len(outside);
}

} // verus!
