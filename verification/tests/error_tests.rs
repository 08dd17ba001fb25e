use copula_core::error::{
    validate_dimensions, validate_finite_data, validate_non_negative, validate_positive,
    validate_range, validate_unit_range, CopulaError,
};

fn b(x: f64) -> u64 {
    x.to_bits()
}

fn bits(xs: &[f64]) -> Vec<u64> {
    xs.iter().map(|x| x.to_bits()).collect()
}

#[test]
fn test_validate_unit_range() {
    // Valid range
    assert!(validate_unit_range(&bits(&[0.0, 0.5, 1.0])).is_ok());

    // Invalid range
    assert!(validate_unit_range(&bits(&[-0.1, 0.5])).is_err());
    assert!(validate_unit_range(&bits(&[0.5, 1.1])).is_err());
    assert!(validate_unit_range(&bits(&[f64::NAN])).is_err());
}

#[test]
fn test_error_categories() {
    let err = CopulaError::invalid_parameter("test");
    assert_eq!(err.category(), "parameter");
    assert!(!err.is_recoverable());

    let err = CopulaError::numerical("test");
    assert_eq!(err.category(), "numerical");
    assert!(err.is_recoverable());
}

#[test]
fn invalid_range_lists_every_value_outside_in_order() {
    let values = bits(&[-0.1, 0.5, 1.1, f64::NAN, -0.0, 1.0]);
    match validate_unit_range(&values) {
        Err(CopulaError::InvalidRange { values: bad }) => {
            assert_eq!(bad.len(), 3);
            assert_eq!(f64::from_bits(bad[0]), -0.1);
            assert_eq!(f64::from_bits(bad[1]), 1.1);
            assert!(f64::from_bits(bad[2]).is_nan());
        }
        other => panic!("unexpected result {:?}", other),
    }
    assert!(validate_unit_range(&Vec::new()).is_ok());
}

#[test]
fn every_category_and_recoverability() {
    let cases: Vec<(CopulaError, &str, bool)> = vec![
        (CopulaError::invalid_parameter("m"), "parameter", false),
        (CopulaError::invalid_parameter_with_suggestion("m", "s"), "parameter", false),
        (CopulaError::dimension_mismatch(2, 3), "dimension", false),
        (CopulaError::dimension_mismatch_with_context(2, 3, "c"), "dimension", false),
        (CopulaError::invalid_range(vec![b(2.0)]), "range", false),
        (CopulaError::numerical("m"), "numerical", true),
        (CopulaError::matrix_error("op", "why"), "matrix", false),
        (CopulaError::optimization("m"), "optimization", true),
        (CopulaError::statistical("m"), "statistical", true),
        (CopulaError::data_error("m"), "data", false),
        (CopulaError::not_implemented("m"), "implementation", false),
        (CopulaError::computation("m"), "computation", true),
        (CopulaError::serialization("m"), "serialization", false),
    ];
    for (err, category, recoverable) in cases {
        assert_eq!(err.category(), category);
        assert_eq!(err.is_recoverable(), recoverable);
        let by_category = matches!(
            category,
            "numerical" | "optimization" | "statistical" | "computation"
        );
        assert_eq!(err.is_recoverable(), by_category);
    }
}

#[test]
fn constructors_keep_their_fields() {
    match CopulaError::invalid_parameter_with_suggestion("bad theta", "use 2.0") {
        CopulaError::InvalidParameter { message, suggestion } => {
            assert_eq!(message, "bad theta");
            assert_eq!(suggestion.as_deref(), Some("use 2.0"));
        }
        other => panic!("unexpected {:?}", other),
    }
    match CopulaError::dimension_mismatch_with_context(4, 5, "cdf") {
        CopulaError::DimensionMismatch { expected, actual, context } => {
            assert_eq!((expected, actual), (4, 5));
            assert_eq!(context.as_deref(), Some("cdf"));
        }
        other => panic!("unexpected {:?}", other),
    }
    match CopulaError::matrix_error("cholesky", "not positive definite") {
        CopulaError::MatrixError { operation, reason } => {
            assert_eq!(operation, "cholesky");
            assert_eq!(reason, "not positive definite");
        }
        other => panic!("unexpected {:?}", other),
    }
}

#[test]
fn validate_dimensions_reports_both_sizes() {
    assert!(validate_dimensions(3, 3, "ctx").is_ok());
    match validate_dimensions(3, 2, "ctx") {
        Err(CopulaError::DimensionMismatch { expected, actual, context }) => {
            assert_eq!((expected, actual), (3, 2));
            assert!(context.is_none());
        }
        other => panic!("unexpected {:?}", other),
    }
}

#[test]
fn validate_finite_data_names_the_data() {
    assert!(validate_finite_data(&bits(&[1.0, -2.5, 0.0]), "x").is_ok());
    match validate_finite_data(&bits(&[1.0, f64::INFINITY]), "sample") {
        Err(CopulaError::DataError { message }) => {
            assert_eq!(message, "sample contains non-finite values (NaN or infinite)");
        }
        other => panic!("unexpected {:?}", other),
    }
    assert!(validate_finite_data(&bits(&[f64::NAN]), "x").is_err());
}

fn positive(value: f64, name: &str) -> Result<(), CopulaError> {
    validate_positive(value.to_bits(), name, &value.to_string())
}

fn in_range(value: f64, min: f64, max: f64, name: &str) -> Result<(), CopulaError> {
    validate_range(
        value.to_bits(),
        min.to_bits(),
        max.to_bits(),
        name,
        &min.to_string(),
        &max.to_string(),
        &value.to_string(),
    )
}

#[test]
fn test_validate_positive() {
    assert!(positive(1.0, "theta").is_ok());
    assert!(positive(0.0, "theta").is_err());
    assert!(positive(-1.0, "theta").is_err());
    assert!(positive(f64::NAN, "theta").is_err());
    assert!(positive(f64::INFINITY, "theta").is_err());
}

#[test]
fn test_validate_range() {
    assert!(in_range(0.5, 0.0, 1.0, "param").is_ok());
    assert!(in_range(0.0, 0.0, 1.0, "param").is_ok());
    assert!(in_range(1.0, 0.0, 1.0, "param").is_ok());
    assert!(in_range(-0.1, 0.0, 1.0, "param").is_err());
    assert!(in_range(1.1, 0.0, 1.0, "param").is_err());
}

#[test]
fn parameter_checks_name_the_value_in_their_messages() {
    match positive(-0.5, "theta") {
        Err(CopulaError::InvalidParameter { message, suggestion }) => {
            assert_eq!(message, "theta must be positive and finite, got -0.5");
            assert!(suggestion.is_none());
        }
        _ => panic!("expected an invalid parameter"),
    }
    match validate_non_negative(b(f64::NAN), "nu", "NaN") {
        Err(CopulaError::InvalidParameter { message, .. }) => {
            assert_eq!(message, "nu must be non-negative and finite, got NaN");
        }
        _ => panic!("expected an invalid parameter"),
    }
    match in_range(2.0, -1.0, 1.0, "rho") {
        Err(CopulaError::InvalidParameter { message, .. }) => {
            assert_eq!(message, "rho must be in [-1, 1], got 2");
        }
        _ => panic!("expected an invalid parameter"),
    }
}

#[test]
fn non_negative_accepts_both_zeros_and_rejects_infinity() {
    assert!(validate_non_negative(b(0.0), "x", "0").is_ok());
    assert!(validate_non_negative(b(-0.0), "x", "-0").is_ok());
    assert!(validate_non_negative(b(3.5), "x", "3.5").is_ok());
    assert!(validate_non_negative(b(-1e-300), "x", "-1e-300").is_err());
    assert!(validate_non_negative(b(f64::INFINITY), "x", "inf").is_err());
    // Negative zero is not positive.
    assert!(validate_positive(b(-0.0), "x", "-0").is_err());
    // An infinite range bound does not admit an infinite value.
    assert!(in_range(f64::INFINITY, 0.0, f64::INFINITY, "x").is_err());
    assert!(in_range(f64::NAN, 0.0, 1.0, "x").is_err());
}
