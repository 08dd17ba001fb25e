use copula_core::archimedean::{AMHCopula, ClaytonCopula, FrankCopula, GumbelCopula, JoeCopula};
use copula_core::elliptical::{check_degrees_of_freedom, check_identity_dimension};
use copula_core::error::CopulaError;
use copula_core::extreme_value::{GalambosCopula, HuslerReissCopula};
use copula_core::factor::{first_invalid_loading, first_nan_loading};
use copula_core::matrix::RealMatrix;
use copula_core::other::{EmpiricalCopula, MarshallOlkinCopula};
use copula_core::traits::Copula;

fn b(x: f64) -> u64 {
    x.to_bits()
}

fn bits(xs: &[f64]) -> Vec<u64> {
    xs.iter().map(|x| x.to_bits()).collect()
}

fn matrix(nrows: usize, ncols: usize, values: &[f64]) -> RealMatrix {
    let rows: Vec<Vec<u64>> = (0..nrows).map(|i| bits(&values[i * ncols..(i + 1) * ncols])).collect();
    RealMatrix::from_rows(ncols, rows)
}

#[test]
fn new_rejects_out_of_bounds_theta() {
    assert!(AMHCopula::new(b(1.0)).is_err());
    assert!(AMHCopula::new(b(-1.0)).is_err());
}

#[test]
fn amh_valid_new_returns_copula() {
    let cop = AMHCopula::new(b(0.5)).unwrap();
    assert_eq!(cop.dimension(), 2);
}

#[test]
fn clayton_new_rejects_invalid_theta() {
    assert!(ClaytonCopula::new(b(0.0)).is_err());
    assert!(ClaytonCopula::new(b(-1.0)).is_err());
}

#[test]
fn parameter_bounds_are_enforced() {
    let mut bad = ClaytonCopula::new(b(2.0)).unwrap();
    bad.set_fitted_theta(b(-1.0));
    assert!(bad.check_bounds().is_err());
    let good = ClaytonCopula::new(b(2.0)).unwrap();
    assert!(good.check_bounds().is_ok());
}

#[test]
fn new_rejects_zero_theta() {
    assert!(FrankCopula::new(b(0.0)).is_err());
}

#[test]
fn frank_valid_new_returns_copula() {
    let cop = FrankCopula::new(b(1.0)).unwrap();
    assert_eq!(cop.dimension(), 2);
}

#[test]
fn gumbel_new_rejects_invalid_theta() {
    assert!(GumbelCopula::new(b(1.0)).is_err());
    assert!(GumbelCopula::new(b(f64::NAN)).is_err());
}

#[test]
fn joe_new_rejects_invalid_theta() {
    assert!(JoeCopula::new(b(1.0)).is_err());
}

#[test]
fn joe_valid_new_returns_copula() {
    let cop = JoeCopula::new(b(2.0)).unwrap();
    assert_eq!(cop.dimension(), 2);
}

#[test]
fn marshall_olkin_rejects_invalid_params() {
    assert!(MarshallOlkinCopula::new(b(-0.1), b(0.5)).is_err());
    assert!(MarshallOlkinCopula::new(b(0.5), b(1.0)).is_err());
    assert!(MarshallOlkinCopula::new(b(1.0), b(0.5)).is_err());
}

#[test]
fn marshall_olkin_dimension() {
    let cop = MarshallOlkinCopula::new(b(0.3), b(0.4)).unwrap();
    assert_eq!(cop.dimension(), 2);
    assert_eq!(f64::from_bits(cop.alpha()), 0.3);
    assert_eq!(f64::from_bits(cop.beta()), 0.4);
}

#[test]
fn empirical_cdf_product() {
    let data = matrix(3, 2, &[0.2, 0.3, 0.4, 0.6, 0.9, 0.8]);
    let cop = EmpiricalCopula::new(data).unwrap();
    let count = cop.cdf_count(&bits(&[0.5, 0.7])).unwrap();
    // manually count
    assert!((count as f64 / 3.0 - 2.0 / 3.0).abs() < 1e-12);
}

#[test]
fn empirical_copula_rejects_invalid_data() {
    let data = matrix(2, 2, &[1.0, 0.5, 0.3, 0.7]);
    assert!(EmpiricalCopula::new(data).is_err()); // 1.0 not in (0,1)
}

#[test]
fn empirical_copula_dimension() {
    let data = matrix(3, 3, &[0.2, 0.3, 0.4, 0.5, 0.6, 0.7, 0.8, 0.9, 0.1]);
    let cop = EmpiricalCopula::new(data).unwrap();
    assert_eq!(cop.dimension(), 3);
}

#[test]
fn empirical_copula_cdf_validates_dimension() {
    let data = matrix(3, 2, &[0.2, 0.3, 0.5, 0.6, 0.8, 0.9]);
    let cop = EmpiricalCopula::new(data).unwrap();
    assert!(cop.cdf_count(&bits(&[0.5])).is_err());
    assert!(cop.cdf_count(&bits(&[0.5, 0.5, 0.5])).is_err());
}

#[test]
fn empirical_copula_pdf_not_implemented() {
    let data = matrix(3, 2, &[0.2, 0.3, 0.5, 0.6, 0.8, 0.9]);
    let cop = EmpiricalCopula::new(data).unwrap();
    assert!(cop.pdf(&bits(&[0.5, 0.5])).is_err());
    assert!(matches!(
        cop.pdf(&bits(&[0.5, 0.5])),
        Err(CopulaError::NotImplemented { .. })
    ));
}

#[test]
fn empirical_copula_sampling() {
    let data = matrix(3, 2, &[0.2, 0.3, 0.5, 0.6, 0.8, 0.9]);
    let cop = EmpiricalCopula::new(data).unwrap();
    let draws: Vec<Option<usize>> = vec![Some(0), Some(2), Some(1), Some(1), Some(0), Some(2), Some(2), Some(0), Some(1), Some(0)];
    let samples = cop.sample_rows(&draws).unwrap();
    assert_eq!(samples.nrows(), 10);
    assert_eq!(samples.ncols(), 2);
    assert_eq!(f64::from_bits(samples.get(1, 1)), 0.9);
}

#[test]
fn empirical_copula_reports_first_invalid_entry() {
    let data = matrix(2, 2, &[0.5, 0.5, 0.3, 1.0]);
    let err = EmpiricalCopula::new(data).unwrap_err();
    assert_eq!((err.row, err.col), (1, 1));
    assert_eq!(f64::from_bits(err.value), 1.0);
}

#[test]
fn empirical_copula_sampling_without_rows_fails() {
    let cop = EmpiricalCopula::new(RealMatrix::empty(2)).unwrap();
    assert!(cop.sample_rows(&vec![None]).is_err());
    assert_eq!(cop.sample_rows(&Vec::new()).unwrap().nrows(), 0);
}

#[test]
fn family_domains_and_messages() {
    match ClaytonCopula::new(b(f64::INFINITY)) {
        Err(CopulaError::InvalidParameter { message, .. }) => assert_eq!(message, "theta must be positive"),
        _ => panic!("an infinite theta must be refused"),
    }
    match GumbelCopula::new(b(0.5)) {
        Err(CopulaError::InvalidParameter { message, .. }) => assert_eq!(message, "theta must be > 1"),
        _ => panic!("theta below 1 must be refused"),
    }
    assert!(FrankCopula::new(b(-3.0)).is_ok());
    assert!(FrankCopula::new(b(1e-20)).is_err());
    assert!(JoeCopula::new(b(1.0000001)).is_ok());
    assert!(AMHCopula::new(b(-0.999)).is_ok());
    assert!(GalambosCopula::new(b(0.0)).is_ok());
    assert!(GalambosCopula::new(b(-0.5)).is_err());
    assert!(HuslerReissCopula::new(b(1.0)).is_ok());
    assert!(HuslerReissCopula::new(b(0.0)).is_err());
    assert_eq!(GalambosCopula::new(b(2.0)).unwrap().dimension(), 2);
}

#[test]
fn set_parameters_keeps_the_old_value_on_error() {
    let mut cop = GumbelCopula::new(b(2.0)).unwrap();
    assert!(cop.set_parameters(b(0.5)).is_err());
    assert_eq!(f64::from_bits(cop.theta()), 2.0);
    assert!(cop.set_parameters(b(3.0)).is_ok());
    assert_eq!(f64::from_bits(cop.theta()), 3.0);
}

#[test]
fn clayton_parameter_bounds() {
    let bounds = ClaytonCopula::parameter_bounds();
    assert_eq!(bounds.len(), 1);
    assert_eq!(f64::from_bits(bounds[0].0), 1e-4);
    assert_eq!(f64::from_bits(bounds[0].1), 10.0);
}

#[test]
fn one_factor_loadings_must_lie_in_the_unit_interval() {
    assert_eq!(first_invalid_loading(&bits(&[0.0, 0.5, 1.0])), None);
    assert_eq!(first_invalid_loading(&bits(&[0.5, 1.5, -0.1])), Some(1));
    assert_eq!(first_invalid_loading(&bits(&[-0.0, -0.1])), Some(1));
    assert_eq!(first_invalid_loading(&bits(&[f64::NAN])), Some(0));
    assert_eq!(first_invalid_loading(&bits(&[0.5, f64::NAN])), Some(1));
}

#[test]
fn test_one_factor_invalid_loading() {
    let loadings = bits(&[0.5, 1.5]); // 1.5 > 1.0
    assert!(first_invalid_loading(&loadings).is_some());
}

#[test]
fn families_have_closed_forms_by_default() {
    let cop = ClaytonCopula::new(b(2.0)).unwrap();
    assert_eq!(cop.has_closed_form(), (true, true));
    let mo = MarshallOlkinCopula::new(b(0.3), b(0.4)).unwrap();
    assert_eq!(mo.has_closed_form(), (true, true));
}

#[test]
fn student_t_degrees_of_freedom_must_be_positive_and_finite() {
    assert!(check_degrees_of_freedom(b(4.0)).is_ok());
    assert!(check_degrees_of_freedom(b(1e-6)).is_ok());
    for df in [0.0, -0.0, -3.0, f64::INFINITY, f64::NAN] {
        match check_degrees_of_freedom(b(df)) {
            Err(CopulaError::InvalidParameter { message, .. }) => {
                assert_eq!(message, "df must be positive")
            }
            _ => panic!("df = {} must be refused", df),
        }
    }
}

#[test]
fn identity_elliptical_copulas_need_two_dimensions() {
    assert!(check_identity_dimension(2).is_ok());
    assert!(check_identity_dimension(7).is_ok());
    for d in [0, 1] {
        match check_identity_dimension(d) {
            Err(CopulaError::InvalidParameter { message, .. }) => {
                assert_eq!(message, "Copula dimension must be at least 2")
            }
            _ => panic!("dimension {} must be refused", d),
        }
    }
}

#[test]
fn multi_factor_rows_refuse_nan_loadings() {
    assert_eq!(first_nan_loading(&bits(&[0.5, -0.3, f64::INFINITY])), None);
    assert_eq!(first_nan_loading(&bits(&[0.5, f64::NAN, f64::NAN])), Some(1));
    assert_eq!(first_nan_loading(&bits(&[f64::NAN])), Some(0));
    assert_eq!(first_nan_loading(&Vec::new()), None);
}
