use copula_core::archimedean::{AMHCopula, ClaytonCopula, FrankCopula, GumbelCopula, JoeCopula};
use copula_core::error::CopulaError;
use copula_core::estimation::{self, EmpiricalCdf};
use copula_core::matrix::RealMatrix;
use copula_core::traits::Copula;
use copula_core::utils::{
    empirical_copula_count, kendall_tau, pseudo_observation_ranks, remove_missing_values,
    spearman_ranks,
};

fn b(x: f64) -> u64 {
    x.to_bits()
}

fn bits(xs: &[f64]) -> Vec<u64> {
    xs.iter().map(|x| x.to_bits()).collect()
}

fn matrix(nrows: usize, ncols: usize, values: &[f64]) -> RealMatrix {
    let rows: Vec<Vec<u64>> = (0..nrows).map(|i| bits(&values[i * ncols..(i + 1) * ncols])).collect();
    RealMatrix::from_rows(ncols, rows)
}

#[test]
fn clayton_rejects_non_positive_theta() {
    assert!(ClaytonCopula::new(b(0.0)).is_err());
    assert!(ClaytonCopula::new(b(-1.0)).is_err());
    assert!(ClaytonCopula::new(b(f64::NAN)).is_err());
    assert!(ClaytonCopula::new(b(f64::INFINITY)).is_err());
}

#[test]
fn gumbel_rejects_theta_below_one() {
    assert!(GumbelCopula::new(b(0.5)).is_err());
    assert!(GumbelCopula::new(b(0.0)).is_err());
    assert!(GumbelCopula::new(b(-1.0)).is_err());
}

#[test]
fn frank_rejects_zero_theta() {
    assert!(FrankCopula::new(b(0.0)).is_err());
}

#[test]
fn joe_rejects_theta_below_one() {
    assert!(JoeCopula::new(b(0.5)).is_err());
    assert!(JoeCopula::new(b(0.0)).is_err());
}

#[test]
fn amh_rejects_out_of_bounds_theta() {
    assert!(AMHCopula::new(b(-1.1)).is_err());
    assert!(AMHCopula::new(b(1.1)).is_err());
}

#[test]
fn pseudo_observations_rejects_empty_matrix() {
    let data = RealMatrix::empty(2);
    assert!(pseudo_observation_ranks(&data).is_err());
}

#[test]
fn pseudo_observations_rejects_nan_values() {
    let data = matrix(3, 2, &[1.0, 2.0, f64::NAN, 4.0, 5.0, 6.0]);
    assert!(pseudo_observation_ranks(&data).is_err());
}

#[test]
fn pseudo_observations_rejects_infinite_values() {
    let data = matrix(3, 2, &[1.0, 2.0, f64::INFINITY, 4.0, 5.0, 6.0]);
    assert!(pseudo_observation_ranks(&data).is_err());
}

#[test]
fn pseudo_observations_output_strictly_in_unit_interval() {
    let data = matrix(5, 2, &[1.0, 10.0, 2.0, 20.0, 3.0, 30.0, 4.0, 40.0, 5.0, 50.0]);
    let ranks = pseudo_observation_ranks(&data).unwrap();
    for j in 0..2 {
        for i in 0..5 {
            let v = ranks[j][i] as f64 / 2.0 / 6.0;
            assert!(v > 0.0 && v < 1.0, "pseudo[{},{}] = {} not in (0,1)", i, j, v);
        }
    }
}

#[test]
fn kendall_tau_rejects_mismatched_lengths() {
    assert!(kendall_tau(&bits(&[1.0, 2.0]), &bits(&[1.0])).is_err());
}

#[test]
fn kendall_tau_rejects_too_few_observations() {
    assert!(kendall_tau(&bits(&[1.0]), &bits(&[2.0])).is_err());
}

#[test]
fn kendall_tau_rejects_non_finite_data() {
    assert!(kendall_tau(&bits(&[1.0, f64::NAN]), &bits(&[1.0, 2.0])).is_err());
    assert!(kendall_tau(&bits(&[1.0, 2.0]), &bits(&[1.0, f64::INFINITY])).is_err());
}

#[test]
fn spearman_rho_rejects_mismatched_lengths() {
    assert!(spearman_ranks(&bits(&[1.0, 2.0]), &bits(&[1.0])).is_err());
}

#[test]
fn spearman_rho_rejects_too_few_observations() {
    assert!(spearman_ranks(&bits(&[1.0]), &bits(&[2.0])).is_err());
}

#[test]
fn empirical_copula_cdf_dimension_mismatch() {
    let pseudo = matrix(3, 2, &[0.2, 0.3, 0.5, 0.6, 0.8, 0.9]);
    assert!(empirical_copula_count(&pseudo, &bits(&[0.5])).is_err());
    assert!(empirical_copula_count(&pseudo, &bits(&[0.5, 0.5, 0.5])).is_err());
}

#[test]
fn empirical_copula_cdf_out_of_range() {
    let pseudo = matrix(3, 2, &[0.2, 0.3, 0.5, 0.6, 0.8, 0.9]);
    assert!(empirical_copula_count(&pseudo, &bits(&[-0.1, 0.5])).is_err());
    assert!(empirical_copula_count(&pseudo, &bits(&[0.5, 1.1])).is_err());
}

#[test]
fn copula_error_is_recoverable() {
    let err = CopulaError::numerical("test");
    assert!(err.is_recoverable());

    let err = CopulaError::invalid_parameter("test");
    assert!(!err.is_recoverable());
}

#[test]
fn copula_error_categories() {
    assert_eq!(CopulaError::numerical("x").category(), "numerical");
    assert_eq!(CopulaError::invalid_parameter("x").category(), "parameter");
    assert_eq!(CopulaError::data_error("x").category(), "data");
    assert_eq!(CopulaError::computation("x").category(), "computation");
    assert_eq!(CopulaError::not_implemented("x").category(), "implementation");
    assert_eq!(CopulaError::matrix_error("op", "reason").category(), "matrix");
    assert_eq!(CopulaError::dimension_mismatch(2, 3).category(), "dimension");
}

#[test]
fn remove_missing_values_filters_nan() {
    let data = matrix(4, 2, &[1.0, 2.0, f64::NAN, 4.0, 5.0, 6.0, 7.0, f64::INFINITY]);
    let clean = remove_missing_values(&data);
    assert_eq!(clean.nrows(), 2);
    assert_eq!(f64::from_bits(clean.get(0, 0)), 1.0);
    assert_eq!(f64::from_bits(clean.get(1, 0)), 5.0);
}

#[test]
fn bootstrap_sample_preserves_dimensions() {
    let data = matrix(
        10,
        3,
        &[
            0.1, 0.2, 0.3, 0.4, 0.5, 0.6, 0.7, 0.8, 0.9, 0.2, 0.3, 0.4, 0.5, 0.6, 0.7, 0.8, 0.9,
            0.1, 0.3, 0.4, 0.5, 0.6, 0.7, 0.8, 0.9, 0.1, 0.2, 0.4, 0.5, 0.6,
        ],
    );
    let draws = vec![3, 3, 9, 0, 1, 7, 2, 2, 5, 8];
    let boot = data.select_rows(&draws);
    assert_eq!(boot.nrows(), 10);
    assert_eq!(boot.ncols(), 3);
}

#[test]
fn joe_rejects_nan_and_inf() {
    assert!(JoeCopula::new(b(f64::NAN)).is_err());
    assert!(JoeCopula::new(b(f64::INFINITY)).is_err());
    assert!(JoeCopula::new(b(f64::NEG_INFINITY)).is_err());
}

#[test]
fn frank_rejects_nan_and_inf() {
    assert!(FrankCopula::new(b(f64::NAN)).is_err());
    assert!(FrankCopula::new(b(f64::INFINITY)).is_err());
    assert!(FrankCopula::new(b(f64::NEG_INFINITY)).is_err());
}

#[test]
fn amh_rejects_nan_and_inf() {
    assert!(AMHCopula::new(b(f64::NAN)).is_err());
    assert!(AMHCopula::new(b(f64::INFINITY)).is_err());
    assert!(AMHCopula::new(b(f64::NEG_INFINITY)).is_err());
}

#[test]
fn empirical_cdf_rejects_empty_data() {
    assert!(EmpiricalCdf::new(Vec::new()).is_err());
}

#[test]
fn estimation_to_pseudo_observations_rejects_empty() {
    let empty = RealMatrix::empty(2);
    assert!(estimation::pseudo_observation_ranks(&empty).is_err());
}

#[test]
fn basic_construction() {
    let amh = AMHCopula::new(b(0.5)).unwrap();
    assert_eq!(amh.dimension(), 2);

    let frank = FrankCopula::new(b(1.2)).unwrap();
    assert_eq!(frank.dimension(), 2);

    let joe = JoeCopula::new(b(2.0)).unwrap();
    assert_eq!(joe.dimension(), 2);
}
