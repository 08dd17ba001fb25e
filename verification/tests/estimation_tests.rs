use copula_core::error::CopulaError;
use copula_core::estimation::{
    kendall_tau, ordinal_ranks, pseudo_observation_ranks, spearman_ranks, EmpiricalCdf,
    TauEstimator,
};
use copula_core::matrix::RealMatrix;

fn b(x: f64) -> u64 {
    x.to_bits()
}

fn bits(xs: &[f64]) -> Vec<u64> {
    xs.iter().map(|x| x.to_bits()).collect()
}

fn matrix(nrows: usize, ncols: usize, values: &[f64]) -> RealMatrix {
    let rows: Vec<Vec<u64>> = (0..nrows).map(|i| bits(&values[i * ncols..(i + 1) * ncols])).collect();
    RealMatrix::from_rows(ncols, rows)
}

fn pearson(x: &[f64], y: &[f64]) -> f64 {
    let n = x.len() as f64;
    let mx = x.iter().sum::<f64>() / n;
    let my = y.iter().sum::<f64>() / n;
    let mut sxy = 0.0;
    let mut sxx = 0.0;
    let mut syy = 0.0;
    for i in 0..x.len() {
        sxy += (x[i] - mx) * (y[i] - my);
        sxx += (x[i] - mx) * (x[i] - mx);
        syy += (y[i] - my) * (y[i] - my);
    }
    sxy / (sxx.sqrt() * syy.sqrt())
}

#[test]
fn test_empirical_cdf() {
    let data = bits(&[1.0, 2.0, 3.0, 4.0, 5.0]);
    let ecdf = EmpiricalCdf::new(data).unwrap();

    assert_eq!(ecdf.count_at_most(b(0.0)) as f64 / 5.0, 0.0);
    assert_eq!(ecdf.count_at_most(b(3.0)) as f64 / 5.0, 0.6); // 3/5
    assert_eq!(ecdf.count_at_most(b(6.0)) as f64 / 5.0, 1.0);
}

#[test]
fn test_pseudo_observations() {
    let data = bits(&[1.0, 3.0, 2.0, 5.0, 4.0]);
    let ecdf = EmpiricalCdf::new(data).unwrap();
    let ranks = ecdf.pseudo_observation_ranks();

    // All values should be in (0, 1)
    for &r in &ranks {
        let p = r as f64 / 6.0;
        assert!(p > 0.0 && p < 1.0);
    }
    assert_eq!(ranks, vec![1, 2, 3, 4, 5]);
}

#[test]
fn test_kendall_tau_perfect_concordance() {
    let x = bits(&[1.0, 2.0, 3.0, 4.0, 5.0]);
    let y = bits(&[2.0, 4.0, 6.0, 8.0, 10.0]);
    let counts = kendall_tau(&x, &y).unwrap();
    let tau = (counts.concordant as f64 - counts.discordant as f64)
        / (counts.concordant + counts.discordant) as f64;
    assert!((tau - 1.0).abs() < 1e-10);
    assert_eq!((counts.concordant, counts.discordant), (10, 0));
}

#[test]
fn test_kendall_tau_perfect_discordance() {
    let x = bits(&[1.0, 2.0, 3.0, 4.0, 5.0]);
    let y = bits(&[10.0, 8.0, 6.0, 4.0, 2.0]);
    let counts = kendall_tau(&x, &y).unwrap();
    let tau = (counts.concordant as f64 - counts.discordant as f64)
        / (counts.concordant + counts.discordant) as f64;
    assert!((tau + 1.0).abs() < 1e-10);
    assert_eq!((counts.concordant, counts.discordant), (0, 10));
}

#[test]
fn mod_test_spearman_rho() {
    let x = bits(&[1.0, 2.0, 3.0, 4.0, 5.0]);
    let y = bits(&[2.0, 4.0, 6.0, 8.0, 10.0]);
    let (rx, ry) = spearman_ranks(&x, &y).unwrap();
    let rx: Vec<f64> = rx.iter().map(|&r| r as f64).collect();
    let ry: Vec<f64> = ry.iter().map(|&r| r as f64).collect();
    let rho = pearson(&rx, &ry);
    assert!((rho - 1.0).abs() < 1e-10);
}

#[test]
fn mod_test_to_pseudo_observations() {
    let data = matrix(3, 2, &[1.0, 5.0, 2.0, 3.0, 3.0, 1.0]);

    let ranks = pseudo_observation_ranks(&data).unwrap();

    // Check dimensions: one column of ranks per variable
    assert_eq!(ranks.len(), 2);
    assert_eq!(ranks[0].len(), 3);

    // Check all values in (0, 1)
    for j in 0..2 {
        for i in 0..3 {
            let p = ranks[j][i] as f64 / 4.0;
            assert!(p > 0.0 && p < 1.0);
        }
    }
    assert_eq!(ranks, vec![vec![1, 2, 3], vec![3, 2, 1]]);
}

#[test]
fn empirical_cdf_rejects_nan() {
    let data = bits(&[1.0, f64::NAN, 3.0]);
    assert!(EmpiricalCdf::new(data).is_err());
}

#[test]
fn empirical_cdf_rejects_infinity() {
    let data = bits(&[1.0, f64::INFINITY, 3.0]);
    assert!(EmpiricalCdf::new(data).is_err());
}

#[test]
fn to_pseudo_observations_rejects_nan() {
    let data = matrix(2, 2, &[1.0, 2.0, f64::NAN, 4.0]);
    assert!(pseudo_observation_ranks(&data).is_err());
}

#[test]
fn empirical_cdf_rejects_empty_data_with_its_message() {
    match EmpiricalCdf::new(Vec::new()) {
        Err(CopulaError::DataError { message }) => {
            assert_eq!(message, "EmpiricalCdf requires non-empty data")
        }
        _ => panic!("empty data must be refused"),
    }
    match EmpiricalCdf::new(bits(&[f64::NEG_INFINITY])) {
        Err(CopulaError::DataError { message }) => assert_eq!(
            message,
            "EmpiricalCdf data contains non-finite values (NaN or infinite)"
        ),
        _ => panic!("infinite data must be refused"),
    }
}

#[test]
fn empirical_cdf_is_monotone_and_bounded() {
    let ecdf = EmpiricalCdf::new(bits(&[2.0, -1.0, 2.0, 7.5])).unwrap();
    let points = [-5.0, -1.0, 0.0, 2.0, 3.0, 7.5, 100.0];
    let mut last = 0;
    for &x in &points {
        let c = ecdf.count_at_most(b(x));
        assert!(c >= last && c <= 4);
        last = c;
    }
    assert_eq!(ecdf.count_at_most(b(-5.0)), 0);
    assert_eq!(ecdf.count_at_most(b(2.0)), 3);
    assert_eq!(ecdf.count_at_most(b(100.0)), 4);
    assert_eq!(ecdf.count_at_most(b(f64::NAN)), 0);
}

#[test]
fn ecdf_ranks_count_strictly_smaller_points() {
    let ecdf = EmpiricalCdf::new(bits(&[3.0, 1.0, 3.0, 2.0])).unwrap();
    // sorted data: 1, 2, 3, 3
    assert_eq!(ecdf.pseudo_observation_ranks(), vec![1, 2, 3, 3]);
}

#[test]
fn ordinal_ranks_break_ties_in_input_order() {
    assert_eq!(ordinal_ranks(&bits(&[3.0, 1.0, 3.0, 2.0])), vec![3, 1, 4, 2]);
    assert_eq!(ordinal_ranks(&bits(&[0.0, -0.0])), vec![2, 1]);
    assert!(ordinal_ranks(&Vec::new()).is_empty());
}

#[test]
fn estimation_kendall_tau_errors() {
    assert!(matches!(
        kendall_tau(&bits(&[1.0, 2.0]), &bits(&[1.0])),
        Err(CopulaError::DimensionMismatch { expected: 2, actual: 1, .. })
    ));
    match kendall_tau(&bits(&[1.0]), &bits(&[1.0])) {
        Err(CopulaError::InvalidParameter { message, .. }) => {
            assert_eq!(message, "need at least 2 observations")
        }
        _ => panic!("a single observation must be refused"),
    }
}

#[test]
fn estimation_pseudo_observations_reject_empty_matrix() {
    match pseudo_observation_ranks(&RealMatrix::empty(2)) {
        Err(CopulaError::DataError { message }) => {
            assert_eq!(message, "Data matrix must be non-empty")
        }
        _ => panic!("an empty matrix must be refused"),
    }
}

#[test]
fn tau_checks_follow_the_admissible_ranges() {
    assert!(TauEstimator::check_clayton_tau(b(0.5)).is_ok());
    assert!(TauEstimator::check_clayton_tau(b(0.0)).is_err());
    assert!(TauEstimator::check_clayton_tau(b(1.0)).is_err());
    assert!(TauEstimator::check_gumbel_tau(b(0.5)).is_ok());
    assert!(TauEstimator::check_gumbel_tau(b(-0.1)).is_err());
    assert!(TauEstimator::check_gaussian_tau(b(-0.5)).is_ok());
    assert!(TauEstimator::check_gaussian_tau(b(1.5)).is_err());
}

#[test]
fn kendall_tau_over_all_pairs_stays_in_range() {
    let x = bits(&[1.0, 2.0, 2.0, 3.0, 0.5, 4.0]);
    let y = bits(&[3.0, 1.0, 4.0, 4.0, 2.0, 0.0]);
    let counts = kendall_tau(&x, &y).unwrap();
    let pairs = 6 * 5 / 2;
    assert!(counts.concordant + counts.discordant <= pairs);
    let tau = (counts.concordant as f64 - counts.discordant as f64) / pairs as f64;
    assert!((-1.0..=1.0).contains(&tau));
    assert_eq!((counts.concordant, counts.discordant), (6, 7));
}

#[test]
fn spearman_ranks_give_tied_values_their_average_rank() {
    // Doubled average ranks: [1, 1, 2] ranks as 1.5, 1.5, 3.
    let (rx, ry) = spearman_ranks(&bits(&[1.0, 1.0, 2.0]), &bits(&[3.0, 2.0, 1.0])).unwrap();
    assert_eq!(rx, vec![3, 3, 6]);
    assert_eq!(ry, vec![6, 4, 2]);
    let (rx, _) = spearman_ranks(&bits(&[5.0, 5.0, 5.0, 0.0]), &bits(&[1.0, 2.0, 3.0, 4.0])).unwrap();
    assert_eq!(rx, vec![6, 6, 6, 2]);
}

#[test]
fn kendall_counts_depend_only_on_the_ranks() {
    let x = [0.3, -1.0, 2.5, 2.5, 7.0, 0.1];
    let y = [1.0, 4.0, -2.0, 3.0, 3.0, 0.0];
    let base = kendall_tau(&bits(&x), &bits(&y)).unwrap();
    // A strictly increasing map of x (here cubing, then shifting).
    let x_mapped: Vec<f64> = x.iter().map(|v| v * v * v + 10.0).collect();
    let mapped = kendall_tau(&bits(&x_mapped), &bits(&y)).unwrap();
    assert_eq!((mapped.concordant, mapped.discordant), (base.concordant, base.discordant));
    // Negating y swaps the two counts.
    let y_negated: Vec<f64> = y.iter().map(|v| -v).collect();
    let negated = kendall_tau(&bits(&x), &bits(&y_negated)).unwrap();
    assert_eq!((negated.concordant, negated.discordant), (base.discordant, base.concordant));
    // Swapping the samples keeps the counts.
    let swapped = kendall_tau(&bits(&y), &bits(&x)).unwrap();
    assert_eq!((swapped.concordant, swapped.discordant), (base.concordant, base.discordant));
}

#[test]
fn empirical_cdf_len_is_the_number_of_points() {
    let ecdf = EmpiricalCdf::new(bits(&[3.0, 1.0, 3.0, 2.0])).unwrap();
    assert_eq!(ecdf.len(), 4);
    assert_eq!(EmpiricalCdf::new(bits(&[0.5])).unwrap().len(), 1);
    // F(x) is the count at or below x over len: F(2) = 2 / 4
    assert_eq!(ecdf.count_at_most(b(2.0)), 2);
}
