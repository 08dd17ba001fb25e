use copula_core::matrix::RealMatrix;
use copula_core::utils::{
    empirical_ranks, kendall_tau, pseudo_observation_ranks, remove_missing_values,
    spearman_rank_columns,
};

fn bits(xs: &[f64]) -> Vec<u64> {
    xs.iter().map(|x| x.to_bits()).collect()
}

fn matrix(nrows: usize, ncols: usize, values: &[f64]) -> RealMatrix {
    let rows: Vec<Vec<u64>> = (0..nrows).map(|i| bits(&values[i * ncols..(i + 1) * ncols])).collect();
    RealMatrix::from_rows(ncols, rows)
}

fn pearson(x: &[f64], y: &[f64]) -> f64 {
    let n = x.len() as f64;
    let mx = x.iter().sum::<f64>() / n;
    let my = y.iter().sum::<f64>() / n;
    let mut sxy = 0.0;
    let mut sxx = 0.0;
    let mut syy = 0.0;
    for i in 0..x.len() {
        sxy += (x[i] - mx) * (y[i] - my);
        sxx += (x[i] - mx) * (x[i] - mx);
        syy += (y[i] - my) * (y[i] - my);
    }
    sxy / (sxx * syy).sqrt()
}

#[test]
fn empirical_ranks_sum_formula() {
    // Sum of ranks 1..n = n(n+1)/2
    let data = bits(&[3.0, 1.0, 4.0, 1.5, 9.0, 2.0, 6.0]);
    let ranks = empirical_ranks(&data).unwrap();
    let n = data.len() as f64;
    let expected_sum = n * (n + 1.0) / 2.0;
    let actual_sum: f64 = ranks.iter().map(|&r| r as f64 / 2.0).sum();
    assert!((actual_sum - expected_sum).abs() < 1e-10, "sum of ranks = {} expected {}", actual_sum, expected_sum);
}

#[test]
fn pseudo_observations_uniform_marginals() {
    // Mean of pseudo-observations should be close to 0.5
    let mut values = Vec::with_capacity(200);
    for i in 0..100 {
        values.push(i as f64);
        values.push((i * i) as f64);
    }
    let data = matrix(100, 2, &values);
    let ranks = pseudo_observation_ranks(&data).unwrap();

    for j in 0..2 {
        let mean: f64 = (0..100).map(|i| ranks[j][i] as f64 / 2.0 / 101.0).sum::<f64>() / 100.0;
        assert!((mean - 0.5).abs() < 0.05, "column {} mean = {} expected ~0.5", j, mean);
    }
}

#[test]
fn multivariate_kendall_tau_is_symmetric() {
    let data = matrix(
        5,
        3,
        &[1.0, 2.0, 3.0, 2.0, 4.0, 1.0, 3.0, 1.0, 5.0, 4.0, 3.0, 2.0, 5.0, 5.0, 4.0],
    );
    for i in 0..3 {
        for j in 0..3 {
            let ci = data.column(i);
            let cj = data.column(j);
            assert_eq!(kendall_tau(&ci, &cj).unwrap(), kendall_tau(&cj, &ci).unwrap());
        }
        // Diagonal: a sample is perfectly concordant with itself
        let ci = data.column(i);
        let counts = kendall_tau(&ci, &ci).unwrap();
        assert_eq!(counts.discordant, 0);
        assert_eq!(counts.concordant, 10);
    }
}

#[test]
fn multivariate_spearman_rho_is_symmetric() {
    let data = matrix(
        5,
        3,
        &[1.0, 2.0, 3.0, 2.0, 4.0, 1.0, 3.0, 1.0, 5.0, 4.0, 3.0, 2.0, 5.0, 5.0, 4.0],
    );
    let ranks = spearman_rank_columns(&data).unwrap();
    let columns: Vec<Vec<f64>> = ranks.iter().map(|c| c.iter().map(|&r| r as f64 / 2.0).collect()).collect();
    for i in 0..3 {
        for j in 0..3 {
            let rij = pearson(&columns[i], &columns[j]);
            let rji = pearson(&columns[j], &columns[i]);
            assert!((rij - rji).abs() < 1e-10);
        }
        assert!((pearson(&columns[i], &columns[i]) - 1.0).abs() < 1e-10);
    }
}

#[test]
fn e2e_pseudo_observations_rank_ordering_preserved() {
    let data = matrix(
        5,
        2,
        &[10.0, 100.0, 20.0, 200.0, 30.0, 300.0, 40.0, 400.0, 50.0, 500.0],
    );
    let ranks = pseudo_observation_ranks(&data).unwrap();

    // Monotone data -> pseudo-observations should also be monotone
    for j in 0..2 {
        for i in 1..5 {
            assert!(ranks[j][i] > ranks[j][i - 1], "rank order not preserved at column {} rows {}-{}", j, i - 1, i);
        }
    }
}

#[test]
fn e2e_data_cleaning_pipeline() {
    let dirty = matrix(
        5,
        2,
        &[1.0, 2.0, f64::NAN, 4.0, 5.0, 6.0, 7.0, f64::INFINITY, 9.0, 10.0],
    );

    let clean = remove_missing_values(&dirty);
    assert_eq!(clean.nrows(), 3);

    let ranks = pseudo_observation_ranks(&clean).unwrap();
    assert_eq!(ranks[0].len(), 3);
    assert_eq!(ranks.len(), 2);

    for j in 0..2 {
        for i in 0..3 {
            let v = ranks[j][i] as f64 / 2.0 / 4.0;
            assert!(v > 0.0 && v < 1.0);
        }
    }
}
