use copula_core::error::CopulaError;
use copula_core::model_selection::{check_fold_count, k_fold_splits};

#[test]
fn k_fold_splits_tile_the_indices() {
    let indices = vec![7, 3, 0, 9, 1, 4, 8, 2, 6, 5];
    let folds = k_fold_splits(&indices, 3).unwrap();
    // 10 = 4 + 3 + 3: the first 10 % 3 folds hold one more
    assert_eq!(folds.len(), 3);
    assert_eq!(folds[0].test, vec![7, 3, 0, 9]);
    assert_eq!(folds[1].test, vec![1, 4, 8]);
    assert_eq!(folds[2].test, vec![2, 6, 5]);
    assert_eq!(folds[2].train, vec![7, 3, 0, 9, 1, 4, 8]);
    assert_eq!(folds[1].train, vec![7, 3, 0, 9, 2, 6, 5]);
    let mut all: Vec<usize> = folds.iter().flat_map(|f| f.test.clone()).collect();
    all.sort();
    assert_eq!(all, (0..10).collect::<Vec<usize>>());
}

#[test]
fn k_fold_splits_make_exactly_k_non_empty_folds() {
    // n = 5, k = 4: folds of 2, 1, 1, 1
    let indices: Vec<usize> = (0..5).collect();
    let folds = k_fold_splits(&indices, 4).unwrap();
    assert_eq!(folds.len(), 4);
    assert_eq!(folds[0].test, vec![0, 1]);
    assert_eq!(folds[1].test, vec![2]);
    assert_eq!(folds[3].test, vec![4]);
    assert_eq!(folds[3].train, vec![0, 1, 2, 3]);
    // n = 10, k = 6: folds of 2, 2, 2, 2, 1, 1
    let indices: Vec<usize> = (0..10).collect();
    let folds = k_fold_splits(&indices, 6).unwrap();
    assert_eq!(folds.len(), 6);
    assert_eq!(folds[3].test, vec![6, 7]);
    assert_eq!(folds[4].test, vec![8]);
    assert_eq!(folds[5].test, vec![9]);
    // k = n: one observation per fold
    let folds = k_fold_splits(&indices, 10).unwrap();
    assert!(folds.iter().enumerate().all(|(f, fold)| fold.test == vec![f] && fold.train.len() == 9));
}

#[test]
fn k_fold_splits_reject_bad_k() {
    let indices: Vec<usize> = (0..4).collect();
    for k in [0, 1, 5] {
        match k_fold_splits(&indices, k) {
            Err(CopulaError::InvalidParameter { message, .. }) => {
                assert_eq!(message, "k must be between 2 and n")
            }
            _ => panic!("k = {} must be refused", k),
        }
    }
    assert_eq!(k_fold_splits(&indices, 4).unwrap().len(), 4);
}

#[test]
fn fold_count_is_checked_from_n_and_k() {
    assert!(check_fold_count(10, 2).is_ok());
    assert!(check_fold_count(10, 10).is_ok());
    for (n, k) in [(10, 1), (10, 0), (10, 11), (1, 2)] {
        match check_fold_count(n, k) {
            Err(CopulaError::InvalidParameter { message, .. }) => {
                assert_eq!(message, "k must be between 2 and n")
            }
            _ => panic!("k = {} must be refused for n = {}", k, n),
        }
    }
}
