use copula_core::archimedean::ClaytonCopula;
use copula_core::error::CopulaError;
use copula_core::traits::Copula;
use copula_core::vine::{cvine_inverse_positions, dvine_positions, validate_trees};

fn clayton_dimension(theta: f64) -> usize {
    ClaytonCopula::new(theta.to_bits()).unwrap().dimension()
}

fn message(r: Result<(), CopulaError>) -> String {
    match r {
        Err(CopulaError::InvalidParameter { message, .. }) => message,
        other => panic!("unexpected {:?}", other),
    }
}

#[test]
fn test_cvine_creation() {
    // Create a simple 3D C-vine
    let tree1 = vec![clayton_dimension(2.0), clayton_dimension(1.5)];
    let tree2 = vec![clayton_dimension(1.0)];
    assert!(validate_trees("C-vine", 3, &vec![tree1, tree2]).is_ok());
}

#[test]
fn test_cvine_wrong_num_trees() {
    let tree1 = vec![clayton_dimension(2.0)];
    // 3D C-vine should have 2 trees, not 1
    let result = validate_trees("C-vine", 3, &vec![tree1]);
    assert!(result.is_err());
    assert_eq!(message(result), "C-vine with dimension 3 should have 2 trees, got 1");
}

#[test]
fn test_cvine_wrong_num_pairs_in_tree() {
    // Tree 1 of a 3D C-vine needs 2 pair-copulas.
    let tree1 = vec![clayton_dimension(2.0)];
    let tree2 = vec![clayton_dimension(2.0)];
    let result = validate_trees("C-vine", 3, &vec![tree1, tree2]);
    assert!(result.is_err());
    assert_eq!(message(result), "Tree 1 should have 2 pair-copulas, got 1");
}

#[test]
fn test_dvine_wrong_num_trees() {
    let tree1 = vec![clayton_dimension(2.0)];
    assert!(validate_trees("D-vine", 3, &vec![tree1]).is_err());
}

#[test]
fn test_dvine_wrong_num_pairs_in_tree() {
    // Tree 1 of a 3D D-vine needs 2 pair-copulas.
    let tree1 = vec![clayton_dimension(2.0)];
    let tree2 = vec![clayton_dimension(2.0)];
    assert!(validate_trees("D-vine", 3, &vec![tree1, tree2]).is_err());
}

#[test]
fn test_dvine_creation() {
    // Create a simple 3D D-vine
    let tree1 = vec![clayton_dimension(2.0), clayton_dimension(1.5)];
    let tree2 = vec![clayton_dimension(1.0)];
    assert!(validate_trees("D-vine", 3, &vec![tree1, tree2]).is_ok());
}

#[test]
fn vine_rejects_pair_copula_that_is_not_bivariate() {
    // a trivariate Gaussian pair-copula
    let trivariate = 3;
    let result = validate_trees("C-vine", 2, &vec![vec![trivariate]]);
    assert!(result.is_err());
    assert_eq!(message(result), "pair-copula 1 of tree 1 must be bivariate, got dimension 3");
    assert!(validate_trees("D-vine", 2, &vec![vec![trivariate]]).is_err());
}

#[test]
fn vine_dimension_must_be_at_least_two() {
    assert_eq!(
        message(validate_trees("C-vine", 1, &Vec::new())),
        "dimension must be >= 2 for vine copulas"
    );
}

#[test]
fn vine_reports_the_first_bad_tree() {
    let trees = vec![vec![2, 2, 2, 2, 2, 2, 2, 2, 2, 2, 2], vec![2; 10], vec![2, 5, 2, 2, 7, 2, 2, 2, 2], vec![1]];
    assert_eq!(
        message(validate_trees("D-vine", 12, &trees)),
        "D-vine with dimension 12 should have 11 trees, got 4"
    );
    let mut trees: Vec<Vec<usize>> = (0..11).map(|l| vec![2; 11 - l]).collect();
    trees[2][4] = 7;
    trees[5] = vec![2];
    assert_eq!(
        message(validate_trees("D-vine", 12, &trees)),
        "pair-copula 5 of tree 3 must be bivariate, got dimension 7"
    );
}

#[test]
fn sampling_positions_follow_the_vine_layout() {
    assert_eq!(cvine_inverse_positions(0), vec![]);
    assert_eq!(cvine_inverse_positions(3), vec![(2, 0), (1, 1), (0, 2)]);
    let (inverse, forward) = dvine_positions(3);
    assert_eq!(inverse, vec![(2, 0), (1, 1), (0, 2)]);
    assert_eq!(forward, vec![(0, 2), (1, 1), (2, 0)]);
}
