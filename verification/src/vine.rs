//! Vine copulas: the tree structure.
//!
//! A d-dimensional vine is built from d - 1 trees of bivariate pair-copulas;
//! tree `l` (from 0) holds `d - l - 1` of them. Sampling walks the trees in a
//! fixed order of (tree, edge) positions:
//!
//! - C-vine: `trees[l][e]` couples variables `l` and `l + e + 1`, given
//!   variables `0..l`.
//! - D-vine: `trees[l][e]` couples variables `e` and `e + l + 1`, given
//!   variables `e + 1..=e + l`.
//!
//! The structure checks and the positions visited are computed here; the
//! pair-copulas themselves are described by their dimensions.

use vstd::prelude::*;
use crate::error::{is_invalid_parameter, CopulaError, Result};
use crate::text::{append_decimal, append_str, decimal, text_of};

verus! {

/// The message for a vine with the wrong number of trees.
pub open spec fn tree_count_message(kind: Seq<char>, dimension: nat, got: nat) -> Seq<char> {
    kind + " with dimension "@ + decimal(dimension) + " should have "@ + decimal(
        (dimension - 1) as nat,
    ) + " trees, got "@ + decimal(got)
}

/// The message for a tree with the wrong number of pair-copulas.
pub open spec fn pair_count_message(tree: nat, expected: nat, got: nat) -> Seq<char> {
    "Tree "@ + decimal(tree) + " should have "@ + decimal(expected) + " pair-copulas, got "@
        + decimal(got)
}

/// The message for a pair-copula that is not bivariate.
pub open spec fn bivariate_message(edge: nat, tree: nat, dimension: nat) -> Seq<char> {
    "pair-copula "@ + decimal(edge) + " of tree "@ + decimal(tree)
        + " must be bivariate, got dimension "@ + decimal(dimension)
}

/// The pair-copula dimensions of each tree.
pub open spec fn shape_of(trees: Seq<Vec<usize>>) -> Seq<Seq<usize>> {
    trees.map_values(|t: Vec<usize>| t@)
}

/// `trees` has the shape of a vine of the given dimension: `dimension - 1`
/// trees, tree `l` holding `dimension - l - 1` pair-copulas, all bivariate.
pub open spec fn valid_vine_shape(dimension: nat, trees: Seq<Seq<usize>>) -> bool {
    &&& dimension >= 2
    &&& trees.len() == dimension - 1
    &&& forall|l: int| 0 <= l < trees.len() ==> (#[trigger] trees[l]).len() == dimension - l - 1
    &&& forall|l: int, e: int|
        0 <= l < trees.len() && 0 <= e < trees[l].len() ==> #[trigger] trees[l][e] == 2
}

/// Tree `l` passes its checks: it holds `dimension - l - 1` pair-copulas,
/// all bivariate.
pub open spec fn tree_fine(dimension: nat, trees: Seq<Seq<usize>>, l: int) -> bool {
    &&& trees[l].len() == dimension - l - 1
    &&& forall|e: int| 0 <= e < trees[l].len() ==> #[trigger] trees[l][e] == 2
}

/// `e` is the error reported for tree `l` (numbered from 0): a wrong number
/// of pair-copulas, or else its first pair-copula that is not bivariate.
pub open spec fn tree_error(dimension: nat, tree: Seq<usize>, l: int, e: CopulaError) -> bool {
    ||| tree.len() != dimension - l - 1 && is_invalid_parameter(
        e,
        pair_count_message((l + 1) as nat, (dimension - l - 1) as nat, tree.len()),
    )
    ||| tree.len() == dimension - l - 1 && exists|g: int|
        0 <= g < tree.len() && #[trigger] tree[g] != 2 && (forall|h: int|
            0 <= h < g ==> #[trigger] tree[h] == 2) && is_invalid_parameter(
            e,
            bivariate_message((g + 1) as nat, (l + 1) as nat, tree[g] as nat),
        )
}

/// Check the number of trees, the number of pair-copulas in each tree, and
/// that every pair-copula is bivariate.
///
/// `trees[l][e]` is the dimension of pair-copula `e` of tree `l`; `kind`
/// names the vine in messages ("C-vine", "D-vine"). Trees and edges are
/// numbered from 1 in messages.
pub fn validate_trees(kind: &str, dimension: usize, trees: &Vec<Vec<usize>>) -> (r: Result<()>)
    ensures
        r is Ok <==> valid_vine_shape(dimension as nat, shape_of(trees@)),
        dimension < 2 ==> r is Err && is_invalid_parameter(
            r->Err_0,
            "dimension must be >= 2 for vine copulas"@,
        ),
        dimension >= 2 && trees@.len() != dimension - 1 ==> r is Err && is_invalid_parameter(
            r->Err_0,
            tree_count_message(kind@, dimension as nat, trees@.len()),
        ),
        dimension >= 2 && trees@.len() == dimension - 1 && r is Err ==> exists|l: int|
            0 <= l < trees@.len() && (forall|m: int|
                0 <= m < l ==> #[trigger] tree_fine(
                    dimension as nat,
                    shape_of(trees@),
                    m,
                )) && #[trigger] tree_error(dimension as nat, trees@[l]@, l, r->Err_0),
{
    let ghost shape = shape_of(trees@);
    assert(shape.len() == trees@.len());
    if dimension < 2 {
        return Err(CopulaError::invalid_parameter("dimension must be >= 2 for vine copulas"));
    }
    if trees.len() != dimension - 1 {
        let mut message = text_of(kind);
        append_str(&mut message, " with dimension ");
        append_decimal(&mut message, dimension);
        append_str(&mut message, " should have ");
        append_decimal(&mut message, dimension - 1);
        append_str(&mut message, " trees, got ");
        append_decimal(&mut message, trees.len());
        return Err(CopulaError::InvalidParameter { message, suggestion: None });
    }
    let n = trees.len();
    let mut level: usize = 0;
    while level < n
        invariant
            level <= n,
            n == trees@.len(),
            n == dimension - 1,
            dimension >= 2,
            shape == shape_of(trees@),
            shape.len() == n,
            forall|m: int| 0 <= m < level ==> #[trigger] tree_fine(dimension as nat, shape, m),
        decreases n - level,
    {
        let tree = &trees[level];
        assert(tree@ == shape[level as int]);
        let expected = dimension - level - 1;
        if tree.len() != expected {
            let mut message = text_of("Tree ");
            append_decimal(&mut message, level + 1);
            append_str(&mut message, " should have ");
            append_decimal(&mut message, expected);
            append_str(&mut message, " pair-copulas, got ");
            append_decimal(&mut message, tree.len());
            let err = CopulaError::InvalidParameter { message, suggestion: None };
            assert(tree_error(dimension as nat, trees@[level as int]@, level as int, err));
            assert(!valid_vine_shape(dimension as nat, shape));
            let r: Result<()> = Err(err);
            assert(r->Err_0 == err);
            return r;
        }
        let m = tree.len();
        let mut edge: usize = 0;
        while edge < m
            invariant
                edge <= m,
                m == tree@.len(),
                level < n,
                n == trees@.len(),
                n == dimension - 1,
                shape == shape_of(trees@),
                shape.len() == n,
                tree@ == shape[level as int],
                tree@ == trees@[level as int]@,
                m == dimension - level - 1,
                dimension >= 2,
                forall|j: int| 0 <= j < level ==> #[trigger] tree_fine(dimension as nat, shape, j),
                forall|g: int| 0 <= g < edge ==> #[trigger] tree@[g] == 2,
            decreases m - edge,
        {
            let pair_dim = tree[edge];
            if pair_dim != 2 {
                let mut message = text_of("pair-copula ");
                append_decimal(&mut message, edge + 1);
                append_str(&mut message, " of tree ");
                append_decimal(&mut message, level + 1);
                append_str(&mut message, " must be bivariate, got dimension ");
                append_decimal(&mut message, pair_dim);
                let err = CopulaError::InvalidParameter { message, suggestion: None };
                assert(tree_error(dimension as nat, trees@[level as int]@, level as int, err));
                assert(shape[level as int][edge as int] != 2);
                assert(!valid_vine_shape(dimension as nat, shape));
                let r: Result<()> = Err(err);
                assert(r->Err_0 == err);
                return r;
            }
            edge = edge + 1;
        }
        assert(tree_fine(dimension as nat, shape, level as int));
        level = level + 1;
    }
    assert forall|l: int, e: int| 0 <= l < shape.len() && 0 <= e < shape[l].len() implies #[trigger] shape[l][e] == 2 by {
        assert(tree_fine(dimension as nat, shape, l));
    }
    assert forall|l: int| 0 <= l < shape.len() implies (#[trigger] shape[l]).len() == dimension - l - 1 by {
        assert(tree_fine(dimension as nat, shape, l));
    }
    Ok(())
}

/// The pair-copula positions `(tree, edge)` that C-vine sampling inverts for
/// variable `i`, in order: `(k, i - k - 1)` for `k = i - 1` down to 0. The
/// inverse h-function of position `(k, i - k - 1)` conditions on the uniform
/// drawn for variable `k`.
pub fn cvine_inverse_positions(i: usize) -> (p: Vec<(usize, usize)>)
    ensures
        p@.len() == i,
        forall|t: int| 0 <= t < i ==> #[trigger] p@[t] == ((i - 1 - t) as usize, t as usize),
{
    let mut p: Vec<(usize, usize)> = Vec::new();
    let mut k: usize = i;
    while k > 0
        invariant
            k <= i,
            p@.len() == i - k,
            forall|t: int| 0 <= t < i - k ==> #[trigger] p@[t] == ((i - 1 - t) as usize, t as usize),
        decreases k,
    {
        k = k - 1;
        p.push((k, i - k - 1));
    }
    p
}

/// The pair-copula positions `(tree, edge)` that D-vine sampling uses for
/// variable `i`, in order: `(k - 1, i - k)` for `k = i` down to 1 (the
/// inversions), and then for `k = 1` up to `i` (the forward updates).
pub fn dvine_positions(i: usize) -> (p: (Vec<(usize, usize)>, Vec<(usize, usize)>))
    ensures
        p.0@.len() == i,
        p.1@.len() == i,
        forall|t: int| 0 <= t < i ==> #[trigger] p.0@[t] == ((i - 1 - t) as usize, t as usize),
        forall|t: int| 0 <= t < i ==> #[trigger] p.1@[t] == (t as usize, (i - 1 - t) as usize),
{
    let mut inverse: Vec<(usize, usize)> = Vec::new();
    let mut k: usize = i;
    while k > 0
        invariant
            k <= i,
            inverse@.len() == i - k,
            forall|t: int|
                0 <= t < i - k ==> #[trigger] inverse@[t] == ((i - 1 - t) as usize, t as usize),
        decreases k,
    {
        inverse.push((k - 1, i - k));
        k = k - 1;
    }
    let mut forward: Vec<(usize, usize)> = Vec::new();
    let mut k: usize = 0;
    while k < i
        invariant
            k <= i,
            forward@.len() == k,
            forall|t: int|
                0 <= t < k ==> #[trigger] forward@[t] == (t as usize, (i - 1 - t) as usize),
        decreases i - k,
    {
        forward.push((k, i - 1 - k));
        k = k + 1;
    }
    (inverse, forward)
}

/// Every position that sampling visits for a variable of the vine lies
/// inside the vine's trees: `(tree, edge)` pairs with `tree + edge + 1`
/// equal to the variable's index, and tree `tree` holds more than `edge`
/// pair-copulas.
pub proof fn lemma_sampling_positions_in_bounds(
    dimension: nat,
    trees: Seq<Seq<usize>>,
    i: nat,
    tree: nat,
    edge: nat,
)
    requires
        valid_vine_shape(dimension, trees),
        i < dimension,
        tree + edge + 1 == i,
    ensures
        tree < trees.len(),
        edge < trees[tree as int].len(),
{
    assert(trees[tree as int].len() == dimension - tree - 1);
}

/// A vine of dimension `d` has exactly one shape: `d - 1` trees, tree `l`
/// holding `d - l - 1` pair-copulas, each of dimension 2. So a valid vine has
/// `d(d - 1)/2` pair-copulas in all.
pub proof fn lemma_vine_shape_is_unique(dimension: nat, trees: Seq<Seq<usize>>)
    ensures
        valid_vine_shape(dimension, trees) <==> dimension >= 2 && trees == Seq::new(
            (dimension - 1) as nat,
            |l: int| Seq::new((dimension - l - 1) as nat, |e: int| 2usize),
        ),
{
    let canonical = Seq::new(
        (dimension - 1) as nat,
        |l: int| Seq::new((dimension - l - 1) as nat, |e: int| 2usize),
    );
    if valid_vine_shape(dimension, trees) {
        assert forall|l: int| 0 <= l < trees.len() implies #[trigger] trees[l] == canonical[l] by {
            assert(trees[l] =~= canonical[l]);
        }
        assert(trees =~= canonical);
    }
    if dimension >= 2 && trees == canonical {
        assert forall|l: int, e: int|
            0 <= l < trees.len() && 0 <= e < trees[l].len() implies #[trigger] trees[l][e] == 2 by {
            assert(trees[l] == canonical[l]);
        }
    }
}

} // verus!
