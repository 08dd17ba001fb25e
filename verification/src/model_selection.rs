//! Model selection: the fold structure of k-fold cross-validation.
//!
//! Cross-validation shuffles the `n` observations, cuts them into `k`
//! non-empty folds of consecutive positions (the first `n % k` folds hold
//! `n / k + 1` observations, the others `n / k`), and for each fold fits the
//! model on the other folds and evaluates it on this one. The folds are
//! computed here from the shuffled order of the observations.

use vstd::prelude::*;
use crate::error::{is_invalid_parameter, CopulaError, Result};

verus! {

/// One round of cross-validation: the observations to fit on and the
/// observations to evaluate on, as row indices.
#[derive(Debug)]
pub struct Fold {
    /// The rows the model is fitted on
    pub train: Vec<usize>,
    /// The rows the fitted model is evaluated on
    pub test: Vec<usize>,
}

/// The first position of fold `f` when `n` positions are cut into `k` folds:
/// the `f` folds before it hold `n / k` positions each, plus one each for
/// those among the first `n % k`.
pub open spec fn fold_start(f: nat, n: nat, k: nat) -> nat {
    f * (n / k) + if f < n % k {
        f
    } else {
        n % k
    }
}

/// `fold` is fold `f` of the `k` folds of `indices`: it tests the positions
/// `fold_start(f) .. fold_start(f + 1)` and trains on the others, in order.
pub open spec fn is_fold(indices: Seq<usize>, fold: Fold, f: nat, k: nat) -> bool {
    let n = indices.len();
    let start = fold_start(f, n, k) as int;
    let end = fold_start(f + 1, n, k) as int;
    &&& start < end
    &&& fold.test@ == indices.subrange(start, end)
    &&& fold.train@ == indices.subrange(0, start) + indices.subrange(end, n as int)
}

/// The folds run from the first position to the last: fold 0 starts at 0,
/// fold `k` (one past the last) at `n`, and each fold starts after the one
/// before it, by `n / k + 1` positions for the first `n % k` folds and by
/// `n / k` for the others.
pub proof fn lemma_fold_bounds(n: nat, k: nat, f: nat)
    requires
        1 <= k,
    ensures
        fold_start(0, n, k) == 0,
        fold_start(k, n, k) == n,
        fold_start(f + 1, n, k) == fold_start(f, n, k) + n / k + (if f < n % k {
            1int
        } else {
            0int
        }),
{
    let q = n / k;
    let r = n % k;
    assert(k * q + r == n) by (nonlinear_arith)
        requires
            1 <= k,
            q == n / k,
            r == n % k,
    ;
    assert((f + 1) * q == f * q + q) by (nonlinear_arith);
}

/// Fold starts grow with the fold number: strictly while `k <= n`, since
/// then every fold is non-empty.
pub proof fn lemma_fold_start_monotone(n: nat, k: nat, f: nat, g: nat)
    requires
        1 <= k,
        f <= g,
    ensures
        fold_start(f, n, k) <= fold_start(g, n, k),
        k <= n && f < g ==> fold_start(f, n, k) < fold_start(g, n, k),
{
    let q = n / k;
    assert(f * q <= g * q) by (nonlinear_arith)
        requires
            f <= g,
    ;
    if k <= n && f < g {
        assert(q >= 1) by (nonlinear_arith)
            requires
                1 <= k <= n,
                q == n / k,
        ;
        assert(f * q + q <= g * q) by (nonlinear_arith)
            requires
                f < g,
        ;
    }
}

/// The `k` folds partition the positions `0 .. n` (for `1 <= k <= n`): every
/// position lies in exactly one fold.
pub proof fn lemma_folds_partition(n: nat, k: nat, p: nat)
    requires
        1 <= k <= n,
        p < n,
    ensures
        exists|f: nat| f < k && #[trigger] fold_start(f, n, k) <= p < fold_start(f + 1, n, k),
        forall|f: nat, g: nat|
            f < k && g < k && #[trigger] fold_start(f, n, k) <= p < fold_start(f + 1, n, k)
                && #[trigger] fold_start(
                g,
                n,
                k,
            ) <= p < fold_start(g + 1, n, k) ==> f == g,
{
    lemma_fold_bounds(n, k, 0);
    lemma_fold_containing(n, k, p, 0);
    assert forall|f: nat, g: nat|
        f < k && g < k && #[trigger] fold_start(f, n, k) <= p < fold_start(f + 1, n, k)
            && #[trigger] fold_start(
            g,
            n,
            k,
        ) <= p < fold_start(g + 1, n, k) implies f == g by {
        if f < g {
            lemma_fold_start_monotone(n, k, f + 1, g);
        } else if g < f {
            lemma_fold_start_monotone(n, k, g + 1, f);
        }
    }
}

/// Searching from fold `g` on, a position at or past the start of fold `g`
/// lies in some fold from `g` to `k - 1`.
proof fn lemma_fold_containing(n: nat, k: nat, p: nat, g: nat)
    requires
        1 <= k <= n,
        p < n,
        g <= k,
        fold_start(g, n, k) <= p,
    ensures
        exists|f: nat| g <= f < k && #[trigger] fold_start(f, n, k) <= p < fold_start(f + 1, n, k),
    decreases k - g,
{
    lemma_fold_bounds(n, k, g);
    if g == k {
        assert(false);
    } else if p < fold_start(g + 1, n, k) {
        assert(fold_start(g, n, k) <= p < fold_start(g + 1, n, k));
    } else {
        lemma_fold_containing(n, k, p, g + 1);
    }
}

/// Check the number of folds of k-fold cross-validation over `n`
/// observations: it must lie in `2..=n`. This comes before the observations
/// are shuffled, so a refused `k` draws nothing.
pub fn check_fold_count(n: usize, k: usize) -> (r: Result<()>)
    ensures
        r is Ok <==> 2 <= k <= n,
        r is Err ==> is_invalid_parameter(r->Err_0, "k must be between 2 and n"@),
{
    if k < 2 || k > n {
        return Err(CopulaError::invalid_parameter("k must be between 2 and n"));
    }
    Ok(())
}

/// Split the shuffled row indices into the `k` folds of k-fold
/// cross-validation.
///
/// Fails unless `2 <= k <= n`. Fold `f` tests the positions
/// `fold_start(f) .. fold_start(f + 1)` of `indices` (see [`fold_start`]:
/// `n / k + 1` positions for the first `n % k` folds, `n / k` for the
/// others) and trains on the others in order. Every fold is non-empty, and
/// together the test sets are the indices (see [`lemma_folds_partition`]).
pub fn k_fold_splits(indices: &Vec<usize>, k: usize) -> (r: Result<Vec<Fold>>)
    ensures
        r is Ok <==> 2 <= k <= indices@.len(),
        r is Err ==> is_invalid_parameter(r->Err_0, "k must be between 2 and n"@),
        r is Ok ==> {
            let folds = r->Ok_0@;
            &&& folds.len() == k
            &&& forall|f: int|
                0 <= f < k ==> is_fold(indices@, #[trigger] folds[f], f as nat, k as nat)
        },
{
    let n = indices.len();
    check_fold_count(n, k)?;
    let q = n / k;
    let r = n % k;
    let mut folds: Vec<Fold> = Vec::new();
    let mut start: usize = 0;
    let mut fold: usize = 0;
    proof {
        lemma_fold_bounds(n as nat, k as nat, 0);
    }
    while fold < k
        invariant
            n == indices@.len(),
            2 <= k <= n,
            q == n / k,
            r == n % k,
            fold <= k,
            start == fold_start(fold as nat, n as nat, k as nat),
            folds@.len() == fold,
            forall|f: int|
                0 <= f < fold ==> is_fold(indices@, #[trigger] folds@[f], f as nat, k as nat),
        decreases k - fold,
    {
        proof {
            lemma_fold_bounds(n as nat, k as nat, fold as nat);
            lemma_fold_start_monotone(n as nat, k as nat, fold as nat, (fold + 1) as nat);
            lemma_fold_start_monotone(n as nat, k as nat, (fold + 1) as nat, k as nat);
        }
        let end = if fold < r {
            start + q + 1
        } else {
            start + q
        };
        assert(end == fold_start((fold + 1) as nat, n as nat, k as nat));
        let mut test: Vec<usize> = Vec::new();
        for p in start..end
            invariant
                start <= end <= n,
                n == indices@.len(),
                test@ == indices@.subrange(start as int, p as int),
        {
            test.push(indices[p]);
            assert(indices@.subrange(start as int, p + 1) =~= indices@.subrange(
                start as int,
                p as int,
            ).push(indices@[p as int]));
        }
        let mut train: Vec<usize> = Vec::new();
        for p in 0..start
            invariant
                start <= n,
                n == indices@.len(),
                train@ == indices@.subrange(0, p as int),
        {
            train.push(indices[p]);
            assert(indices@.subrange(0, p + 1) =~= indices@.subrange(0, p as int).push(
                indices@[p as int],
            ));
        }
        for p in end..n
            invariant
                start <= end <= n,
                n == indices@.len(),
                train@ == indices@.subrange(0, start as int) + indices@.subrange(
                    end as int,
                    p as int,
                ),
        {
            train.push(indices[p]);
            assert(indices@.subrange(0, start as int) + indices@.subrange(end as int, p + 1) =~= (
            indices@.subrange(0, start as int) + indices@.subrange(end as int, p as int)).push(
                indices@[p as int],
            ));
        }
        let ghost before = folds@;
        folds.push(Fold { train, test });
        proof {
            assert(is_fold(indices@, folds@[fold as int], fold as nat, k as nat));
            assert forall|f: int| 0 <= f < fold implies is_fold(
                indices@,
                #[trigger] folds@[f],
                f as nat,
                k as nat,
            ) by {
                assert(folds@[f] == before[f]);
            }
        }
        start = end;
        fold = fold + 1;
    }
    Ok(folds)
}

/// Each fold splits the indices in two: its test part holds `n / k` or
/// `n / k + 1` of them (so at least one when `k <= n`), its training part
/// the rest, and every index lands in one part or the other.
pub proof fn lemma_fold_splits_the_indices(indices: Seq<usize>, fold: Fold, f: nat, k: nat)
    requires
        1 <= k <= indices.len(),
        f < k,
        is_fold(indices, fold, f, k),
    ensures
        fold.test@.len() + fold.train@.len() == indices.len(),
        indices.len() / k <= fold.test@.len() <= indices.len() / k + 1,
        fold.test@.len() >= 1,
        forall|p: int|
            0 <= p < indices.len() ==> fold.test@.contains(#[trigger] indices[p])
                || fold.train@.contains(indices[p]),
{
    let n = indices.len();
    lemma_fold_bounds(n, k, f);
    lemma_fold_start_monotone(n, k, f + 1, k);
    assert(n / k >= 1) by (nonlinear_arith)
        requires
            1 <= k <= n,
    ;
    let start = fold_start(f, n, k) as int;
    let end = fold_start(f + 1, n, k) as int;
    assert forall|p: int| 0 <= p < indices.len() implies fold.test@.contains(#[trigger] indices[p])
        || fold.train@.contains(indices[p]) by {
        if p < start {
            assert(fold.train@[p] == indices[p]);
        } else if p < end {
            assert(fold.test@[p - start] == indices[p]);
        } else {
            assert(fold.train@[start + (p - end)] == indices[p]);
        }
    }
}

} // verus!
