//! Matrices of real values, row by row.
//!
//! A [`RealMatrix`] stands for an `nalgebra::DMatrix<f64>`: `nrows` rows of
//! `ncols` entries each, every entry an `f64` bit pattern (see
//! [`crate::binary64`]). Row `i` is an observation, column `j` a variable.

use vstd::prelude::*;

verus! {

/// A rectangular matrix of `f64` bit patterns, stored by rows.
#[derive(Debug)]
pub struct RealMatrix {
    ncols: usize,
    rows: Vec<Vec<u64>>,
}

/// `rows` all have `ncols` entries.
pub open spec fn rectangular(ncols: nat, rows: Seq<Seq<u64>>) -> bool {
    forall|i: int| 0 <= i < rows.len() ==> (#[trigger] rows[i]).len() == ncols
}

impl RealMatrix {
    #[verifier::type_invariant]
    spec fn well_formed(self) -> bool {
        forall|i: int| 0 <= i < self.rows@.len() ==> (#[trigger] self.rows@[i])@.len() == self.ncols
    }

    /// The rows of the matrix.
    pub closed spec fn entries(self) -> Seq<Seq<u64>> {
        self.rows@.map_values(|r: Vec<u64>| r@)
    }

    /// The number of columns.
    pub closed spec fn width(self) -> nat {
        self.ncols as nat
    }

    /// Every row of the matrix has as many entries as it has columns.
    pub(crate) fn note_rectangular(&self)
        ensures
            rectangular(self.width(), self.entries()),
    {
        proof {
            use_type_invariant(self);
        }
    }

    /// A matrix with `ncols` columns and the given rows.
    pub fn from_rows(ncols: usize, rows: Vec<Vec<u64>>) -> (m: Self)
        requires
            forall|i: int| 0 <= i < rows@.len() ==> (#[trigger] rows@[i])@.len() == ncols,
        ensures
            m.width() == ncols,
            m.entries() == rows@.map_values(|r: Vec<u64>| r@),
    {
        RealMatrix { ncols, rows }
    }

    /// A matrix with `ncols` columns and no rows.
    pub fn empty(ncols: usize) -> (m: Self)
        ensures
            m.width() == ncols,
            m.entries().len() == 0,
    {
        let rows: Vec<Vec<u64>> = Vec::new();
        RealMatrix { ncols, rows }
    }

    /// The number of rows.
    pub fn nrows(&self) -> (n: usize)
        ensures
            n == self.entries().len(),
    {
        self.rows.len()
    }

    /// The number of columns.
    pub fn ncols(&self) -> (n: usize)
        ensures
            n == self.width(),
    {
        self.ncols
    }

    /// The entry in row `i` and column `j`.
    pub fn get(&self, i: usize, j: usize) -> (v: u64)
        requires
            i < self.entries().len(),
            j < self.width(),
        ensures
            v == self.entries()[i as int][j as int],
    {
        proof {
            use_type_invariant(self);
        }
        self.rows[i][j]
    }

    /// Row `i`.
    pub fn row(&self, i: usize) -> (r: &Vec<u64>)
        requires
            i < self.entries().len(),
        ensures
            r@ == self.entries()[i as int],
            r@.len() == self.width(),
    {
        proof {
            use_type_invariant(self);
        }
        &self.rows[i]
    }

    /// Column `j`, top to bottom.
    pub fn column(&self, j: usize) -> (c: Vec<u64>)
        requires
            j < self.width(),
        ensures
            c@.len() == self.entries().len(),
            forall|i: int| 0 <= i < c@.len() ==> #[trigger] c@[i] == self.entries()[i][j as int],
    {
        proof {
            use_type_invariant(self);
        }
        let n = self.rows.len();
        let mut c: Vec<u64> = Vec::new();
        for i in 0..n
            invariant
                n == self.rows@.len(),
                c@.len() == i,
                forall|k: int| 0 <= k < i ==> #[trigger] c@[k] == self.entries()[k][j as int],
                forall|k: int|
                    0 <= k < self.rows@.len() ==> (#[trigger] self.rows@[k])@.len() == self.ncols,
                j < self.ncols,
        {
            c.push(self.rows[i][j]);
        }
        c
    }

    /// The rows at the given indices, in the given order (repeats allowed).
    pub fn select_rows(&self, idx: &Vec<usize>) -> (m: Self)
        requires
            forall|k: int| 0 <= k < idx@.len() ==> #[trigger] idx@[k] < self.entries().len(),
        ensures
            m.width() == self.width(),
            m.entries().len() == idx@.len(),
            forall|k: int|
                0 <= k < idx@.len() ==> #[trigger] m.entries()[k] == self.entries()[idx@[k] as int],
    {
        proof {
            use_type_invariant(self);
        }
        let mut rows: Vec<Vec<u64>> = Vec::new();
        let n = idx.len();
        for k in 0..n
            invariant
                n == idx@.len(),
                rows@.len() == k,
                forall|t: int| 0 <= t < idx@.len() ==> #[trigger] idx@[t] < self.rows@.len(),
                forall|t: int|
                    0 <= t < self.rows@.len() ==> (#[trigger] self.rows@[t])@.len() == self.ncols,
                forall|t: int| 0 <= t < k ==> #[trigger] rows@[t]@ == self.rows@[idx@[t] as int]@,
        {
            rows.push(self.rows[idx[k]].clone());
        }
        let m = RealMatrix { ncols: self.ncols, rows };
        assert forall|k: int| 0 <= k < idx@.len() implies #[trigger] m.entries()[k]
            == self.entries()[idx@[k] as int] by {}
        m
    }
}

impl Clone for RealMatrix {
    /// A copy of the matrix, entry for entry.
    fn clone(&self) -> (m: Self)
        ensures
            m.width() == self.width(),
            m.entries() == self.entries(),
    {
        proof {
            use_type_invariant(self);
        }
        let mut rows: Vec<Vec<u64>> = Vec::new();
        let n = self.rows.len();
        for k in 0..n
            invariant
                n == self.rows@.len(),
                rows@.len() == k,
                forall|t: int|
                    0 <= t < self.rows@.len() ==> (#[trigger] self.rows@[t])@.len() == self.ncols,
                forall|t: int| 0 <= t < k ==> #[trigger] rows@[t]@ == self.rows@[t]@,
        {
            rows.push(self.rows[k].clone());
        }
        let m = RealMatrix { ncols: self.ncols, rows };
        assert(m.entries() =~= self.entries());
        m
    }
}

} // verus!
