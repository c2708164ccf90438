//! A dense matrix of opaque scalars, stored column by column.

use vstd::prelude::*;

verus! {

/// `nrows * ncols` scalars in column-major order: entry `(r, c)` is stored at
/// position `c * nrows + r`.
#[derive(Clone, Debug)]
pub struct DenseMatrix<V> {
    nrows: usize,
    ncols: usize,
    data: Vec<V>,
}

/// Position of entry `(r, c)` in column-major storage lies inside the
/// storage.
pub proof fn lemma_column_major_position(nrows: int, ncols: int, r: int, c: int)
    requires
        0 <= r < nrows,
        0 <= c < ncols,
    ensures
        0 <= c * nrows + r < nrows * ncols,
{
    assert(c * nrows + r < nrows * ncols) by (nonlinear_arith)
        requires
            0 <= r < nrows,
            0 <= c < ncols,
    ;
    assert(0 <= c * nrows) by (nonlinear_arith)
        requires
            0 <= nrows,
            0 <= c,
    ;
}

impl<V: Copy> DenseMatrix<V> {
    /// Number of rows.
    pub closed spec fn rows(&self) -> nat {
        self.nrows as nat
    }

    /// Number of columns.
    pub closed spec fn cols(&self) -> nat {
        self.ncols as nat
    }

    /// The entries, column by column.
    pub closed spec fn entries(&self) -> Seq<V> {
        self.data@
    }

    /// There is one entry per position.
    pub open spec fn wf(&self) -> bool {
        self.entries().len() == self.rows() * self.cols()
    }

    /// Entry `(r, c)`.
    pub open spec fn at(&self, r: int, c: int) -> V {
        self.entries()[c * self.rows() + r]
    }

    /// The matrix of the given shape whose columns are stored one after the
    /// other in `data`; `None` where `data` does not hold `nrows * ncols`
    /// entries.
    pub fn from_column_major(nrows: usize, ncols: usize, data: Vec<V>) -> (r: Option<Self>)
        ensures
            r is Some <==> data@.len() == nrows * ncols,
            r matches Some(m) ==> m.wf() && m.rows() == nrows && m.cols() == ncols && m.entries()
                == data@,
    {
        let held = data.len();
        match nrows.checked_mul(ncols) {
            Some(len) => {
                if held == len {
                    Some(DenseMatrix { nrows, ncols, data })
                } else {
                    None
                }
            },
            None => None,
        }
    }

    /// Number of rows.
    pub fn nrows(&self) -> (n: usize)
        ensures
            n == self.rows(),
    {
        self.nrows
    }

    /// Number of columns.
    pub fn ncols(&self) -> (n: usize)
        ensures
            n == self.cols(),
    {
        self.ncols
    }

    /// Entry `(r, c)`.
    pub fn get(&self, r: usize, c: usize) -> (v: V)
        requires
            self.wf(),
            r < self.rows(),
            c < self.cols(),
        ensures
            v == self.at(r as int, c as int),
    {
        let held = self.data.len();
        proof {
            lemma_column_major_position(self.nrows as int, self.ncols as int, r as int, c as int);
            assert(held == self.nrows * self.ncols);
            assert(c * self.nrows + r < held);
        }
        self.data[c * self.nrows + r]
    }
}

} // verus!
