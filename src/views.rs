use vstd::prelude::*;

use crate::matrix::{Matrix, clone_is_exact, is_default, offset, lemma_offset_in_bounds};

verus! {

/// A lazy, single-pass walk along one row of a matrix.
pub struct Row<'a, T> {
    matrix: &'a Matrix<T>,
    row: usize,
    col_index: usize,
}

/// A lazy, single-pass walk down one column of a matrix.
pub struct Col<'a, T> {
    matrix: &'a Matrix<T>,
    row_index: usize,
    col: usize,
}

/// A lazy, single-pass walk along the diagonal of a square matrix.
pub struct Diag<'a, T> {
    matrix: &'a Matrix<T>,
    index: usize,
}

/// A lazy, single-pass walk over every element of a matrix in row-major
/// order.
pub struct MatrixIterator<'a, T> {
    matrix: &'a Matrix<T>,
    index: usize,
}

impl<T> Matrix<T> {
    /// A walk along row `i`, starting at column `0`.
    pub fn row(&self, i: usize) -> (r: Row<'_, T>)
        ensures
            r.source() == *self,
            r.line() == i,
            r.pos() == 0,
    {
        Row { matrix: self, row: i, col_index: 0 }
    }

    /// A walk down column `j`, starting at row `0`.
    pub fn col(&self, j: usize) -> (r: Col<'_, T>)
        ensures
            r.source() == *self,
            r.line() == j,
            r.pos() == 0,
    {
        Col { matrix: self, row_index: 0, col: j }
    }

    /// A walk along the diagonal, starting at `(0, 0)`. The matrix must be
    /// square.
    pub fn diag(&self) -> (r: Diag<'_, T>)
        requires
            self.nrows() == self.ncols(),
        ensures
            r.source() == *self,
            r.pos() == 0,
    {
        Diag { matrix: self, index: 0 }
    }

    /// A walk over every element in row-major order.
    pub fn iter(&self) -> (r: MatrixIterator<'_, T>)
        ensures
            r.source() == *self,
            r.pos() == 0,
    {
        MatrixIterator { matrix: self, index: 0 }
    }
}

impl<'a, T> Row<'a, T> {
    /// The matrix walked.
    pub closed spec fn source(&self) -> Matrix<T> {
        *self.matrix
    }

    /// The row walked.
    pub closed spec fn line(&self) -> nat {
        self.row as nat
    }

    /// The column of the next element.
    pub closed spec fn pos(&self) -> nat {
        self.col_index as nat
    }

    /// The matrix is well formed, the cursor within the row, and the row in
    /// bounds whenever an element is left to read.
    pub open spec fn wf(&self) -> bool {
        &&& self.source().wf()
        &&& self.pos() <= self.source().ncols()
        &&& self.pos() < self.source().ncols() ==> self.line() < self.source().nrows()
    }

    /// The element in column `j` of the row.
    pub fn index(&self, j: usize) -> (r: &'a T)
        requires
            self.source().wf(),
            self.source().valid(self.line() as int, j as int),
        ensures
            *r == self.source().at(self.line() as int, j as int),
    {
        self.matrix.get(self.row, j)
    }

    /// The next element of the row, or `None` once the row is used up.
    pub fn next(&mut self) -> (r: Option<&'a T>)
        requires
            old(self).wf(),
        ensures
            final(self).wf(),
            final(self).source() == old(self).source(),
            final(self).line() == old(self).line(),
            old(self).pos() < old(self).source().ncols() ==> {
                &&& r is Some
                &&& *r->0 == old(self).source().at(old(self).line() as int, old(self).pos() as int)
                &&& final(self).pos() == old(self).pos() + 1
            },
            old(self).pos() >= old(self).source().ncols() ==> {
                &&& r is None
                &&& final(self).pos() == old(self).pos()
            },
    {
        if self.col_index < self.matrix.cols() {
            let val = self.matrix.get(self.row, self.col_index);
            self.col_index = self.col_index + 1;
            Some(val)
        } else {
            None
        }
    }
}

/// `r` is a `1 × n` matrix of clones of the `n` elements of `row` not yet
/// walked, in order.
pub open spec fn is_row_copy<T: Clone>(r: Matrix<T>, row: Row<'_, T>) -> bool {
    &&& r.wf()
    &&& r.nrows() == 1
    &&& r.ncols() == row.source().ncols() - row.pos()
    &&& forall|k: int|
        0 <= k < r.ncols() ==> cloned(
            row.source().at(row.line() as int, row.pos() + k),
            #[trigger] r.at(0, k),
        )
}

/// Materializing a fresh walk along row `i` gives a `1 × cols` matrix whose
/// elements are the row's elements in order.
pub proof fn lemma_row_materialized<T: Clone>(m: Matrix<T>, i: int, row: Row<'_, T>, r: Matrix<T>)
    requires
        m.wf(),
        0 <= i < m.nrows(),
        row.source() == m,
        row.line() == i,
        row.pos() == 0,
        is_row_copy(r, row),
    ensures
        r.nrows() == 1,
        r.ncols() == m.ncols(),
        forall|k: int| 0 <= k < m.ncols() ==> cloned(m.at(i, k), #[trigger] r.at(0, k)),
        clone_is_exact::<T>() ==> forall|k: int| 0 <= k < m.ncols() ==> #[trigger] r.at(0, k) == m.at(i, k),
{
    assert forall|k: int| 0 <= k < m.ncols() implies cloned(m.at(i, k), #[trigger] r.at(0, k)) by {
        assert(row.pos() + k == k);
    }
}

impl<'a, T: Clone> Row<'a, T> {
    /// A `1 × n` matrix holding clones of the `n` elements of the row not
    /// yet walked, in order.
    pub fn into_matrix(self) -> (r: Matrix<T>)
        requires
            self.wf(),
        ensures
            is_row_copy(r, self),
    {
        let mut it = self;
        let mut data: Vec<T> = Vec::new();
        let ghost start = self.pos();
        while it.col_index < it.matrix.cols()
            invariant
                it.wf(),
                it.source() == self.source(),
                it.line() == self.line(),
                start <= it.pos(),
                data@.len() == it.pos() - start,
                forall|k: int|
                    0 <= k < data@.len() ==> cloned(
                        self.source().at(self.line() as int, start + k),
                        #[trigger] data@[k],
                    ),
            decreases it.source().ncols() - it.pos(),
        {
            let val = it.matrix.get(it.row, it.col_index);
            data.push(val.clone());
            it.col_index = it.col_index + 1;
        }
        let cols = data.len();
        Matrix { data, rows: 1, cols }
    }
}

impl<'a, T> Col<'a, T> {
    /// The matrix walked.
    pub closed spec fn source(&self) -> Matrix<T> {
        *self.matrix
    }

    /// The column walked.
    pub closed spec fn line(&self) -> nat {
        self.col as nat
    }

    /// The row of the next element.
    pub closed spec fn pos(&self) -> nat {
        self.row_index as nat
    }

    /// The matrix is well formed, the cursor within the column, and the
    /// column in bounds whenever an element is left to read.
    pub open spec fn wf(&self) -> bool {
        &&& self.source().wf()
        &&& self.pos() <= self.source().nrows()
        &&& self.pos() < self.source().nrows() ==> self.line() < self.source().ncols()
    }

    /// The element in row `i` of the column.
    pub fn index(&self, i: usize) -> (r: &'a T)
        requires
            self.source().wf(),
            self.source().valid(i as int, self.line() as int),
        ensures
            *r == self.source().at(i as int, self.line() as int),
    {
        self.matrix.get(i, self.col)
    }

    /// The next element of the column, or `None` once the column is used up.
    pub fn next(&mut self) -> (r: Option<&'a T>)
        requires
            old(self).wf(),
        ensures
            final(self).wf(),
            final(self).source() == old(self).source(),
            final(self).line() == old(self).line(),
            old(self).pos() < old(self).source().nrows() ==> {
                &&& r is Some
                &&& *r->0 == old(self).source().at(old(self).pos() as int, old(self).line() as int)
                &&& final(self).pos() == old(self).pos() + 1
            },
            old(self).pos() >= old(self).source().nrows() ==> {
                &&& r is None
                &&& final(self).pos() == old(self).pos()
            },
    {
        if self.row_index < self.matrix.rows() {
            let val = self.matrix.get(self.row_index, self.col);
            self.row_index = self.row_index + 1;
            Some(val)
        } else {
            None
        }
    }
}

impl<'a, T: Clone> Col<'a, T> {
    /// An `n × 1` matrix holding clones of the `n` elements of the column
    /// not yet walked, in order.
    pub fn into_matrix(self) -> (r: Matrix<T>)
        requires
            self.wf(),
        ensures
            r.wf(),
            r.nrows() == self.source().nrows() - self.pos(),
            r.ncols() == 1,
            forall|k: int|
                0 <= k < r.nrows() ==> cloned(
                    self.source().at(self.pos() + k, self.line() as int),
                    #[trigger] r.at(k, 0),
                ),
    {
        let mut it = self;
        let mut data: Vec<T> = Vec::new();
        let ghost start = self.pos();
        while it.row_index < it.matrix.rows()
            invariant
                it.wf(),
                it.source() == self.source(),
                it.line() == self.line(),
                start <= it.pos(),
                data@.len() == it.pos() - start,
                forall|k: int|
                    0 <= k < data@.len() ==> cloned(
                        self.source().at(start + k, self.line() as int),
                        #[trigger] data@[k],
                    ),
            decreases it.source().nrows() - it.pos(),
        {
            let val = it.matrix.get(it.row_index, it.col);
            data.push(val.clone());
            it.row_index = it.row_index + 1;
        }
        let rows = data.len();
        Matrix { data, rows, cols: 1 }
    }
}

impl<'a, T> Diag<'a, T> {
    /// The matrix walked.
    pub closed spec fn source(&self) -> Matrix<T> {
        *self.matrix
    }

    /// The row and column of the next element.
    pub closed spec fn pos(&self) -> nat {
        self.index as nat
    }

    /// The matrix is well formed and square, and the cursor on the diagonal.
    pub open spec fn wf(&self) -> bool {
        &&& self.source().wf()
        &&& self.source().nrows() == self.source().ncols()
        &&& self.pos() <= self.source().nrows()
    }

    /// The `k`th element of the diagonal.
    pub fn index(&self, k: usize) -> (r: &'a T)
        requires
            self.source().wf(),
            self.source().valid(k as int, k as int),
        ensures
            *r == self.source().at(k as int, k as int),
    {
        self.matrix.get(k, k)
    }

    /// The next element of the diagonal, or `None` once it is used up.
    pub fn next(&mut self) -> (r: Option<&'a T>)
        requires
            old(self).wf(),
        ensures
            final(self).wf(),
            final(self).source() == old(self).source(),
            old(self).pos() < old(self).source().nrows() ==> {
                &&& r is Some
                &&& *r->0 == old(self).source().at(old(self).pos() as int, old(self).pos() as int)
                &&& final(self).pos() == old(self).pos() + 1
            },
            old(self).pos() >= old(self).source().nrows() ==> {
                &&& r is None
                &&& final(self).pos() == old(self).pos()
            },
    {
        if self.index < self.matrix.rows() {
            let val = self.matrix.get(self.index, self.index);
            self.index = self.index + 1;
            Some(val)
        } else {
            None
        }
    }
}

/// `r` is an `n × n` matrix, `n` the number of elements of `diag` not yet
/// walked, whose diagonal holds clones of them in order and whose other
/// elements are default values.
pub open spec fn is_diag_copy<T: Clone + Default>(r: Matrix<T>, diag: Diag<'_, T>) -> bool {
    &&& r.wf()
    &&& r.nrows() == diag.source().nrows() - diag.pos()
    &&& r.ncols() == r.nrows()
    &&& forall|i: int, j: int|
        #![trigger r.at(i, j)]
        r.valid(i, j) ==> if i == j {
            cloned(diag.source().at(diag.pos() + i, diag.pos() + i), r.at(i, j))
        } else {
            is_default(r.at(i, j))
        }
}

/// Materializing a fresh diagonal walk of an `n × n` matrix gives an
/// `n × n` matrix holding the diagonal in place and default values
/// everywhere else.
pub proof fn lemma_diag_materialized<T: Clone + Default>(m: Matrix<T>, diag: Diag<'_, T>, r: Matrix<T>)
    requires
        m.wf(),
        m.nrows() == m.ncols(),
        diag.source() == m,
        diag.pos() == 0,
        is_diag_copy(r, diag),
    ensures
        r.nrows() == m.nrows(),
        r.ncols() == m.ncols(),
        forall|i: int, j: int| m.valid(i, j) && i != j ==> is_default(#[trigger] r.at(i, j)),
        forall|i: int| 0 <= i < m.nrows() ==> cloned(m.at(i, i), #[trigger] r.at(i, i)),
        clone_is_exact::<T>() ==> forall|i: int| 0 <= i < m.nrows() ==> #[trigger] r.at(i, i) == m.at(i, i),
{
    assert forall|i: int| 0 <= i < m.nrows() implies cloned(m.at(i, i), #[trigger] r.at(i, i)) by {
        assert(r.valid(i, i));
        assert(diag.pos() + i == i);
    }
    assert forall|i: int, j: int| m.valid(i, j) && i != j implies is_default(#[trigger] r.at(i, j)) by {
        assert(r.valid(i, j));
    }
}

impl<'a, T: Clone + Default> Diag<'a, T> {
    /// An `n × n` matrix, `n` the number of diagonal elements not yet
    /// walked, whose diagonal holds clones of them in order and whose other
    /// elements are all `T::default()`.
    pub fn into_matrix(self) -> (r: Matrix<T>)
        requires
            self.wf(),
        ensures
            is_diag_copy(r, self),
    {
        let n = self.matrix.rows() - self.index;
        proof {
            let rows = self.source().nrows() as int;
            assert(n * n <= rows * rows) by (nonlinear_arith)
                requires 0 <= n <= rows;
        }
        let mut matrix = Matrix::<T>::new(n, n);
        let mut it = self;
        let mut k: usize = 0;
        while it.index < it.matrix.rows()
            invariant
                it.wf(),
                it.source() == self.source(),
                it.pos() == self.pos() + k,
                matrix.wf(),
                matrix.nrows() == n,
                matrix.ncols() == n,
                n == self.source().nrows() - self.pos(),
                forall|i: int, j: int|
                    #![trigger matrix.at(i, j)]
                    matrix.valid(i, j) ==> if i == j && i < k {
                        cloned(self.source().at(self.pos() + i, self.pos() + i), matrix.at(i, j))
                    } else {
                        is_default(matrix.at(i, j))
                    },
            decreases it.source().nrows() - it.pos(),
        {
            let val = it.matrix.get(it.index, it.index).clone();
            let ghost before = matrix;
            matrix.set(k, k, val);
            proof {
                assert forall|i: int, j: int|
                    #![trigger matrix.at(i, j)]
                    matrix.valid(i, j) implies if i == j && i < k + 1 {
                        cloned(self.source().at(self.pos() + i, self.pos() + i), matrix.at(i, j))
                    } else {
                        is_default(matrix.at(i, j))
                    } by {
                    lemma_offset_in_bounds(n as int, n as int, i, j);
                    lemma_offset_in_bounds(n as int, n as int, k as int, k as int);
                    if i != k || j != k {
                        assert(before.at(i, j) == matrix.at(i, j));
                    }
                }
            }
            it.index = it.index + 1;
            k = k + 1;
        }
        matrix
    }
}

impl<'a, T> MatrixIterator<'a, T> {
    /// The matrix walked.
    pub closed spec fn source(&self) -> Matrix<T> {
        *self.matrix
    }

    /// How many elements have been walked.
    pub closed spec fn pos(&self) -> nat {
        self.index as nat
    }

    /// The matrix is well formed and the cursor within it.
    pub open spec fn wf(&self) -> bool {
        &&& self.source().wf()
        &&& self.pos() <= self.source().nrows() * self.source().ncols()
    }

    /// The next element in row-major order: the `k`th step returns the
    /// element at row `k / cols`, column `k % cols`. `None` once all
    /// `rows * cols` elements have been walked.
    pub fn next(&mut self) -> (r: Option<&'a T>)
        requires
            old(self).wf(),
        ensures
            final(self).wf(),
            final(self).source() == old(self).source(),
            old(self).pos() < old(self).source().nrows() * old(self).source().ncols() ==> {
                let c = old(self).source().ncols() as int;
                let k = old(self).pos() as int;
                &&& r is Some
                &&& old(self).source().valid(k / c, k % c)
                &&& *r->0 == old(self).source().at(k / c, k % c)
                &&& *r->0 == old(self).source().cells()[k]
                &&& final(self).pos() == old(self).pos() + 1
            },
            old(self).pos() >= old(self).source().nrows() * old(self).source().ncols() ==> {
                &&& r is None
                &&& final(self).pos() == old(self).pos()
            },
    {
        if self.index < self.matrix.data.len() {
            let val = &self.matrix.data[self.index];
            proof {
                lemma_row_major(self.matrix.rows as int, self.matrix.cols as int, self.index as int);
            }
            self.index = self.index + 1;
            Some(val)
        } else {
            None
        }
    }
}

/// Offset `k` of a `rows × cols` buffer holds the element at row
/// `k / cols`, column `k % cols`.
pub proof fn lemma_row_major(rows: int, cols: int, k: int)
    requires
        0 <= rows,
        0 <= cols,
        0 <= k < rows * cols,
    ensures
        0 <= k / cols < rows,
        0 <= k % cols < cols,
        offset(cols, k / cols, k % cols) == k,
{
    if cols == 0 {
        assert(rows * cols == 0) by (nonlinear_arith)
            requires cols == 0;
    }
    vstd::arithmetic::div_mod::lemma_fundamental_div_mod(k, cols);
    vstd::arithmetic::div_mod::lemma_div_pos_is_pos(k, cols);
    vstd::arithmetic::div_mod::lemma_mod_bound(k, cols);
    let q = k / cols;
    let m = k % cols;
    assert(q < rows) by (nonlinear_arith)
        requires k == cols * q + m, 0 <= m, k < rows * cols, cols > 0;
    assert(q * cols == cols * q) by (nonlinear_arith);
}

/// A full walk over a `rows × cols` matrix takes `rows * cols` steps in
/// row-major order: step `k` yields the element at row `k / cols`, column
/// `k % cols`; every element is yielded at exactly one step, `(i, j)` at step
/// `i * cols + j`; and a later step never goes back to an earlier row, nor
/// to an earlier column of the same row.
pub proof fn lemma_iteration_order<T>(m: Matrix<T>)
    requires
        m.wf(),
    ensures
        forall|k: int|
            0 <= k < m.nrows() * m.ncols() ==> #[trigger] m.valid(
                k / m.ncols() as int,
                k % m.ncols() as int,
            ),
        forall|k: int|
            0 <= k < m.nrows() * m.ncols() ==> #[trigger] m.cells()[k] == m.at(
                k / m.ncols() as int,
                k % m.ncols() as int,
            ),
        forall|i: int, j: int|
            m.valid(i, j) ==> {
                let k = #[trigger] offset(m.ncols() as int, i, j);
                &&& 0 <= k < m.nrows() * m.ncols()
                &&& k / (m.ncols() as int) == i
                &&& k % (m.ncols() as int) == j
            },
        forall|k1: int, k2: int|
            #![trigger k1 / (m.ncols() as int), k2 / (m.ncols() as int)]
            0 <= k1 < k2 < m.nrows() * m.ncols() ==> {
                let c = m.ncols() as int;
                ||| k1 / c < k2 / c
                ||| k1 / c == k2 / c && k1 % c < k2 % c
            },
{
    let r = m.nrows() as int;
    let c = m.ncols() as int;
    assert forall|k: int| 0 <= k < m.nrows() * m.ncols() implies #[trigger] m.valid(
        k / m.ncols() as int,
        k % m.ncols() as int,
    ) by {
        lemma_row_major(r, c, k);
    }
    assert forall|k: int| 0 <= k < m.nrows() * m.ncols() implies #[trigger] m.cells()[k] == m.at(
        k / m.ncols() as int,
        k % m.ncols() as int,
    ) by {
        lemma_row_major(r, c, k);
    }
    assert forall|i: int, j: int| m.valid(i, j) implies {
        let k = #[trigger] offset(c, i, j);
        &&& 0 <= k < r * c
        &&& k / c == i
        &&& k % c == j
    } by {
        lemma_offset_in_bounds(r, c, i, j);
    }
    assert forall|k1: int, k2: int|
        #![trigger k1 / c, k2 / c]
        0 <= k1 < k2 < r * c implies k1 / c < k2 / c || (k1 / c == k2 / c && k1 % c < k2 % c) by {
        lemma_row_major(r, c, k1);
        lemma_row_major(r, c, k2);
        vstd::arithmetic::div_mod::lemma_div_is_ordered(k1, k2, c);
        if k1 / c == k2 / c {
            assert(k1 % c < k2 % c);
        }
    }
}

} // verus!
