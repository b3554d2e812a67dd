use vstd::prelude::*;

verus! {

/// A matrix of `rows × cols` elements of type `T`, stored in row-major
/// order: the element at `(i, j)` lives at offset `i * cols + j`.
pub struct Matrix<T> {
    pub(crate) data: Vec<T>,
    pub(crate) rows: usize,
    pub(crate) cols: usize,
}

/// Offset of `(i, j)` in a row-major buffer with `cols` columns.
pub open spec fn offset(cols: int, i: int, j: int) -> int {
    i * cols + j
}

/// Every in-bounds index lands inside the buffer, and distinct indices land
/// on distinct offsets.
pub proof fn lemma_offset_in_bounds(rows: int, cols: int, i: int, j: int)
    requires
        0 <= i < rows,
        0 <= j < cols,
    ensures
        0 <= offset(cols, i, j) < rows * cols,
        offset(cols, i, j) / cols == i,
        offset(cols, i, j) % cols == j,
{
    assert(0 <= i * cols + j < rows * cols) by (nonlinear_arith)
        requires 0 <= i < rows, 0 <= j < cols;
    vstd::arithmetic::div_mod::lemma_fundamental_div_mod_converse(
        i * cols + j, cols, i, j);
}

impl<T> Matrix<T> {
    /// Number of rows.
    pub open(crate) spec fn nrows(&self) -> nat {
        self.rows as nat
    }

    /// Number of columns.
    pub open(crate) spec fn ncols(&self) -> nat {
        self.cols as nat
    }

    /// The elements in row-major order.
    pub open(crate) spec fn cells(&self) -> Seq<T> {
        self.data@
    }

    /// The buffer holds exactly `rows * cols` elements, and that count fits
    /// in a `usize`.
    pub open spec fn wf(&self) -> bool {
        &&& self.cells().len() == self.nrows() * self.ncols()
        &&& self.nrows() * self.ncols() <= usize::MAX
    }

    /// The element at row `i`, column `j`.
    pub open spec fn at(&self, i: int, j: int) -> T {
        self.cells()[offset(self.ncols() as int, i, j)]
    }

    /// Both indices are in bounds.
    pub open spec fn valid(&self, i: int, j: int) -> bool {
        0 <= i < self.nrows() && 0 <= j < self.ncols()
    }

    /// Produces the number of rows in the matrix.
    pub fn rows(&self) -> (r: usize)
        ensures
            r == self.nrows(),
    {
        self.rows
    }

    /// Produces the number of columns in the matrix.
    pub fn cols(&self) -> (r: usize)
        ensures
            r == self.ncols(),
    {
        self.cols
    }

    /// Produces `(rows, cols)`.
    pub fn size(&self) -> (r: (usize, usize))
        ensures
            r.0 == self.nrows(),
            r.1 == self.ncols(),
    {
        (self.rows(), self.cols())
    }

    /// Offset of `(i, j)` in the buffer.
    fn index(&self, i: usize, j: usize) -> (r: usize)
        requires
            self.wf(),
            self.valid(i as int, j as int),
        ensures
            r == offset(self.ncols() as int, i as int, j as int),
            r < self.cells().len(),
    {
        proof {
            lemma_offset_in_bounds(self.rows as int, self.cols as int, i as int, j as int);
        }
        i * self.cols + j
    }

    /// Produces a reference to the element at row `i`, column `j`.
    pub fn get(&self, i: usize, j: usize) -> (r: &T)
        requires
            self.wf(),
            self.valid(i as int, j as int),
        ensures
            *r == self.at(i as int, j as int),
    {
        let index = self.index(i, j);
        &self.data[index]
    }

    /// Overwrites the element at row `i`, column `j` with `val`; no other
    /// element changes.
    pub fn set(&mut self, i: usize, j: usize, val: T)
        requires
            old(self).wf(),
            old(self).valid(i as int, j as int),
        ensures
            final(self).wf(),
            final(self).nrows() == old(self).nrows(),
            final(self).ncols() == old(self).ncols(),
            final(self).cells() == old(self).cells().update(
                offset(old(self).ncols() as int, i as int, j as int),
                val,
            ),
            final(self).at(i as int, j as int) == val,
            forall|a: int, b: int|
                old(self).valid(a, b) && (a != i || b != j) ==> #[trigger] final(self).at(a, b)
                    == old(self).at(a, b),
    {
        let index = self.index(i, j);
        self.data.set(index, val);
        proof {
            assert forall|a: int, b: int|
                old(self).valid(a, b) && (a != i || b != j) implies #[trigger] self.at(a, b)
                    == old(self).at(a, b) by {
                lemma_offset_in_bounds(self.rows as int, self.cols as int, a, b);
                lemma_offset_in_bounds(self.rows as int, self.cols as int, i as int, j as int);
            }
        }
    }
}

/// `v` is a value that `T::default()` may return.
pub open spec fn is_default<T: Default>(v: T) -> bool {
    call_ensures(T::default, (), v)
}

/// `t` is a transpose of `m`: its shape is `m`'s reversed, and its element
/// at `(j, i)` is a clone of `m`'s element at `(i, j)`.
pub open spec fn is_transpose<T: Clone>(t: Matrix<T>, m: Matrix<T>) -> bool {
    &&& t.wf()
    &&& t.nrows() == m.ncols()
    &&& t.ncols() == m.nrows()
    &&& forall|i: int, j: int| m.valid(i, j) ==> cloned(m.at(i, j), #[trigger] t.at(j, i))
}

/// Cloning a `T` gives back an equal value.
pub open spec fn clone_is_exact<T: Clone>() -> bool {
    forall|a: T, b: T| #[trigger] cloned(a, b) ==> a == b
}

/// Transposing twice gives back the original matrix, element for element,
/// for element types whose clones equal the original.
pub proof fn lemma_transpose_twice<T: Clone>(m: Matrix<T>, t: Matrix<T>, tt: Matrix<T>)
    requires
        m.wf(),
        is_transpose(t, m),
        is_transpose(tt, t),
        clone_is_exact::<T>(),
    ensures
        tt.nrows() == m.nrows(),
        tt.ncols() == m.ncols(),
        forall|i: int, j: int| m.valid(i, j) ==> #[trigger] tt.at(i, j) == m.at(i, j),
        tt.cells() == m.cells(),
{
    assert forall|i: int, j: int| m.valid(i, j) implies #[trigger] tt.at(i, j) == m.at(i, j) by {
        assert(t.valid(j, i));
        assert(cloned(m.at(i, j), t.at(j, i)));
        assert(cloned(t.at(j, i), tt.at(i, j)));
    }
    assert forall|k: int| 0 <= k < m.cells().len() implies tt.cells()[k] == m.cells()[k] by {
        let c = m.ncols() as int;
        crate::views::lemma_row_major(m.nrows() as int, c, k);
        assert(tt.at(k / c, k % c) == m.at(k / c, k % c));
    }
    assert(tt.cells() =~= m.cells());
}

impl<T: Clone> Matrix<T> {
    /// Produces the transpose: a `cols × rows` matrix whose element at
    /// `(j, i)` is a clone of this matrix's element at `(i, j)`.
    pub fn transpose(&self) -> (r: Self)
        requires
            self.wf(),
        ensures
            is_transpose(r, *self),
    {
        let (rows, cols) = self.size();
        proof {
            vstd::arithmetic::mul::lemma_mul_is_commutative(rows as int, cols as int);
        }
        let mut data: Vec<T> = Vec::with_capacity(rows * cols);
        let mut j: usize = 0;
        while j < cols
            invariant
                self.wf(),
                rows == self.nrows(),
                cols == self.ncols(),
                j <= cols,
                data@.len() == j * rows,
                forall|jj: int, ii: int|
                    0 <= jj < j && 0 <= ii < rows ==> cloned(
                        self.at(ii, jj),
                        #[trigger] data@[offset(rows as int, jj, ii)],
                    ),
            decreases cols - j,
        {
            let mut i: usize = 0;
            while i < rows
                invariant
                    self.wf(),
                    rows == self.nrows(),
                    cols == self.ncols(),
                    j < cols,
                    i <= rows,
                    data@.len() == j * rows + i,
                    forall|jj: int, ii: int|
                        (0 <= jj < j && 0 <= ii < rows) || (jj == j && 0 <= ii < i) ==> cloned(
                            self.at(ii, jj),
                            #[trigger] data@[offset(rows as int, jj, ii)],
                        ),
                decreases rows - i,
            {
                proof {
                    lemma_offset_in_bounds(cols as int, rows as int, j as int, i as int);
                    assert(j * rows + i == offset(rows as int, j as int, i as int));
                }
                let el = self.get(i, j).clone();
                data.push(el);
                proof {
                    assert forall|jj: int, ii: int|
                        (0 <= jj < j && 0 <= ii < rows) || (jj == j && 0 <= ii <= i) implies cloned(
                            self.at(ii, jj),
                            #[trigger] data@[offset(rows as int, jj, ii)],
                        ) by {
                        lemma_offset_in_bounds(cols as int, rows as int, jj, ii);
                        if jj < j {
                            assert(offset(rows as int, jj, ii) < j * rows) by (nonlinear_arith)
                                requires jj < j, 0 <= ii < rows, offset(rows as int, jj, ii) == jj * rows + ii;
                        } else if ii < i {
                        }
                    }
                }
                i = i + 1;
            }
            proof {
                assert((j + 1) * rows == j * rows + rows) by (nonlinear_arith);
            }
            j = j + 1;
        }
        Matrix { data, rows: cols, cols: rows }
    }
}

/// The number of columns of a matrix built from `rows`: the length of the
/// longest row, or `0` when there are none.
pub open spec fn max_len<T>(rows: Seq<Vec<T>>) -> nat
    decreases rows.len(),
{
    if rows.len() == 0 {
        0
    } else {
        let rest = max_len(rows.drop_last());
        let last = rows.last()@.len();
        if last > rest {
            last
        } else {
            rest
        }
    }
}

/// No row is longer than `max_len`.
pub proof fn lemma_max_len<T>(rows: Seq<Vec<T>>)
    ensures
        forall|i: int| 0 <= i < rows.len() ==> #[trigger] rows[i]@.len() <= max_len(rows),
        rows.len() == 0 ==> max_len(rows) == 0,
    decreases rows.len(),
{
    if rows.len() > 0 {
        lemma_max_len(rows.drop_last());
        assert forall|i: int| 0 <= i < rows.len() implies #[trigger] rows[i]@.len() <= max_len(rows) by {
            if i < rows.len() - 1 {
                assert(rows[i] == rows.drop_last()[i]);
            }
        }
    }
}

impl<T: Clone + Default> Matrix<T> {
    /// Creates a `rows × cols` matrix with every element set to
    /// `T::default()`.
    pub fn new(rows: usize, cols: usize) -> (r: Self)
        requires
            rows * cols <= usize::MAX,
        ensures
            r.wf(),
            r.nrows() == rows,
            r.ncols() == cols,
            forall|i: int, j: int| r.valid(i, j) ==> is_default(#[trigger] r.at(i, j)),
    {
        let n = rows * cols;
        let mut data: Vec<T> = Vec::with_capacity(n);
        let mut k: usize = 0;
        while k < n
            invariant
                k <= n,
                data@.len() == k,
                forall|m: int| 0 <= m < k ==> is_default(#[trigger] data@[m]),
            decreases n - k,
        {
            data.push(T::default());
            k = k + 1;
        }
        proof {
            assert forall|i: int, j: int| 0 <= i < rows && 0 <= j < cols implies is_default(
                #[trigger] data@[offset(cols as int, i, j)],
            ) by {
                lemma_offset_in_bounds(rows as int, cols as int, i, j);
            }
        }
        Matrix { data, rows, cols }
    }

    /// Builds a matrix from a sequence of rows of possibly unequal length.
    /// It has one row per input row and as many columns as the longest
    /// one; each row is copied in order and padded with `T::default()`.
    pub fn from(vec: Vec<Vec<T>>) -> (r: Self)
        requires
            vec@.len() * max_len(vec@) <= usize::MAX,
        ensures
            r.wf(),
            r.nrows() == vec@.len(),
            r.ncols() == max_len(vec@),
            forall|i: int, j: int|
                #![trigger r.at(i, j)]
                r.valid(i, j) ==> if j < vec@[i]@.len() {
                    cloned(vec@[i]@[j], r.at(i, j))
                } else {
                    is_default(r.at(i, j))
                },
    {
        let rows = vec.len();
        let mut cols: usize = 0;
        let mut k: usize = 0;
        while k < rows
            invariant
                k <= rows,
                rows == vec@.len(),
                cols == max_len(vec@.take(k as int)),
            decreases rows - k,
        {
            assert(vec@.take(k + 1).drop_last() == vec@.take(k as int));
            if vec[k].len() > cols {
                cols = vec[k].len();
            }
            k = k + 1;
        }
        assert(vec@.take(rows as int) == vec@);
        proof {
            lemma_max_len(vec@);
        }
        let mut data: Vec<T> = Vec::with_capacity(rows * cols);
        let mut i: usize = 0;
        while i < rows
            invariant
                i <= rows,
                rows == vec@.len(),
                cols == max_len(vec@),
                rows * cols <= usize::MAX,
                forall|ii: int| 0 <= ii < rows ==> #[trigger] vec@[ii]@.len() <= cols,
                data@.len() == i * cols,
                forall|ii: int, jj: int|
                    #![trigger data@[offset(cols as int, ii, jj)]]
                    0 <= ii < i && 0 <= jj < cols ==> if jj < vec@[ii]@.len() {
                        cloned(vec@[ii]@[jj], data@[offset(cols as int, ii, jj)])
                    } else {
                        is_default(data@[offset(cols as int, ii, jj)])
                    },
            decreases rows - i,
        {
            let row = &vec[i];
            let len = row.len();
            proof {
                assert((i + 1) * cols == i * cols + cols) by (nonlinear_arith);
                assert((i + 1) * cols <= rows * cols) by (nonlinear_arith)
                    requires i < rows, cols >= 0;
            }
            let mut j: usize = 0;
            while j < cols
                invariant
                    i < rows,
                    j <= cols,
                    len == row@.len(),
                    len <= cols,
                    row == vec@[i as int],
                    data@.len() == i * cols + j,
                    (i + 1) * cols <= usize::MAX,
                    (i + 1) * cols == i * cols + cols,
                    forall|ii: int, jj: int|
                        #![trigger data@[offset(cols as int, ii, jj)]]
                        (0 <= ii < i && 0 <= jj < cols) || (ii == i && 0 <= jj < j) ==> if jj
                            < vec@[ii]@.len() {
                            cloned(vec@[ii]@[jj], data@[offset(cols as int, ii, jj)])
                        } else {
                            is_default(data@[offset(cols as int, ii, jj)])
                        },
                decreases cols - j,
            {
                let el = if j < len {
                    row[j].clone()
                } else {
                    T::default()
                };
                let ghost before = data@;
                let ghost pushed = el;
                data.push(el);
                proof {
                    lemma_prefix_kept(before, data@, pushed, cols as int, i as int, j as int);
                }
                j = j + 1;
            }
            i = i + 1;
        }
        Matrix { data, rows, cols }
    }
}

/// Pushing one element after the cells `(0, 0)` to `(i, j - 1)` keeps them
/// in place and puts the new one at `(i, j)`.
proof fn lemma_prefix_kept<T>(before: Seq<T>, after: Seq<T>, x: T, cols: int, i: int, j: int)
    requires
        0 <= i,
        0 <= j < cols,
        before.len() == i * cols + j,
        after == before.push(x),
    ensures
        forall|ii: int, jj: int|
            (0 <= ii < i && 0 <= jj < cols) || (ii == i && 0 <= jj < j) ==> #[trigger] after[offset(cols, ii, jj)]
                == before[offset(cols, ii, jj)],
        after[offset(cols, i, j)] == x,
{
    assert forall|ii: int, jj: int|
        (0 <= ii < i && 0 <= jj < cols) || (ii == i && 0 <= jj < j) implies #[trigger] after[offset(cols, ii, jj)]
            == before[offset(cols, ii, jj)] by {
        if ii < i {
            assert(offset(cols, ii, jj) < i * cols) by (nonlinear_arith)
                requires ii < i, 0 <= jj < cols, offset(cols, ii, jj) == ii * cols + jj;
            assert(0 <= offset(cols, ii, jj)) by (nonlinear_arith)
                requires 0 <= ii, 0 <= jj, jj < cols, offset(cols, ii, jj) == ii * cols + jj;
        }
    }
}

} // verus!
