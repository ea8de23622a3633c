//! The dense, row-major `Matrix<T>` every routine of the crate works on.

use vstd::prelude::*;

use crate::scalar::Scalar;

verus! {

/// A dense matrix holding `rows * columns` scalars in one flat, row-major
/// buffer. The buffer is exclusively owned: extracting a row or a column
/// always copies.
#[derive(Debug, PartialEq)]
pub struct Matrix<T> {
    /// The row-major element buffer; entry `(i, j)` sits at `i * columns + j`.
    pub content: Vec<T>,
    /// Number of rows.
    pub rows: usize,
    /// Number of columns.
    pub columns: usize,
}


/// Two grid positions with the same flat index are the same position.
pub proof fn lemma_grid_index_injective(cols: int, i: int, j: int, a: int, b: int)
    requires
        0 <= j < cols,
        0 <= b < cols,
        0 <= i,
        0 <= a,
        i * cols + j == a * cols + b,
    ensures
        i == a,
        j == b,
{
    assert(i == a && j == b) by (nonlinear_arith)
        requires
            0 <= j < cols,
            0 <= b < cols,
            0 <= i,
            0 <= a,
            i * cols + j == a * cols + b,
    ;
}

/// A position inside one of the first `i` rows of a row-major buffer with
/// width `w` lies strictly below offset `i * w`.
pub proof fn lemma_row_major_below(k: int, l: int, i: int, w: int)
    requires
        0 <= k < i,
        0 <= l < w,
    ensures
        0 <= k * w + l,
        k * w + l < i * w,
{
    assert(0 <= k * w + l && k * w + l < i * w) by (nonlinear_arith)
        requires
            0 <= k < i,
            0 <= l < w,
    ;
}

impl<T> Matrix<T> {
    /// The structural invariant: the buffer holds exactly one scalar per
    /// position of the `rows x columns` grid.
    pub open spec fn wf(self) -> bool {
        self.content@.len() == self.rows * self.columns
    }

    /// Entry `(i, j)` of the grid.
    pub open spec fn ent(self, i: int, j: int) -> T {
        self.content@[i * self.columns + j]
    }

    /// Row `i` as a sequence.
    pub open spec fn row_model(self, i: int) -> Seq<T> {
        self.content@.subrange(i * self.columns, (i + 1) * self.columns)
    }

    /// Column `j` as a sequence.
    pub open spec fn col_model(self, j: int) -> Seq<T> {
        Seq::new(self.rows as nat, |i: int| self.ent(i, j))
    }

    /// The grid as a sequence of row sequences.
    pub open spec fn rows_model(self) -> Seq<Seq<T>> {
        Seq::new(self.rows as nat, |i: int| self.row_model(i))
    }

    /// What appending `v` as a new last row does to a matrix that already
    /// has rows.
    pub open spec fn row_appended(self, v: Seq<T>, new_m: Matrix<T>) -> bool {
        &&& new_m.rows == self.rows + 1
        &&& new_m.columns == self.columns
        &&& new_m.content@ == self.content@ + v
    }

    /// What appending `v` as a new last column does to a matrix that already
    /// has rows.
    pub open spec fn col_appended(self, v: Seq<T>, new_m: Matrix<T>) -> bool {
        &&& new_m.rows == self.rows
        &&& new_m.columns == self.columns + 1
        &&& forall|i: int, j: int|
            0 <= i < self.rows && 0 <= j < self.columns ==> #[trigger] new_m.ent(i, j) == self.ent(
                i,
                j,
            )
        &&& forall|i: int| 0 <= i < self.rows ==> #[trigger] new_m.ent(i, self.columns as int) == v[i]
    }

    /// What removing row `index` does to a matrix, and which row comes out.
    pub open spec fn row_removed(self, index: int, new_m: Matrix<T>, out: Seq<T>) -> bool {
        &&& new_m.rows == self.rows - 1
        &&& new_m.columns == self.columns
        &&& new_m.content@ == self.content@.subrange(0, index * self.columns)
            + self.content@.subrange((index + 1) * self.columns, self.content@.len() as int)
        &&& out == self.row_model(index)
    }

    /// What removing column `index` does to a matrix, and which column comes
    /// out.
    pub open spec fn col_removed(self, index: int, new_m: Matrix<T>, out: Seq<T>) -> bool {
        &&& new_m.rows == self.rows
        &&& new_m.columns == self.columns - 1
        &&& forall|i: int, j: int|
            0 <= i < self.rows && 0 <= j < index ==> #[trigger] new_m.ent(i, j) == self.ent(i, j)
        &&& forall|i: int, j: int|
            0 <= i < self.rows && index <= j < self.columns - 1 ==> #[trigger] new_m.ent(i, j)
                == self.ent(i, j + 1)
        &&& out == self.col_model(index)
    }

    /// Two matrices with equal buffers and equal shapes present the same
    /// grid of rows.
    pub proof fn lemma_rows_model_congruence(self, other: Matrix<T>)
        requires
            self.content@ == other.content@,
            self.rows == other.rows,
            self.columns == other.columns,
        ensures
            self.rows_model() == other.rows_model(),
    {
        assert forall|i: int| 0 <= i < self.rows implies self.rows_model()[i]
            == other.rows_model()[i] by {
            assert(self.row_model(i) =~= other.row_model(i));
        }
        assert(self.rows_model() =~= other.rows_model());
    }

    /// Two well-formed matrices of the same shape with equal entries have
    /// equal buffers.
    pub proof fn lemma_ent_ext(self, other: Matrix<T>)
        requires
            self.wf(),
            other.wf(),
            self.rows == other.rows,
            self.columns == other.columns,
            forall|i: int, j: int|
                0 <= i < self.rows && 0 <= j < self.columns ==> #[trigger] self.ent(i, j)
                    == other.ent(i, j),
        ensures
            self.content@ == other.content@,
    {
        assert forall|k: int| 0 <= k < self.content@.len() implies self.content@[k]
            == other.content@[k] by {
            let c = self.columns as int;
            let i = k / c;
            let j = k % c;
            assert(c > 0) by (nonlinear_arith)
                requires
                    0 <= k < self.rows * c,
                    0 <= c,
            ;
            vstd::arithmetic::div_mod::lemma_fundamental_div_mod(k, c);
            vstd::arithmetic::div_mod::lemma_mod_bound(k, c);
            vstd::arithmetic::div_mod::lemma_div_pos_is_pos(k, c);
            assert(i < self.rows) by (nonlinear_arith)
                requires
                    0 <= k < self.rows * c,
                    k == c * i + j,
                    0 <= j < c,
                    0 <= i,
            ;
            assert(k == i * c + j);
            assert(self.ent(i, j) == other.ent(i, j));
        }
        assert(self.content@ =~= other.content@);
    }

    /// Law: appending a vector as a new last row and then removing that row
    /// restores the original buffer, row count and column count, and hands
    /// the appended vector back.
    pub proof fn lemma_append_remove_row(
        self,
        v: Seq<T>,
        m1: Matrix<T>,
        m2: Matrix<T>,
        out: Seq<T>,
    )
        requires
            self.wf(),
            self.rows > 0,
            v.len() == self.columns,
            self.row_appended(v, m1),
            m1.row_removed(self.rows as int, m2, out),
        ensures
            m2.content@ == self.content@,
            m2.rows == self.rows,
            m2.columns == self.columns,
            out == v,
    {
        let r = self.rows as int;
        let c = self.columns as int;
        assert((r + 1) * c == r * c + c) by (nonlinear_arith);
        assert(m1.content@.subrange(0, r * c) =~= self.content@);
        assert(m1.content@.subrange((r + 1) * c, m1.content@.len() as int) =~= Seq::<T>::empty());
        assert(m2.content@ =~= self.content@);
        assert(m1.row_model(r) =~= v);
    }

    /// Law: appending a vector as a new last column and then removing that
    /// column restores the original buffer, row count and column count, and
    /// hands the appended vector back.
    pub proof fn lemma_append_remove_col(
        self,
        v: Seq<T>,
        m1: Matrix<T>,
        m2: Matrix<T>,
        out: Seq<T>,
    )
        requires
            self.wf(),
            m1.wf(),
            m2.wf(),
            self.rows > 0,
            v.len() == self.rows,
            self.col_appended(v, m1),
            m1.col_removed(self.columns as int, m2, out),
        ensures
            m2.content@ == self.content@,
            m2.rows == self.rows,
            m2.columns == self.columns,
            out == v,
    {
        assert forall|i: int, j: int|
            0 <= i < self.rows && 0 <= j < self.columns implies #[trigger] m2.ent(i, j)
            == self.ent(i, j) by {
            assert(m2.ent(i, j) == m1.ent(i, j));
        }
        m2.lemma_ent_ext(self);
        assert(m1.col_model(self.columns as int) =~= v);
    }

    /// Row `i` of the buffer is the slice `[i * columns, (i + 1) * columns)`;
    /// reading it entry by entry agrees with `ent`.
    pub proof fn lemma_row_model_ent(self, i: int)
        requires
            self.wf(),
            0 <= i < self.rows,
        ensures
            0 <= i * self.columns,
            i * self.columns + self.columns <= self.content@.len(),
            (i + 1) * self.columns == i * self.columns + self.columns,
            self.row_model(i).len() == self.columns,
            forall|j: int|
                0 <= j < self.columns ==> #[trigger] self.row_model(i)[j] == self.ent(i, j),
    {
        assert(0 <= i * self.columns && (i + 1) * self.columns <= self.content@.len() && (i + 1)
            * self.columns == i * self.columns + self.columns) by (nonlinear_arith)
            requires
                0 <= i < self.rows,
                self.content@.len() == self.rows * self.columns,
        ;
    }
}

/// The left fold of the first `k` entries of column `c`, starting from zero.
pub open spec fn col_sum_model<T: Scalar>(m: Matrix<T>, c: int, k: int) -> T
    decreases k,
{
    if k <= 0 {
        T::model_zero()
    } else {
        col_sum_model(m, c, k - 1).model_add(m.ent(k - 1, c))
    }
}

/// The left fold of the first `k` entries of row `i`, starting from zero.
pub open spec fn row_sum_model<T: Scalar>(m: Matrix<T>, i: int, k: int) -> T
    decreases k,
{
    if k <= 0 {
        T::model_zero()
    } else {
        row_sum_model(m, i, k - 1).model_add(m.ent(i, k - 1))
    }
}

impl<T: Scalar> Matrix<T> {
    /// The matrix with no rows and no columns.
    pub fn empty() -> (r: Matrix<T>)
        ensures
            r.wf(),
            r.rows == 0,
            r.columns == 0,
            r.content@.len() == 0,
    {
        Matrix { content: Vec::new(), rows: 0, columns: 0 }
    }

    /// Wraps an already flat, row-major buffer of the stated shape.
    pub fn from_1d_vector(content: Vec<T>, rows: usize, columns: usize) -> (r: Matrix<T>)
        requires
            content@.len() == rows * columns,
        ensures
            r.wf(),
            r.content == content,
            r.rows == rows,
            r.columns == columns,
    {
        Matrix { content, rows, columns }
    }

    /// Flattens a rectangular grid of rows into a matrix.
    pub fn from_2d_vector(content: Vec<Vec<T>>) -> (r: Matrix<T>)
        requires
            content@.len() > 0,
            forall|i: int|
                0 <= i < content@.len() ==> #[trigger] content@[i]@.len() == content@[0]@.len(),
        ensures
            r.wf(),
            r.rows == content@.len(),
            r.columns == content@[0]@.len(),
            forall|i: int, j: int|
                0 <= i < r.rows && 0 <= j < r.columns ==> #[trigger] r.ent(i, j) == content@[i]@[j],
    {
        let rows = content.len();
        let columns = content[0].len();
        let mut content_1d: Vec<T> = Vec::new();
        let mut i: usize = 0;
        while i < rows
            invariant
                i <= rows,
                rows == content@.len(),
                columns == content@[0]@.len(),
                forall|k: int|
                    0 <= k < content@.len() ==> #[trigger] content@[k]@.len() == content@[0]@.len(),
                content_1d@.len() == i * columns,
                forall|k: int, j: int|
                    0 <= k < i && 0 <= j < columns ==> #[trigger] content_1d@[k * columns + j]
                        == content@[k]@[j],
            decreases rows - i,
        {
            let mut j: usize = 0;
            while j < columns
                invariant
                    i < rows,
                    j <= columns,
                    rows == content@.len(),
                    columns == content@[0]@.len(),
                    forall|k: int|
                        0 <= k < content@.len() ==> #[trigger] content@[k]@.len()
                            == content@[0]@.len(),
                    content_1d@.len() == i * columns + j,
                    forall|k: int, l: int|
                        0 <= k < i && 0 <= l < columns ==> #[trigger] content_1d@[k * columns + l]
                            == content@[k]@[l],
                    forall|l: int|
                        0 <= l < j ==> #[trigger] content_1d@[i * columns + l] == content@[i as int]@[l],
                decreases columns - j,
            {
                content_1d.push(content[i][j]);
                proof {
                    assert forall|k: int, l: int|
                        0 <= k < i && 0 <= l < columns implies #[trigger] content_1d@[k * columns
                        + l] == content@[k]@[l] by {
                        assert(0 <= k * columns + l < i * columns + j) by (nonlinear_arith)
                            requires
                                0 <= k < i,
                                0 <= l < columns,
                                0 <= j,
                        ;
                    }
                }
                j += 1;
            }
            proof {
                assert((i + 1) * columns == i * columns + columns) by (nonlinear_arith);
                assert forall|k: int, l: int|
                    0 <= k < i + 1 && 0 <= l < columns implies #[trigger] content_1d@[k * columns
                    + l] == content@[k]@[l] by {
                    if k == i {
                        assert(content_1d@[i * columns + l] == content@[i as int]@[l]);
                    }
                }
            }
            i += 1;
        }
        let r = Matrix { content: content_1d, rows, columns };
        proof {
            assert forall|a: int, b: int|
                0 <= a < r.rows && 0 <= b < r.columns implies #[trigger] r.ent(a, b)
                == content@[a]@[b] by {
                assert(r.content@[a * columns + b] == content@[a]@[b]);
            }
        }
        r
    }

    /// Reads entry `(i, j)`.
    pub fn at(&self, i: usize, j: usize) -> (r: T)
        requires
            self.wf(),
            i < self.rows,
            j < self.columns,
        ensures
            r == self.ent(i as int, j as int),
    {
        let n = self.content.len();
        proof {
            assert(i * self.columns + j < n) by (nonlinear_arith)
                requires
                    0 <= i < self.rows,
                    0 <= j < self.columns,
                    n == self.rows * self.columns,
            ;
        }
        self.content[i * self.columns + j]
    }

    /// Writes entry `(i, j)`, leaving every other entry in place.
    pub fn set_entry(&mut self, i: usize, j: usize, v: T)
        requires
            old(self).wf(),
            i < old(self).rows,
            j < old(self).columns,
        ensures
            final(self).wf(),
            final(self).rows == old(self).rows,
            final(self).columns == old(self).columns,
            final(self).ent(i as int, j as int) == v,
            forall|a: int, b: int|
                0 <= a < old(self).rows && 0 <= b < old(self).columns && (a != i || b != j)
                    ==> #[trigger] final(self).ent(a, b) == old(self).ent(a, b),
    {
        let n = self.content.len();
        proof {
            assert(i * self.columns + j < n) by (nonlinear_arith)
                requires
                    0 <= i < self.rows,
                    0 <= j < self.columns,
                    n == self.rows * self.columns,
            ;
        }
        self.content[i * self.columns + j] = v;
        proof {
            assert forall|a: int, b: int|
                0 <= a < self.rows && 0 <= b < self.columns && (a != i || b != j)
                    implies #[trigger] self.ent(a, b) == old(self).ent(a, b) by {
                if a * self.columns + b == i * self.columns + j {
                    lemma_grid_index_injective(self.columns as int, a, b, i as int, j as int);
                } else {
                    assert(0 <= a * self.columns + b < self.content@.len()) by (nonlinear_arith)
                        requires
                            0 <= a < self.rows,
                            0 <= b < self.columns,
                            self.content@.len() == self.rows * self.columns,
                    ;
                }
            }
        }
    }

    /// A fresh vector holding a copy of the slice.
    fn copy_of_slice(v: &[T]) -> (r: Vec<T>)
        ensures
            r@ == v@,
    {
        let mut r: Vec<T> = Vec::new();
        let mut i: usize = 0;
        while i < v.len()
            invariant
                i <= v@.len(),
                r@ == v@.subrange(0, i as int),
            decreases v@.len() - i,
        {
            r.push(v[i]);
            proof {
                assert(r@ =~= v@.subrange(0, i + 1));
            }
            i += 1;
        }
        proof {
            assert(v@.subrange(0, v@.len() as int) =~= v@);
        }
        r
    }

    /// A buffer of `n` specification-level zeroes.
    fn zero_filled(n: usize) -> (v: Vec<T>)
        ensures
            v@.len() == n,
            forall|i: int| 0 <= i < n ==> #[trigger] v@[i] == T::model_zero(),
    {
        let mut v: Vec<T> = Vec::new();
        let mut i: usize = 0;
        while i < n
            invariant
                i <= n,
                v@.len() == i,
                forall|k: int| 0 <= k < i ==> #[trigger] v@[k] == T::model_zero(),
            decreases n - i,
        {
            v.push(T::zero());
            i += 1;
        }
        v
    }

    /// The identity matrix of the given dimension; zero dimensions are
    /// refused in favour of [`Matrix::empty`].
    pub fn identity(dim: usize) -> (r: Result<Matrix<T>, String>)
        requires
            dim * dim <= usize::MAX,
        ensures
            r is Err <==> dim == 0,
            r matches Ok(m) ==> {
                &&& m.wf()
                &&& m.rows == dim
                &&& m.columns == dim
                &&& forall|i: int, j: int|
                    0 <= i < dim && 0 <= j < dim ==> #[trigger] m.ent(i, j) == (if i == j {
                        T::model_one()
                    } else {
                        T::model_zero()
                    })
            },
    {
        if dim == 0 {
            return Err(
                "We cannot create a 0 dimensional idendity matrix. Please use Matrix::empty() instead".to_string(),
            );
        }

        let content = Self::zero_filled(dim * dim);
        let mut r = Matrix { content, rows: dim, columns: dim };
        proof {
            assert forall|i: int, j: int| 0 <= i < dim && 0 <= j < dim implies #[trigger] r.ent(
                i,
                j,
            ) == T::model_zero() by {
                assert(0 <= i * dim + j < dim * dim) by (nonlinear_arith)
                    requires
                        0 <= i < dim,
                        0 <= j < dim,
                ;
            }
        }
        let mut d: usize = 0;
        while d < dim
            invariant
                d <= dim,
                r.wf(),
                r.rows == dim,
                r.columns == dim,
                forall|i: int, j: int|
                    0 <= i < dim && 0 <= j < dim ==> #[trigger] r.ent(i, j) == (if i == j && i < d {
                        T::model_one()
                    } else {
                        T::model_zero()
                    }),
            decreases dim - d,
        {
            r.set_entry(d, d, T::one());
            d += 1;
        }
        Ok(r)
    }

    /// The all-zero matrix of the given shape.
    pub fn zeroes(rows: usize, columns: usize) -> (r: Matrix<T>)
        requires
            rows * columns <= usize::MAX,
        ensures
            r.wf(),
            r.rows == rows,
            r.columns == columns,
            forall|i: int, j: int|
                0 <= i < rows && 0 <= j < columns ==> #[trigger] r.ent(i, j) == T::model_zero(),
    {
        let content = Self::zero_filled(rows * columns);
        let r = Matrix { content, rows, columns };
        proof {
            assert forall|i: int, j: int|
                0 <= i < rows && 0 <= j < columns implies #[trigger] r.ent(i, j) == T::model_zero()
                by {
                assert(0 <= i * columns + j < rows * columns) by (nonlinear_arith)
                    requires
                        0 <= i < rows,
                        0 <= j < columns,
                ;
            }
        }
        r
    }

    /// The matrix as a vector of row vectors.
    pub fn get_2d_vector(&self) -> (r: Vec<Vec<T>>)
        requires
            self.wf(),
        ensures
            r@.len() == self.rows,
            forall|i: int| 0 <= i < self.rows ==> #[trigger] r@[i]@ == self.row_model(i),
    {
        let mut r: Vec<Vec<T>> = Vec::new();
        let mut i: usize = 0;
        while i < self.rows
            invariant
                i <= self.rows,
                self.wf(),
                r@.len() == i,
                forall|k: int| 0 <= k < i ==> #[trigger] r@[k]@ == self.row_model(k),
            decreases self.rows - i,
        {
            r.push(self.get_row(i));
            i += 1;
        }
        r
    }

    /// Number of rows.
    pub fn len(&self) -> (r: usize)
        ensures
            r == self.rows,
    {
        self.rows
    }

    /// Whether the buffer holds no scalar at all.
    pub fn is_empty(&self) -> (r: bool)
        ensures
            r == (self.content@.len() == 0),
    {
        self.content.is_empty()
    }

    /// Multiplies every entry by the scalar, in place.
    pub fn multiply_by_scalar(&mut self, scalar: T)
        requires
            old(self).wf(),
        ensures
            final(self).wf(),
            final(self).rows == old(self).rows,
            final(self).columns == old(self).columns,
            final(self).content@.len() == old(self).content@.len(),
            forall|k: int|
                0 <= k < final(self).content@.len() ==> #[trigger] final(self).content@[k]
                    == old(self).content@[k].model_mul(scalar),
    {
        let n = self.content.len();
        let mut idx: usize = 0;
        while idx < n
            invariant
                idx <= n,
                n == self.content@.len(),
                self.rows == old(self).rows,
                self.columns == old(self).columns,
                self.content@.len() == old(self).content@.len(),
                forall|k: int|
                    0 <= k < idx ==> #[trigger] self.content@[k] == old(self).content@[k].model_mul(
                        scalar,
                    ),
                forall|k: int|
                    idx <= k < self.content@.len() ==> #[trigger] self.content@[k]
                        == old(self).content@[k],
            decreases n - idx,
        {
            let v = self.content[idx].times(scalar);
            self.content[idx] = v;
            idx += 1;
        }
    }

    /// Divides every entry by the scalar, in place.
    pub fn divide_by_scalar(&mut self, scalar: T)
        requires
            old(self).wf(),
        ensures
            final(self).wf(),
            final(self).rows == old(self).rows,
            final(self).columns == old(self).columns,
            final(self).content@.len() == old(self).content@.len(),
            forall|k: int|
                0 <= k < final(self).content@.len() ==> #[trigger] final(self).content@[k]
                    == old(self).content@[k].model_div(scalar),
    {
        let n = self.content.len();
        let mut idx: usize = 0;
        while idx < n
            invariant
                idx <= n,
                n == self.content@.len(),
                self.rows == old(self).rows,
                self.columns == old(self).columns,
                self.content@.len() == old(self).content@.len(),
                forall|k: int|
                    0 <= k < idx ==> #[trigger] self.content@[k] == old(self).content@[k].model_div(
                        scalar,
                    ),
                forall|k: int|
                    idx <= k < self.content@.len() ==> #[trigger] self.content@[k]
                        == old(self).content@[k],
            decreases n - idx,
        {
            let v = self.content[idx].divided_by(scalar);
            self.content[idx] = v;
            idx += 1;
        }
    }

    /// Copies row `row` out of the matrix.
    pub fn get_row(&self, row: usize) -> (r: Vec<T>)
        requires
            self.wf(),
            row < self.rows,
        ensures
            r@ == self.row_model(row as int),
            r@.len() == self.columns,
    {
        let mut r: Vec<T> = Vec::new();
        let mut j: usize = 0;
        while j < self.columns
            invariant
                j <= self.columns,
                self.wf(),
                row < self.rows,
                r@.len() == j,
                forall|l: int| 0 <= l < j ==> #[trigger] r@[l] == self.ent(row as int, l),
            decreases self.columns - j,
        {
            r.push(self.at(row, j));
            j += 1;
        }
        proof {
            self.lemma_row_model_ent(row as int);
        }
        proof {
            assert(r@ =~= self.row_model(row as int));
        }
        r
    }

    /// Copies column `col` out of the matrix, as a `rows x 1` matrix.
    pub fn get_col(&self, col: usize) -> (r: Matrix<T>)
        requires
            self.wf(),
            col < self.columns,
        ensures
            r.wf(),
            r.rows == self.rows,
            r.columns == 1,
            r.content@ == self.col_model(col as int),
    {
        let mut c: Vec<T> = Vec::new();
        let mut i: usize = 0;
        while i < self.rows
            invariant
                i <= self.rows,
                self.wf(),
                col < self.columns,
                c@.len() == i,
                forall|k: int| 0 <= k < i ==> #[trigger] c@[k] == self.ent(k, col as int),
            decreases self.rows - i,
        {
            c.push(self.at(i, col));
            i += 1;
        }
        proof {
            assert(c@ =~= self.col_model(col as int));
        }
        Matrix { content: c, rows: self.rows, columns: 1 }
    }


    /// Multiplies `self` by `b` in place; shapes whose inner dimensions
    /// differ are refused and leave the matrix untouched.
    pub fn multiply_matrix(&mut self, b: &Matrix<T>) -> (r: Result<u8, String>)
        requires
            old(self).wf(),
            b.wf(),
            old(self).rows * b.columns <= usize::MAX,
        ensures
            final(self).wf(),
            r is Err <==> old(self).columns != b.rows,
            r is Err ==> *final(self) == *old(self),
            r matches Ok(v) ==> v == 1,
            old(self).columns == b.rows ==> {
                &&& final(self).rows == old(self).rows
                &&& final(self).columns == b.columns
                &&& forall|i: int, j: int|
                    0 <= i < old(self).rows && 0 <= j < b.columns ==> #[trigger] final(self).ent(
                        i,
                        j,
                    ) == crate::calculations::linear_algebra::dot_model(
                        old(self).row_model(i),
                        b.col_model(j),
                    )
            },
    {
        if self.columns != b.rows {
            return Err("Cannot multiply: the shapes do not match".to_string());
        }

        match crate::calculations::linear_algebra::matrix_dot_product(self, b) {
            Ok(m) => {
                self.content = m.content;
                self.columns = b.columns;
                Ok(1)
            },
            Err(_) => {
                proof {
                    assert(false);
                }
                Err("Cannot multiply: the shapes do not match".to_string())
            },
        }
    }

    /// The transpose, as a fresh matrix.
    pub fn get_transpose(&self) -> (r: Matrix<T>)
        requires
            self.wf(),
        ensures
            r.wf(),
            r.rows == self.columns,
            r.columns == self.rows,
            forall|c: int, w: int|
                0 <= c < self.columns && 0 <= w < self.rows ==> #[trigger] r.ent(c, w) == self.ent(
                    w,
                    c,
                ),
    {
        let n = self.content.len();
        proof {
            assert(self.columns * self.rows == self.rows * self.columns) by (nonlinear_arith);
        }
        let mut transposed: Matrix<T> = Matrix::zeroes(self.columns, self.rows);

        let mut col: usize = 0;
        while col < self.columns
            invariant
                col <= self.columns,
                self.wf(),
                transposed.wf(),
                transposed.rows == self.columns,
                transposed.columns == self.rows,
                forall|c: int, w: int|
                    0 <= c < col && 0 <= w < self.rows ==> #[trigger] transposed.ent(c, w)
                        == self.ent(w, c),
            decreases self.columns - col,
        {
            let mut row: usize = 0;
            while row < self.rows
                invariant
                    col < self.columns,
                    row <= self.rows,
                    self.wf(),
                    transposed.wf(),
                    transposed.rows == self.columns,
                    transposed.columns == self.rows,
                    forall|c: int, w: int|
                        0 <= c < col && 0 <= w < self.rows ==> #[trigger] transposed.ent(c, w)
                            == self.ent(w, c),
                    forall|w: int|
                        0 <= w < row ==> #[trigger] transposed.ent(col as int, w) == self.ent(
                            w,
                            col as int,
                        ),
                decreases self.rows - row,
            {
                let v = self.at(row, col);
                transposed.set_entry(col, row, v);
                row += 1;
            }
            col += 1;
        }
        transposed
    }

    /// Builds the upper-left quadrants of the matrix, as the first step of a
    /// planned divide-and-conquer transposition; the matrix itself is left
    /// untouched.
    pub fn split(&mut self)
        requires
            old(self).wf(),
        ensures
            *final(self) == *old(self),
    {
        let column_limit: usize = self.columns / 2;
        let mut sub_zero: Matrix<T> = Matrix::empty();
        let mut sub_one: Matrix<T> = Matrix::empty();

        let mut row: usize = 0;
        while row < self.rows / 2
            invariant
                self.wf(),
                self == old(self),
                column_limit == self.columns / 2,
                sub_zero.wf(),
                sub_one.wf(),
                sub_zero.rows < usize::MAX,
                sub_zero.columns < usize::MAX,
                sub_one.rows < usize::MAX,
                sub_one.columns < usize::MAX,
                sub_zero.rows > 0 ==> sub_zero.columns == column_limit,
                sub_one.rows > 0 ==> sub_one.columns == column_limit,
                sub_zero.rows <= row,
                sub_one.rows <= row,
            decreases self.rows / 2 - row,
        {
            let full_row = self.get_row(row);
            let mut prefix: Vec<T> = Vec::new();
            let mut j: usize = 0;
            while j < column_limit
                invariant
                    j <= column_limit,
                    column_limit <= full_row@.len(),
                    prefix@.len() == j,
                decreases column_limit - j,
            {
                prefix.push(full_row[j]);
                j += 1;
            }
            let _ = sub_zero.append_vector(prefix.as_slice(), 0);
            let _ = sub_one.append_vector(prefix.as_slice(), 0);
            row += 1;
        }
    }

    /// Sums the entries column-wise (`axis == 0`, one sum per column) or
    /// row-wise (`axis == 1`, one sum per row); other axes are refused.
    pub fn sum(&self, axis: u8) -> (r: Result<Matrix<T>, &'static str>)
        requires
            self.wf(),
        ensures
            r is Err <==> axis > 1,
            axis == 0 ==> (r matches Ok(m) && {
                &&& m.wf()
                &&& m.rows == 1
                &&& m.columns == self.columns
                &&& forall|c: int|
                    0 <= c < self.columns ==> #[trigger] m.ent(0, c) == col_sum_model(
                        *self,
                        c,
                        self.rows as int,
                    )
            }),
            axis == 1 ==> (r matches Ok(m) && {
                &&& m.wf()
                &&& m.rows == 1
                &&& m.columns == self.rows
                &&& forall|w: int|
                    0 <= w < self.rows ==> #[trigger] m.ent(0, w) == row_sum_model(
                        *self,
                        w,
                        self.columns as int,
                    )
            }),
    {
        let n = self.content.len();
        if axis == 0 {
            proof {
                assert(1 * self.columns == self.columns) by (nonlinear_arith);
            }
            let mut sums: Matrix<T> = Matrix::zeroes(1, self.columns);

            let mut col: usize = 0;
            while col < self.columns
                invariant
                    col <= self.columns,
                    self.wf(),
                    sums.wf(),
                    sums.rows == 1,
                    sums.columns == self.columns,
                    forall|c: int|
                        0 <= c < col ==> #[trigger] sums.ent(0, c) == col_sum_model(
                            *self,
                            c,
                            self.rows as int,
                        ),
                decreases self.columns - col,
            {
                let mut acc: T = T::zero();
                let mut row: usize = 0;
                while row < self.rows
                    invariant
                        col < self.columns,
                        row <= self.rows,
                        self.wf(),
                        acc == col_sum_model(*self, col as int, row as int),
                    decreases self.rows - row,
                {
                    acc = acc.plus(self.at(row, col));
                    row += 1;
                }
                sums.set_entry(0, col, acc);
                col += 1;
            }
            return Ok(sums);
        }

        if axis == 1 {
            let mut sums: Matrix<T> = Matrix::zeroes(1, self.rows);
            proof {
                assert(1 * self.rows == self.rows) by (nonlinear_arith);
            }

            let mut i: usize = 0;
            while i < self.rows
                invariant
                    i <= self.rows,
                    self.wf(),
                    sums.wf(),
                    sums.rows == 1,
                    sums.columns == self.rows,
                    forall|w: int|
                        0 <= w < i ==> #[trigger] sums.ent(0, w) == row_sum_model(
                            *self,
                            w,
                            self.columns as int,
                        ),
                decreases self.rows - i,
            {
                let mut acc: T = T::zero();
                let mut j: usize = 0;
                while j < self.columns
                    invariant
                        i < self.rows,
                        j <= self.columns,
                        self.wf(),
                        acc == row_sum_model(*self, i as int, j as int),
                    decreases self.columns - j,
                {
                    acc = acc.plus(self.at(i, j));
                    j += 1;
                }
                sums.set_entry(0, i, acc);
                i += 1;
            }
            return Ok(sums);
        }

        Err("Can only compute the sum column (0) or row wise (1)")
    }

    /// The column-wise (`axis == 0`) or row-wise (`axis == 1`) mean: the
    /// matching sums, each divided by the number of summed entries.
    pub fn mean(&self, axis: u8) -> (r: Result<Matrix<T>, &'static str>)
        requires
            self.wf(),
        ensures
            r is Err <==> axis > 1,
            axis == 0 ==> (r matches Ok(m) && {
                &&& m.wf()
                &&& m.rows == 1
                &&& m.columns == self.columns
                &&& forall|c: int|
                    0 <= c < self.columns ==> #[trigger] m.ent(0, c) == col_sum_model(
                        *self,
                        c,
                        self.rows as int,
                    ).model_div(T::model_from(self.rows as int))
            }),
            axis == 1 ==> (r matches Ok(m) && {
                &&& m.wf()
                &&& m.rows == 1
                &&& m.columns == self.rows
                &&& forall|w: int|
                    0 <= w < self.rows ==> #[trigger] m.ent(0, w) == row_sum_model(
                        *self,
                        w,
                        self.columns as int,
                    ).model_div(T::model_from(self.columns as int))
            }),
    {
        if axis == 0 {
            let mut sums = match self.sum(axis) {
                Ok(m) => m,
                Err(_) => {
                    proof {
                        assert(false);
                    }
                    return Err("Wrong axis: pass 0 for column wise and 1 for row wise");
                },
            };
            let ghost pre = sums;
            sums.divide_by_scalar(T::from_count(self.rows));
            proof {
                assert forall|c: int| 0 <= c < self.columns implies #[trigger] sums.ent(0, c)
                    == col_sum_model(*self, c, self.rows as int).model_div(
                    T::model_from(self.rows as int),
                ) by {
                    assert(0 * pre.columns == 0) by (nonlinear_arith);
                    assert(1 * pre.columns == pre.columns) by (nonlinear_arith);
                    assert(pre.ent(0, c) == pre.content@[c]);
                    assert(sums.ent(0, c) == sums.content@[c]);
                }
            }
            return Ok(sums);
        }

        if axis == 1 {
            let mut sums = match self.sum(axis) {
                Ok(m) => m,
                Err(_) => {
                    proof {
                        assert(false);
                    }
                    return Err("Wrong axis: pass 0 for column wise and 1 for row wise");
                },
            };
            let ghost pre = sums;
            sums.divide_by_scalar(T::from_count(self.columns));
            proof {
                assert forall|w: int| 0 <= w < self.rows implies #[trigger] sums.ent(0, w)
                    == row_sum_model(*self, w, self.columns as int).model_div(
                    T::model_from(self.columns as int),
                ) by {
                    assert(0 * pre.columns == 0) by (nonlinear_arith);
                    assert(1 * pre.columns == pre.columns) by (nonlinear_arith);
                    assert(pre.ent(0, w) == pre.content@[w]);
                    assert(sums.ent(0, w) == sums.content@[w]);
                }
            }
            return Ok(sums);
        }

        Err("Wrong axis: pass 0 for column wise and 1 for row wise")
    }

    /// Raises every entry to the power of Euler's number, in place.
    pub fn exp(&mut self)
        requires
            old(self).wf(),
        ensures
            final(self).wf(),
            final(self).rows == old(self).rows,
            final(self).columns == old(self).columns,
            forall|k: int|
                0 <= k < final(self).content@.len() ==> #[trigger] final(self).content@[k]
                    == old(self).content@[k].model_powf(T::model_e()),
    {
        let e: T = T::euler();
        let n = self.content.len();
        let mut idx: usize = 0;
        while idx < n
            invariant
                idx <= n,
                n == self.content@.len(),
                self.rows == old(self).rows,
                self.columns == old(self).columns,
                self.content@.len() == old(self).content@.len(),
                e == T::model_e(),
                forall|k: int|
                    0 <= k < idx ==> #[trigger] self.content@[k] == old(self).content@[k].model_powf(
                        e,
                    ),
                forall|k: int|
                    idx <= k < self.content@.len() ==> #[trigger] self.content@[k] == old(
                        self,
                    ).content@[k],
            decreases n - idx,
        {
            let v = self.content[idx].powf(e);
            self.content[idx] = v;
            idx += 1;
        }
    }

    /// Appends `to_add` as a new row (`axis == 0`) or a new column
    /// (`axis == 1`). A first insertion into a matrix without rows fixes the
    /// shape from the vector alone.
    pub fn append_vector(&mut self, to_add: &[T], axis: u8) -> (r: Result<u8, &'static str>)
        requires
            old(self).wf(),
            old(self).rows < usize::MAX,
            old(self).columns < usize::MAX,
        ensures
            final(self).wf(),
            r is Err <==> (axis > 1 || (old(self).rows > 0 && axis == 0 && to_add@.len()
                != old(self).columns) || (old(self).rows > 0 && axis == 1 && to_add@.len()
                != old(self).rows)),
            r is Err ==> *final(self) == *old(self),
            r matches Ok(v) ==> v == 1,
            old(self).rows == 0 && axis == 0 ==> {
                &&& final(self).content@ == to_add@
                &&& final(self).rows == 1
                &&& final(self).columns == to_add@.len()
            },
            old(self).rows == 0 && axis == 1 ==> {
                &&& final(self).content@ == to_add@
                &&& final(self).rows == to_add@.len()
                &&& final(self).columns == 1
            },
            old(self).rows > 0 && axis == 0 && to_add@.len() == old(self).columns ==> old(
                self,
            ).row_appended(to_add@, *final(self)),
            old(self).rows > 0 && axis == 1 && to_add@.len() == old(self).rows ==> old(
                self,
            ).col_appended(to_add@, *final(self)),
    {
        if axis > 1 {
            return Err("The axis has to be 0 (rows) or 1 (columns)");
        }

        if self.rows == 0 && axis == 0 {
            self.columns = to_add.len();
            self.content = Self::copy_of_slice(to_add);
            self.rows = 1;
            return Ok(1);
        }

        if self.rows == 0 && axis == 1 {
            self.rows = to_add.len();
            self.columns = 1;
            self.content = Self::copy_of_slice(to_add);
            proof {
                assert(self.rows * 1 == self.rows);
            }
            return Ok(1);
        }

        if axis == 0 {
            if to_add.len() != self.columns {
                return Err("vector size does not match the number of columns");
            }

            let mut entry: usize = 0;
            while entry < to_add.len()
                invariant
                    entry <= to_add@.len(),
                    self.rows == old(self).rows,
                    self.columns == old(self).columns,
                    self.content@ == old(self).content@ + to_add@.subrange(0, entry as int),
                decreases to_add@.len() - entry,
            {
                self.content.push(to_add[entry]);
                proof {
                    assert(self.content@ =~= old(self).content@ + to_add@.subrange(
                        0,
                        entry + 1,
                    ));
                }
                entry += 1;
            }
            self.rows = self.rows + 1;
            proof {
                assert(to_add@.subrange(0, to_add@.len() as int) =~= to_add@);
                let gr = old(self).rows as int;
                let gc = old(self).columns as int;
                assert((gr + 1) * gc == gr * gc + gc) by (nonlinear_arith);
            }
            return Ok(1);
        }

        // axis == 1
        if to_add.len() != self.rows {
            return Err("vector size does not match the number of columns");
        }

        let rows = self.rows;
        let columns = self.columns;
        let mut new: Vec<T> = Vec::new();
        let mut i: usize = 0;
        while i < rows
            invariant
                i <= rows,
                self == old(self),
                self.wf(),
                rows == self.rows,
                columns == self.columns,
                to_add@.len() == rows,
                new@.len() == i * (columns + 1),
                forall|k: int, l: int|
                    0 <= k < i && 0 <= l < columns ==> #[trigger] new@[k * (columns + 1) + l]
                        == self.ent(k, l),
                forall|k: int|
                    0 <= k < i ==> #[trigger] new@[k * (columns + 1) + columns] == to_add@[k],
            decreases rows - i,
        {
            let mut j: usize = 0;
            while j < columns
                invariant
                    i < rows,
                    j <= columns,
                    self == old(self),
                    self.wf(),
                    rows == self.rows,
                    columns == self.columns,
                    to_add@.len() == rows,
                    new@.len() == i * (columns + 1) + j,
                    forall|k: int, l: int|
                        0 <= k < i && 0 <= l < columns ==> #[trigger] new@[k * (columns + 1) + l]
                            == self.ent(k, l),
                    forall|k: int|
                        0 <= k < i ==> #[trigger] new@[k * (columns + 1) + columns] == to_add@[k],
                    forall|l: int|
                        0 <= l < j ==> #[trigger] new@[i * (columns + 1) + l] == self.ent(
                            i as int,
                            l,
                        ),
                decreases columns - j,
            {
                new.push(self.at(i, j));
                proof {
                    assert forall|k: int, l: int|
                        0 <= k < i && 0 <= l < columns implies #[trigger] new@[k * (columns + 1)
                        + l] == self.ent(k, l) by {
                        lemma_row_major_below(k, l, i as int, columns + 1);
                    }
                    assert forall|k: int| 0 <= k < i implies #[trigger] new@[k * (columns + 1)
                        + columns] == to_add@[k] by {
                        lemma_row_major_below(k, columns as int, i as int, columns + 1);
                    }
                }
                j += 1;
            }
            new.push(to_add[i]);
            proof {
                assert forall|k: int, l: int|
                    0 <= k < i + 1 && 0 <= l < columns implies #[trigger] new@[k * (columns + 1)
                    + l] == self.ent(k, l) by {
                    if k < i {
                        lemma_row_major_below(k, l, i as int, columns + 1);
                    }
                }
                assert forall|k: int| 0 <= k < i + 1 implies #[trigger] new@[k * (columns + 1)
                    + columns] == to_add@[k] by {
                    if k < i {
                        lemma_row_major_below(k, columns as int, i as int, columns + 1);
                    }
                }
                assert((i + 1) * (columns + 1) == i * (columns + 1) + columns + 1)
                    by (nonlinear_arith);
            }
            i += 1;
        }

        self.content = new;
        self.columns = self.columns + 1;
        proof {
            let gr = self.rows as int;
            let gc = old(self).columns as int;
            assert(gr * (gc + 1) == gr * gc + gr) by (nonlinear_arith);
            assert(self.wf());
            assert forall|k: int, l: int|
                0 <= k < rows && 0 <= l < columns implies #[trigger] self.ent(k, l) == old(
                self,
            ).ent(k, l) by {
                assert(self.content@[k * (columns + 1) + l] == old(self).ent(k, l));
            }
            assert forall|k: int| 0 <= k < rows implies #[trigger] self.ent(k, columns as int)
                == to_add@[k] by {
                assert(self.content@[k * (columns + 1) + columns] == to_add@[k]);
            }
        }
        Ok(1)
    }

    /// Removes row (`axis == 0`) or column (`axis == 1`) `index` and returns
    /// it as a matrix of its own.
    pub fn remove(&mut self, index: usize, axis: usize) -> (r: Result<Matrix<T>, String>)
        requires
            old(self).wf(),
        ensures
            final(self).wf(),
            r is Err <==> (axis > 1 || (axis == 0 && index >= old(self).rows) || (axis == 1
                && index >= old(self).columns)),
            r is Err ==> *final(self) == *old(self),
            axis == 0 && index < old(self).rows ==> (r matches Ok(out) && {
                &&& old(self).row_removed(index as int, *final(self), out.content@)
                &&& out.rows == 1
                &&& out.columns == old(self).columns
                &&& out.wf()
            }),
            axis == 1 && index < old(self).columns ==> (r matches Ok(out) && {
                &&& old(self).col_removed(index as int, *final(self), out.content@)
                &&& out.rows == old(self).rows
                &&& out.columns == 1
                &&& out.wf()
            }),
    {
        if axis > 1 {
            return Err("The axis has to be 0 (rows) or 1 (columns)".to_string());
        }

        if axis == 0 && index >= self.rows {
            return Err("The matrix does not contain the row it was asked to remove".to_string());
        }

        if axis == 1 && index >= self.columns {
            return Err("The matrix does not contain the column it was asked to remove".to_string());
        }

        if axis == 0 {
            proof {
                self.lemma_row_model_ent(index as int);
            }
            let n = self.content.len();
            let begin_to_remove = index * self.columns;
            let end_to_remove = begin_to_remove + self.columns;

            let mut new_vector: Vec<T> = Vec::new();
            let mut k: usize = 0;
            while k < begin_to_remove
                invariant
                    k <= begin_to_remove,
                    begin_to_remove <= self.content@.len(),
                    self == old(self),
                    new_vector@ == self.content@.subrange(0, k as int),
                decreases begin_to_remove - k,
            {
                new_vector.push(self.content[k]);
                proof {
                    assert(new_vector@ =~= self.content@.subrange(0, k + 1));
                }
                k += 1;
            }
            let mut removed: Vec<T> = Vec::new();
            let mut k: usize = begin_to_remove;
            while k < end_to_remove
                invariant
                    begin_to_remove <= k <= end_to_remove,
                    end_to_remove <= self.content@.len(),
                    self == old(self),
                    removed@ == self.content@.subrange(begin_to_remove as int, k as int),
                decreases end_to_remove - k,
            {
                removed.push(self.content[k]);
                proof {
                    assert(removed@ =~= self.content@.subrange(begin_to_remove as int, k + 1));
                }
                k += 1;
            }
            let mut k: usize = end_to_remove;
            while k < n
                invariant
                    end_to_remove <= k <= n,
                    n == self.content@.len(),
                    self == old(self),
                    new_vector@ == self.content@.subrange(0, begin_to_remove as int)
                        + self.content@.subrange(end_to_remove as int, k as int),
                decreases n - k,
            {
                new_vector.push(self.content[k]);
                proof {
                    assert(new_vector@ =~= self.content@.subrange(0, begin_to_remove as int)
                        + self.content@.subrange(end_to_remove as int, k + 1));
                }
                k += 1;
            }

            self.content = new_vector;
            self.rows = self.rows - 1;
            proof {
                let gr = old(self).rows as int;
                let gc = old(self).columns as int;
                assert((gr - 1) * gc == gr * gc - gc) by (nonlinear_arith);
                assert(removed@ =~= old(self).row_model(index as int));
            }
            let out = Matrix { content: removed, rows: 1, columns: self.columns };
            return Ok(out);
        }

        // axis == 1
        let rows = self.rows;
        let columns = self.columns;
        let mut new: Vec<T> = Vec::new();
        let mut removed: Vec<T> = Vec::new();
        let mut i: usize = 0;
        while i < rows
            invariant
                i <= rows,
                self == old(self),
                self.wf(),
                rows == self.rows,
                columns == self.columns,
                index < columns,
                new@.len() == i * (columns - 1),
                removed@.len() == i,
                forall|k: int, l: int|
                    0 <= k < i && 0 <= l < index ==> #[trigger] new@[k * (columns - 1) + l]
                        == self.ent(k, l),
                forall|k: int, l: int|
                    0 <= k < i && index <= l < columns - 1 ==> #[trigger] new@[k * (columns - 1)
                        + l] == self.ent(k, l + 1),
                forall|k: int| 0 <= k < i ==> #[trigger] removed@[k] == self.ent(k, index as int),
            decreases rows - i,
        {
            let mut j: usize = 0;
            while j < columns
                invariant
                    i < rows,
                    j <= columns,
                    self == old(self),
                    self.wf(),
                    rows == self.rows,
                    columns == self.columns,
                    index < columns,
                    new@.len() == i * (columns - 1) + (if j <= index {
                        j as int
                    } else {
                        j - 1
                    }),
                    removed@.len() == i + (if j > index {
                        1int
                    } else {
                        0int
                    }),
                    forall|k: int, l: int|
                        0 <= k < i && 0 <= l < index ==> #[trigger] new@[k * (columns - 1) + l]
                            == self.ent(k, l),
                    forall|k: int, l: int|
                        0 <= k < i && index <= l < columns - 1 ==> #[trigger] new@[k * (columns - 1)
                            + l] == self.ent(k, l + 1),
                    forall|k: int|
                        0 <= k < i ==> #[trigger] removed@[k] == self.ent(k, index as int),
                    forall|l: int|
                        0 <= l < j && l < index ==> #[trigger] new@[i * (columns - 1) + l]
                            == self.ent(i as int, l),
                    forall|l: int|
                        index <= l && l + 1 < j ==> #[trigger] new@[i * (columns - 1) + l]
                            == self.ent(i as int, l + 1),
                    j > index ==> removed@[i as int] == self.ent(i as int, index as int),
                decreases columns - j,
            {
                let item = self.at(i, j);
                if j != index {
                    new.push(item);
                } else {
                    removed.push(item);
                }
                proof {
                    assert forall|k: int, l: int|
                        0 <= k < i && 0 <= l < index implies #[trigger] new@[k * (columns - 1) + l]
                        == self.ent(k, l) by {
                        lemma_row_major_below(k, l, i as int, columns - 1);
                    }
                    assert forall|k: int, l: int|
                        0 <= k < i && index <= l < columns - 1 implies #[trigger] new@[k * (columns
                        - 1) + l] == self.ent(k, l + 1) by {
                        lemma_row_major_below(k, l, i as int, columns - 1);
                    }
                }
                j += 1;
            }
            proof {
                assert((i + 1) * (columns - 1) == i * (columns - 1) + columns - 1)
                    by (nonlinear_arith);
                assert forall|k: int, l: int|
                    0 <= k < i + 1 && 0 <= l < index implies #[trigger] new@[k * (columns - 1) + l]
                    == self.ent(k, l) by {}
                assert forall|k: int, l: int|
                    0 <= k < i + 1 && index <= l < columns - 1 implies #[trigger] new@[k * (columns
                    - 1) + l] == self.ent(k, l + 1) by {}
            }
            i += 1;
        }

        self.content = new;
        self.columns = self.columns - 1;
        proof {
            let gr = self.rows as int;
            let gc = old(self).columns as int;
            assert(gr * (gc - 1) == gr * gc - gr) by (nonlinear_arith);
            assert(self.wf());
            assert forall|k: int, l: int|
                0 <= k < rows && 0 <= l < index implies #[trigger] self.ent(k, l) == old(self).ent(
                k,
                l,
            ) by {
                assert(self.content@[k * (columns - 1) + l] == old(self).ent(k, l));
            }
            assert forall|k: int, l: int|
                0 <= k < rows && index <= l < columns - 1 implies #[trigger] self.ent(k, l) == old(
                self,
            ).ent(k, l + 1) by {
                assert(self.content@[k * (columns - 1) + l] == old(self).ent(k, l + 1));
            }
            assert(removed@ =~= old(self).col_model(index as int));
        }
        let out = Matrix { content: removed, rows, columns: 1 };
        proof {
            assert(rows * 1 == rows);
        }
        Ok(out)
    }
}


impl<T: Scalar> Clone for Matrix<T> {
    /// An element-by-element copy of the matrix.
    fn clone(&self) -> (r: Self)
        ensures
            r.content@ == self.content@,
            r.rows == self.rows,
            r.columns == self.columns,
    {
        let mut c: Vec<T> = Vec::new();
        let mut i: usize = 0;
        while i < self.content.len()
            invariant
                i <= self.content@.len(),
                c@.len() == i,
                forall|k: int| 0 <= k < i ==> #[trigger] c@[k] == self.content@[k],
            decreases self.content@.len() - i,
        {
            c.push(self.content[i]);
            i += 1;
        }
        proof {
            assert(c@ =~= self.content@);
        }
        Matrix { content: c, rows: self.rows, columns: self.columns }
    }
}

} // verus!
