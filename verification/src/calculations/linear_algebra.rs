//! Dot products, LU decomposition, determinant and Gauss-Jordan inversion.
//!
//! Every routine is pinned to a specification function that replays the same
//! arithmetic in the same order; with rounded scalars that evaluation order
//! is the semantics, so no algebraic shortcut is taken.

use vstd::prelude::*;

use crate::calculations::matrix::Matrix;
use crate::scalar::Scalar;

verus! {

/// The left fold `((0 + a[0] * b[0]) + a[1] * b[1]) + ...` over two equally
/// long sequences.
pub open spec fn dot_model<T: Scalar>(a: Seq<T>, b: Seq<T>) -> T
    decreases a.len(),
{
    if a.len() == 0 || b.len() == 0 {
        T::model_zero()
    } else {
        dot_model(a.drop_last(), b.drop_last()).model_add(a.last().model_mul(b.last()))
    }
}

/// Computes the dot product of two slices; slices of different lengths are
/// refused.
pub fn dot_product<T: Scalar>(a: &[T], b: &[T]) -> (r: Result<T, &'static str>)
    ensures
        r is Err <==> a@.len() != b@.len(),
        r matches Ok(v) ==> v == dot_model(a@, b@),
{
    if a.len() != b.len() {
        return Err("The vector size do not match");
    }

    let mut res: T = T::zero();
    let mut i: usize = 0;
    while i < a.len()
        invariant
            i <= a@.len(),
            a@.len() == b@.len(),
            res == dot_model(a@.subrange(0, i as int), b@.subrange(0, i as int)),
        decreases a@.len() - i,
    {
        res = res.plus(a[i].times(b[i]));
        proof {
            let ap = a@.subrange(0, i + 1);
            let bp = b@.subrange(0, i + 1);
            assert(ap.drop_last() =~= a@.subrange(0, i as int));
            assert(bp.drop_last() =~= b@.subrange(0, i as int));
        }
        i += 1;
    }
    proof {
        assert(a@.subrange(0, a@.len() as int) =~= a@);
        assert(b@.subrange(0, b@.len() as int) =~= b@);
    }
    Ok(res)
}

/// Computes the matrix product of `a` and `b` into a fresh matrix; shapes
/// whose inner dimensions differ are refused.
pub fn matrix_dot_product<T: Scalar>(a: &Matrix<T>, b: &Matrix<T>) -> (r: Result<
    Matrix<T>,
    &'static str,
>)
    requires
        a.wf(),
        b.wf(),
        a.rows * b.columns <= usize::MAX,
    ensures
        r is Err <==> a.columns != b.rows,
        r matches Ok(m) ==> {
            &&& m.wf()
            &&& m.rows == a.rows
            &&& m.columns == b.columns
            &&& forall|i: int, j: int|
                0 <= i < a.rows && 0 <= j < b.columns ==> #[trigger] m.ent(i, j) == dot_model(
                    a.row_model(i),
                    b.col_model(j),
                )
        },
{
    if a.columns != b.rows {
        return Err("The vector size do not match");
    }

    let mut new: Matrix<T> = Matrix::zeroes(a.rows, b.columns);

    let mut rows_a: usize = 0;
    while rows_a < a.rows
        invariant
            rows_a <= a.rows,
            a.wf(),
            b.wf(),
            a.columns == b.rows,
            new.wf(),
            new.rows == a.rows,
            new.columns == b.columns,
            forall|i: int, j: int|
                0 <= i < rows_a && 0 <= j < b.columns ==> #[trigger] new.ent(i, j) == dot_model(
                    a.row_model(i),
                    b.col_model(j),
                ),
        decreases a.rows - rows_a,
    {
        let r = a.get_row(rows_a);
        let mut column: usize = 0;
        while column < b.columns
            invariant
                rows_a < a.rows,
                column <= b.columns,
                a.wf(),
                b.wf(),
                a.columns == b.rows,
                new.wf(),
                new.rows == a.rows,
                new.columns == b.columns,
                r@ == a.row_model(rows_a as int),
                r@.len() == a.columns,
                forall|i: int, j: int|
                    0 <= i < rows_a && 0 <= j < b.columns ==> #[trigger] new.ent(i, j) == dot_model(
                        a.row_model(i),
                        b.col_model(j),
                    ),
                forall|j: int|
                    0 <= j < column ==> #[trigger] new.ent(rows_a as int, j) == dot_model(
                        a.row_model(rows_a as int),
                        b.col_model(j),
                    ),
            decreases b.columns - column,
        {
            let col = b.get_col(column);
            match dot_product(r.as_slice(), col.content.as_slice()) {
                Ok(res) => {
                    new.set_entry(rows_a, column, res);
                },
                Err(_) => {
                    proof {
                        assert(false);
                    }
                },
            }
            column += 1;
        }
        rows_a += 1;
    }

    Ok(new)
}

/// One Gauss row operation on a grid of rows: row `cr` becomes row `cr`
/// minus `ratio` times row `p`, entry by entry.
pub open spec fn grid_row_op<T: Scalar>(g: Seq<Seq<T>>, cr: int, p: int, ratio: T) -> Seq<Seq<T>> {
    g.update(cr, Seq::new(g[cr].len(), |j: int| g[cr][j].model_sub(ratio.model_mul(g[p][j]))))
}

/// Scaling one row of a grid by `ratio`, entry by entry.
pub open spec fn grid_scale<T: Scalar>(g: Seq<Seq<T>>, i: int, ratio: T) -> Seq<Seq<T>> {
    g.update(i, Seq::new(g[i].len(), |j: int| g[i][j].model_mul(ratio)))
}

/// Writing one entry of a grid.
pub open spec fn grid_set<T>(g: Seq<Seq<T>>, i: int, j: int, v: T) -> Seq<Seq<T>> {
    g.update(i, g[i].update(j, v))
}

/// Column `j` of a grid, read downwards.
pub open spec fn grid_col_model<T>(g: Seq<Seq<T>>, j: int) -> Seq<T> {
    Seq::new(g.len(), |i: int| g[i][j])
}

/// The all-zero grid.
pub open spec fn zero_grid<T: Scalar>(r: int, c: int) -> Seq<Seq<T>> {
    Seq::new(r as nat, |i: int| Seq::new(c as nat, |j: int| T::model_zero()))
}

/// The identity grid.
pub open spec fn id_grid<T: Scalar>(n: int) -> Seq<Seq<T>> {
    Seq::new(
        n as nat,
        |i: int|
            Seq::new(
                n as nat,
                |j: int|
                    if i == j {
                        T::model_one()
                    } else {
                        T::model_zero()
                    },
            ),
    )
}

/// The top-down elimination's inner loop on the pair `(t, v)`: the state
/// after rows `p .. m` were processed for pivot `p`. A row whose pivot-column
/// entry already equals zero is skipped; otherwise both grids get the same
/// row operation, with the ratio read from `t` as it then stands.
pub open spec fn upper_rows_to<T: Scalar>(
    t: Seq<Seq<T>>,
    v: Seq<Seq<T>>,
    p: int,
    m: int,
) -> (Seq<Seq<T>>, Seq<Seq<T>>)
    decreases m - p,
{
    if m <= p {
        (t, v)
    } else {
        let prev = upper_rows_to(t, v, p, m - 1);
        let cr = m - 1;
        if cr != p && !prev.0[cr][p].model_eq(T::model_zero()) {
            let ratio = prev.0[cr][p].model_div(prev.0[p][p]);
            (grid_row_op(prev.0, cr, p, ratio), grid_row_op(prev.1, cr, p, ratio))
        } else {
            prev
        }
    }
}

/// The top-down elimination on the pair `(t, v)`: the state after pivots
/// `0 .. k` were processed.
pub open spec fn upper_sweep_to<T: Scalar>(t: Seq<Seq<T>>, v: Seq<Seq<T>>, k: int) -> (
    Seq<Seq<T>>,
    Seq<Seq<T>>,
)
    decreases k,
{
    if k <= 0 {
        (t, v)
    } else {
        let prev = upper_sweep_to(t, v, k - 1);
        upper_rows_to(prev.0, prev.1, k - 1, t.len() as int)
    }
}

/// The bottom-up elimination's inner loop for pivot `p`: the state after the
/// `k` rows `n-1, n-2, ..., n-k` were processed, `n` being the grid height.
pub open spec fn lower_rows_to<T: Scalar>(
    t: Seq<Seq<T>>,
    v: Seq<Seq<T>>,
    p: int,
    k: int,
) -> (Seq<Seq<T>>, Seq<Seq<T>>)
    decreases k,
{
    if k <= 0 {
        (t, v)
    } else {
        let prev = lower_rows_to(t, v, p, k - 1);
        let cr = t.len() - k;
        if cr != p && !prev.0[cr][p].model_eq(T::model_zero()) {
            let ratio = prev.0[cr][p].model_div(prev.0[p][p]);
            (grid_row_op(prev.0, cr, p, ratio), grid_row_op(prev.1, cr, p, ratio))
        } else {
            prev
        }
    }
}

/// The bottom-up elimination on the pair `(t, v)`: the state after the `k`
/// pivots `n-1, n-2, ..., n-k` were processed.
pub open spec fn lower_sweep_to<T: Scalar>(t: Seq<Seq<T>>, v: Seq<Seq<T>>, k: int) -> (
    Seq<Seq<T>>,
    Seq<Seq<T>>,
)
    decreases k,
{
    if k <= 0 {
        (t, v)
    } else {
        let prev = lower_sweep_to(t, v, k - 1);
        lower_rows_to(prev.0, prev.1, t.len() - k, t.len() as int)
    }
}

/// The final normalization of the Gauss-Jordan inversion: the state after
/// the first `k` rows were divided by their diagonal entry (rows whose
/// diagonal entry already equals one are skipped).
pub open spec fn normalize_to<T: Scalar>(t: Seq<Seq<T>>, v: Seq<Seq<T>>, k: int) -> (
    Seq<Seq<T>>,
    Seq<Seq<T>>,
)
    decreases k,
{
    if k <= 0 {
        (t, v)
    } else {
        let prev = normalize_to(t, v, k - 1);
        let ind = k - 1;
        if !prev.0[ind][ind].model_eq(T::model_one()) {
            let ratio = T::model_one().model_div(prev.0[ind][ind]);
            (grid_scale(prev.0, ind, ratio), grid_scale(prev.1, ind, ratio))
        } else {
            prev
        }
    }
}

/// What the Doolittle elimination makes of the pair `(lower, upper)`: the
/// state after pivots `0 .. k`. Each pivot first writes a one on the
/// diagonal of `lower`; every processed row then records its ratio in
/// `lower` and is eliminated in `upper`.
pub open spec fn lu_rows_to<T: Scalar>(
    l: Seq<Seq<T>>,
    u: Seq<Seq<T>>,
    p: int,
    m: int,
) -> (Seq<Seq<T>>, Seq<Seq<T>>)
    decreases m - p,
{
    if m <= p {
        (l, u)
    } else {
        let prev = lu_rows_to(l, u, p, m - 1);
        let cr = m - 1;
        if cr != p && !prev.1[cr][p].model_eq(T::model_zero()) {
            let ratio = prev.1[cr][p].model_div(prev.1[p][p]);
            (grid_set(prev.0, cr, p, ratio), grid_row_op(prev.1, cr, p, ratio))
        } else {
            prev
        }
    }
}

/// The Doolittle decomposition: the state of `(lower, upper)` after pivots
/// `0 .. k`.
pub open spec fn lu_sweep_to<T: Scalar>(l: Seq<Seq<T>>, u: Seq<Seq<T>>, k: int) -> (
    Seq<Seq<T>>,
    Seq<Seq<T>>,
)
    decreases k,
{
    if k <= 0 {
        (l, u)
    } else {
        let prev = lu_sweep_to(l, u, k - 1);
        lu_rows_to(grid_set(prev.0, k - 1, k - 1, T::model_one()), prev.1, k - 1, u.len() as int)
    }
}

/// The product of the first `k` diagonal entries of a grid, folded from the
/// first.
pub open spec fn diag_prod_model<T: Scalar>(g: Seq<Seq<T>>, k: int) -> T
    decreases k,
{
    if k <= 1 {
        g[0][0]
    } else {
        diag_prod_model(g, k - 1).model_mul(g[k - 1][k - 1])
    }
}

/// The Gauss-Jordan inverse of a square grid: an identity grid is carried
/// through the top-down sweep, the bottom-up sweep and the row
/// normalization.
pub open spec fn inverse_model<T: Scalar>(a: Seq<Seq<T>>) -> Seq<Seq<T>> {
    let n = a.len() as int;
    let s1 = upper_sweep_to(a, id_grid(n), n);
    let s2 = lower_sweep_to(s1.0, s1.1, n);
    normalize_to(s2.0, s2.1, n).1
}

/// Applies one Gauss row operation in place: row `cr` minus `ratio` times
/// row `p`.
fn row_combine<T: Scalar>(m: &mut Matrix<T>, cr: usize, p: usize, ratio: T)
    requires
        old(m).wf(),
        cr < old(m).rows,
        p < old(m).rows,
        cr != p,
    ensures
        final(m).wf(),
        final(m).rows == old(m).rows,
        final(m).columns == old(m).columns,
        final(m).rows_model() == grid_row_op(old(m).rows_model(), cr as int, p as int, ratio),
{
    let mut j: usize = 0;
    while j < m.columns
        invariant
            j <= m.columns,
            m.wf(),
            m.rows == old(m).rows,
            m.columns == old(m).columns,
            cr < m.rows,
            p < m.rows,
            cr != p,
            forall|l: int|
                0 <= l < j ==> #[trigger] m.ent(cr as int, l) == old(m).ent(cr as int, l).model_sub(
                    ratio.model_mul(old(m).ent(p as int, l)),
                ),
            forall|l: int| j <= l < m.columns ==> #[trigger] m.ent(cr as int, l) == old(m).ent(cr as int, l),
            forall|i: int, l: int|
                0 <= i < m.rows && 0 <= l < m.columns && i != cr ==> #[trigger] m.ent(i, l) == old(
                    m,
                ).ent(i, l),
        decreases m.columns - j,
    {
        let v = m.at(cr, j).minus(ratio.times(m.at(p, j)));
        m.set_entry(cr, j, v);
        j += 1;
    }
    proof {
        let g0 = old(m).rows_model();
        let g1 = grid_row_op(g0, cr as int, p as int, ratio);
        assert forall|i: int| 0 <= i < m.rows implies m.rows_model()[i] == g1[i] by {
            m.lemma_row_model_ent(i);
            old(m).lemma_row_model_ent(i);
            if i == cr {
                old(m).lemma_row_model_ent(p as int);
                assert(m.row_model(i) =~= Seq::new(
                    g0[cr as int].len(),
                    |l: int| g0[cr as int][l].model_sub(ratio.model_mul(g0[p as int][l])),
                ));
            } else {
                assert(m.row_model(i) =~= old(m).row_model(i));
            }
        }
        assert(m.rows_model() =~= g1);
    }
}

/// Scales row `i` by `ratio` in place.
fn row_scale<T: Scalar>(m: &mut Matrix<T>, i: usize, ratio: T)
    requires
        old(m).wf(),
        i < old(m).rows,
    ensures
        final(m).wf(),
        final(m).rows == old(m).rows,
        final(m).columns == old(m).columns,
        final(m).rows_model() == grid_scale(old(m).rows_model(), i as int, ratio),
{
    let mut j: usize = 0;
    while j < m.columns
        invariant
            j <= m.columns,
            m.wf(),
            m.rows == old(m).rows,
            m.columns == old(m).columns,
            i < m.rows,
            forall|l: int|
                0 <= l < j ==> #[trigger] m.ent(i as int, l) == old(m).ent(i as int, l).model_mul(
                    ratio,
                ),
            forall|l: int| j <= l < m.columns ==> #[trigger] m.ent(i as int, l) == old(m).ent(i as int, l),
            forall|a: int, l: int|
                0 <= a < m.rows && 0 <= l < m.columns && a != i ==> #[trigger] m.ent(a, l) == old(
                    m,
                ).ent(a, l),
        decreases m.columns - j,
    {
        let v = m.at(i, j).times(ratio);
        m.set_entry(i, j, v);
        j += 1;
    }
    proof {
        let g0 = old(m).rows_model();
        let g1 = grid_scale(g0, i as int, ratio);
        assert forall|a: int| 0 <= a < m.rows implies m.rows_model()[a] == g1[a] by {
            m.lemma_row_model_ent(a);
            old(m).lemma_row_model_ent(a);
            if a == i {
                assert(m.row_model(a) =~= Seq::new(
                    g0[i as int].len(),
                    |l: int| g0[i as int][l].model_mul(ratio),
                ));
            } else {
                assert(m.row_model(a) =~= old(m).row_model(a));
            }
        }
        assert(m.rows_model() =~= g1);
    }
}

/// A matrix whose entry `(i, j)` became `v` while every other entry stayed
/// presents the grid with that one entry written.
proof fn lemma_set_entry_grid<T: Scalar>(a: Matrix<T>, b: Matrix<T>, i: int, j: int, v: T)
    requires
        a.wf(),
        b.wf(),
        a.rows == b.rows,
        a.columns == b.columns,
        0 <= i < a.rows,
        0 <= j < a.columns,
        b.ent(i, j) == v,
        forall|x: int, y: int|
            0 <= x < a.rows && 0 <= y < a.columns && (x != i || y != j) ==> #[trigger] b.ent(x, y)
                == a.ent(x, y),
    ensures
        b.rows_model() == grid_set(a.rows_model(), i, j, v),
{
    let g1 = grid_set(a.rows_model(), i, j, v);
    assert forall|x: int| 0 <= x < b.rows implies b.rows_model()[x] == g1[x] by {
        a.lemma_row_model_ent(x);
        b.lemma_row_model_ent(x);
        if x == i {
            assert(b.row_model(x) =~= a.rows_model()[i].update(j, v));
        } else {
            assert(b.row_model(x) =~= a.row_model(x));
        }
    }
    assert(b.rows_model() =~= g1);
}

/// Runs the top-down elimination sweep on `tmp_to_inverse`, mirroring every
/// row operation on `inverse_matrix`.
pub fn inplace_upper_triangle_matrix<T: Scalar>(
    tmp_to_inverse: &mut Matrix<T>,
    inverse_matrix: &mut Matrix<T>,
)
    requires
        old(tmp_to_inverse).wf(),
        old(inverse_matrix).wf(),
        old(tmp_to_inverse).rows <= old(tmp_to_inverse).columns,
        old(inverse_matrix).rows == old(tmp_to_inverse).rows,
        old(inverse_matrix).columns == old(tmp_to_inverse).columns,
    ensures
        final(tmp_to_inverse).wf(),
        final(inverse_matrix).wf(),
        final(tmp_to_inverse).rows == old(tmp_to_inverse).rows,
        final(tmp_to_inverse).columns == old(tmp_to_inverse).columns,
        final(inverse_matrix).rows == old(inverse_matrix).rows,
        final(inverse_matrix).columns == old(inverse_matrix).columns,
        final(tmp_to_inverse).rows_model() == upper_sweep_to(
            old(tmp_to_inverse).rows_model(),
            old(inverse_matrix).rows_model(),
            old(tmp_to_inverse).rows as int,
        ).0,
        final(inverse_matrix).rows_model() == upper_sweep_to(
            old(tmp_to_inverse).rows_model(),
            old(inverse_matrix).rows_model(),
            old(tmp_to_inverse).rows as int,
        ).1,
{
    let ghost t0 = old(tmp_to_inverse).rows_model();
    let ghost v0 = old(inverse_matrix).rows_model();
    let n = tmp_to_inverse.len();
    let mut pivot_col: usize = 0;
    while pivot_col < n
        invariant
            pivot_col <= n,
            tmp_to_inverse.wf(),
            inverse_matrix.wf(),
            n == tmp_to_inverse.rows,
            tmp_to_inverse.rows == old(tmp_to_inverse).rows,
            tmp_to_inverse.columns == old(tmp_to_inverse).columns,
            inverse_matrix.rows == old(inverse_matrix).rows,
            inverse_matrix.columns == old(inverse_matrix).columns,
            old(tmp_to_inverse).rows <= old(tmp_to_inverse).columns,
            old(inverse_matrix).rows == old(tmp_to_inverse).rows,
            old(inverse_matrix).columns == old(tmp_to_inverse).columns,
            t0 == old(tmp_to_inverse).rows_model(),
            v0 == old(inverse_matrix).rows_model(),
            t0.len() == n,
            tmp_to_inverse.rows_model() == upper_sweep_to(t0, v0, pivot_col as int).0,
            inverse_matrix.rows_model() == upper_sweep_to(t0, v0, pivot_col as int).1,
        decreases n - pivot_col,
    {
        let ghost sp = upper_sweep_to(t0, v0, pivot_col as int);
        let mut current_row: usize = pivot_col;
        while current_row < n
            invariant
                pivot_col <= current_row <= n,
                pivot_col < n,
                tmp_to_inverse.wf(),
                inverse_matrix.wf(),
                n == tmp_to_inverse.rows,
                tmp_to_inverse.rows == old(tmp_to_inverse).rows,
                tmp_to_inverse.columns == old(tmp_to_inverse).columns,
                inverse_matrix.rows == old(inverse_matrix).rows,
                inverse_matrix.columns == old(inverse_matrix).columns,
                old(tmp_to_inverse).rows <= old(tmp_to_inverse).columns,
                old(inverse_matrix).rows == old(tmp_to_inverse).rows,
                old(inverse_matrix).columns == old(tmp_to_inverse).columns,
                sp == upper_sweep_to(t0, v0, pivot_col as int),
                t0.len() == n,
                tmp_to_inverse.rows_model() == upper_rows_to(
                    sp.0,
                    sp.1,
                    pivot_col as int,
                    current_row as int,
                ).0,
                inverse_matrix.rows_model() == upper_rows_to(
                    sp.0,
                    sp.1,
                    pivot_col as int,
                    current_row as int,
                ).1,
            decreases n - current_row,
        {
            let ghost mpre = *tmp_to_inverse;
            proof {
                mpre.lemma_row_model_ent(current_row as int);
                mpre.lemma_row_model_ent(pivot_col as int);
            }
            if current_row != pivot_col {
                let e = tmp_to_inverse.at(current_row, pivot_col);
                if !e.eq_val(T::zero()) {
                    let ratio = e.divided_by(tmp_to_inverse.at(pivot_col, pivot_col));
                    row_combine(tmp_to_inverse, current_row, pivot_col, ratio);
                    row_combine(inverse_matrix, current_row, pivot_col, ratio);
                }
            }
            current_row += 1;
        }
        pivot_col += 1;
    }
}

/// Runs the bottom-up elimination sweep on `tmp_to_inverse`, mirroring every
/// row operation on `inverse_matrix`.
pub fn inplace_lower_triangle_matrix<T: Scalar>(
    tmp_to_inverse: &mut Matrix<T>,
    inverse_matrix: &mut Matrix<T>,
)
    requires
        old(tmp_to_inverse).wf(),
        old(inverse_matrix).wf(),
        old(tmp_to_inverse).rows <= old(tmp_to_inverse).columns,
        old(inverse_matrix).rows == old(tmp_to_inverse).rows,
        old(inverse_matrix).columns == old(tmp_to_inverse).columns,
    ensures
        final(tmp_to_inverse).wf(),
        final(inverse_matrix).wf(),
        final(tmp_to_inverse).rows == old(tmp_to_inverse).rows,
        final(tmp_to_inverse).columns == old(tmp_to_inverse).columns,
        final(inverse_matrix).rows == old(inverse_matrix).rows,
        final(inverse_matrix).columns == old(inverse_matrix).columns,
        final(tmp_to_inverse).rows_model() == lower_sweep_to(
            old(tmp_to_inverse).rows_model(),
            old(inverse_matrix).rows_model(),
            old(tmp_to_inverse).rows as int,
        ).0,
        final(inverse_matrix).rows_model() == lower_sweep_to(
            old(tmp_to_inverse).rows_model(),
            old(inverse_matrix).rows_model(),
            old(tmp_to_inverse).rows as int,
        ).1,
{
    let ghost t0 = old(tmp_to_inverse).rows_model();
    let ghost v0 = old(inverse_matrix).rows_model();
    let n = tmp_to_inverse.len();
    let mut pi: usize = 0;
    while pi < n
        invariant
            pi <= n,
            tmp_to_inverse.wf(),
            inverse_matrix.wf(),
            n == tmp_to_inverse.rows,
            tmp_to_inverse.rows == old(tmp_to_inverse).rows,
            tmp_to_inverse.columns == old(tmp_to_inverse).columns,
            inverse_matrix.rows == old(inverse_matrix).rows,
            inverse_matrix.columns == old(inverse_matrix).columns,
            old(tmp_to_inverse).rows <= old(tmp_to_inverse).columns,
            old(inverse_matrix).rows == old(tmp_to_inverse).rows,
            old(inverse_matrix).columns == old(tmp_to_inverse).columns,
            t0 == old(tmp_to_inverse).rows_model(),
            v0 == old(inverse_matrix).rows_model(),
            t0.len() == n,
            tmp_to_inverse.rows_model() == lower_sweep_to(t0, v0, pi as int).0,
            inverse_matrix.rows_model() == lower_sweep_to(t0, v0, pi as int).1,
        decreases n - pi,
    {
        let pivot_col = n - 1 - pi;
        let ghost sp = lower_sweep_to(t0, v0, pi as int);
        let mut ci: usize = 0;
        while ci < n
            invariant
                ci <= n,
                pi < n,
                pivot_col == n - 1 - pi,
                tmp_to_inverse.wf(),
                inverse_matrix.wf(),
                n == tmp_to_inverse.rows,
                tmp_to_inverse.rows == old(tmp_to_inverse).rows,
                tmp_to_inverse.columns == old(tmp_to_inverse).columns,
                inverse_matrix.rows == old(inverse_matrix).rows,
                inverse_matrix.columns == old(inverse_matrix).columns,
                old(tmp_to_inverse).rows <= old(tmp_to_inverse).columns,
                old(inverse_matrix).rows == old(tmp_to_inverse).rows,
                old(inverse_matrix).columns == old(tmp_to_inverse).columns,
                sp == lower_sweep_to(t0, v0, pi as int),
                t0.len() == n,
                sp.0.len() == n,
                tmp_to_inverse.rows_model() == lower_rows_to(
                    sp.0,
                    sp.1,
                    pivot_col as int,
                    ci as int,
                ).0,
                inverse_matrix.rows_model() == lower_rows_to(
                    sp.0,
                    sp.1,
                    pivot_col as int,
                    ci as int,
                ).1,
            decreases n - ci,
        {
            let current_row = n - 1 - ci;
            let ghost mpre = *tmp_to_inverse;
            proof {
                mpre.lemma_row_model_ent(current_row as int);
                mpre.lemma_row_model_ent(pivot_col as int);
            }
            if current_row != pivot_col {
                let e = tmp_to_inverse.at(current_row, pivot_col);
                if !e.eq_val(T::zero()) {
                    let ratio = e.divided_by(tmp_to_inverse.at(pivot_col, pivot_col));
                    row_combine(tmp_to_inverse, current_row, pivot_col, ratio);
                    row_combine(inverse_matrix, current_row, pivot_col, ratio);
                }
            }
            ci += 1;
        }
        pi += 1;
    }
}

/// Decomposes the matrix into a unit-lower-triangular and an
/// upper-triangular factor by Doolittle elimination without pivoting; a zero
/// pivot is left where it stands, which is the known instability of the
/// unpivoted scheme.
pub fn lu_decomposition_matrix<T: Scalar>(to_decompose: &Matrix<T>) -> (r: Result<
    (Matrix<T>, Matrix<T>),
    &'static str,
>)
    requires
        to_decompose.wf(),
        to_decompose.rows >= 1,
        to_decompose.rows <= to_decompose.columns,
    ensures
        r is Ok,
        r matches Ok(lu) ==> {
            &&& lu.0.wf()
            &&& lu.1.wf()
            &&& lu.0.rows == to_decompose.rows
            &&& lu.0.columns == to_decompose.columns
            &&& lu.1.rows == to_decompose.rows
            &&& lu.1.columns == to_decompose.columns
            &&& lu.0.rows_model() == lu_sweep_to(
                zero_grid(to_decompose.rows as int, to_decompose.columns as int),
                to_decompose.rows_model(),
                to_decompose.rows as int,
            ).0
            &&& lu.1.rows_model() == lu_sweep_to(
                zero_grid(to_decompose.rows as int, to_decompose.columns as int),
                to_decompose.rows_model(),
                to_decompose.rows as int,
            ).1
        },
{
    let n = to_decompose.len();
    let buffer_len = to_decompose.content.len();
    proof {
        assert(to_decompose.rows * to_decompose.columns == buffer_len);
    }
    let mut lower: Matrix<T> = Matrix::zeroes(to_decompose.rows, to_decompose.columns);
    let mut upper: Matrix<T> = to_decompose.clone();
    let ghost l0 = zero_grid::<T>(to_decompose.rows as int, to_decompose.columns as int);
    let ghost u0 = to_decompose.rows_model();
    proof {
        assert forall|i: int| 0 <= i < n implies lower.rows_model()[i] == l0[i] by {
            lower.lemma_row_model_ent(i);
            assert(lower.row_model(i) =~= l0[i]);
        }
        assert(lower.rows_model() =~= l0);
        upper.lemma_rows_model_congruence(*to_decompose);
    }

    let mut pivot_col: usize = 0;
    while pivot_col < n
        invariant
            pivot_col <= n,
            lower.wf(),
            upper.wf(),
            n == to_decompose.rows,
            lower.rows == n,
            lower.columns == to_decompose.columns,
            upper.rows == n,
            upper.columns == to_decompose.columns,
            to_decompose.rows <= to_decompose.columns,
            l0 == zero_grid::<T>(to_decompose.rows as int, to_decompose.columns as int),
            u0 == to_decompose.rows_model(),
            u0.len() == n,
            lower.rows_model() == lu_sweep_to(l0, u0, pivot_col as int).0,
            upper.rows_model() == lu_sweep_to(l0, u0, pivot_col as int).1,
        decreases n - pivot_col,
    {
        let ghost lpre = lower;
        lower.set_entry(pivot_col, pivot_col, T::one());
        proof {
            lemma_set_entry_grid(
                lpre,
                lower,
                pivot_col as int,
                pivot_col as int,
                T::model_one(),
            );
        }
        let ghost sp = (lower.rows_model(), upper.rows_model());
        let mut current_row: usize = pivot_col;
        while current_row < n
            invariant
                pivot_col <= current_row <= n,
                pivot_col < n,
                lower.wf(),
                upper.wf(),
                n == to_decompose.rows,
                lower.rows == n,
                lower.columns == to_decompose.columns,
                upper.rows == n,
                upper.columns == to_decompose.columns,
                to_decompose.rows <= to_decompose.columns,
                lower.rows_model() == lu_rows_to(sp.0, sp.1, pivot_col as int, current_row as int).0,
                upper.rows_model() == lu_rows_to(sp.0, sp.1, pivot_col as int, current_row as int).1,
            decreases n - current_row,
        {
            let ghost upre = upper;
            let ghost lpre2 = lower;
            proof {
                upre.lemma_row_model_ent(current_row as int);
                upre.lemma_row_model_ent(pivot_col as int);
            }
            if current_row != pivot_col {
                let e = upper.at(current_row, pivot_col);
                if !e.eq_val(T::zero()) {
                    let ratio = e.divided_by(upper.at(pivot_col, pivot_col));
                    row_combine(&mut upper, current_row, pivot_col, ratio);
                    lower.set_entry(current_row, pivot_col, ratio);
                    proof {
                        lemma_set_entry_grid(
                            lpre2,
                            lower,
                            current_row as int,
                            pivot_col as int,
                            ratio,
                        );
                    }
                }
            }
            current_row += 1;
        }
        pivot_col += 1;
    }

    Ok((lower, upper))
}

/// Computes the determinant through the LU decomposition: the product of the
/// diagonal of the lower factor times the product of the diagonal of the
/// upper factor. A matrix that is not square is refused.
pub fn determinant<T: Scalar>(to_compute: &Matrix<T>) -> (r: Result<T, &'static str>)
    requires
        to_compute.wf(),
        to_compute.rows >= 1,
    ensures
        r is Err <==> to_compute.rows != to_compute.columns,
        r matches Ok(det) ==> det == determinant_model(to_compute.rows_model()),
{
    if to_compute.rows != to_compute.columns {
        return Err("Matrix is not squared");
    }

    match lu_decomposition_matrix(to_compute) {
        Ok((res_lower, res_upper)) => {
            proof {
                res_upper.lemma_row_model_ent(0);
                res_lower.lemma_row_model_ent(0);
            }
            let mut det_upper = res_upper.at(0, 0);
            let mut det_lower = res_lower.at(0, 0);

            let mut i: usize = 1;
            while i < res_upper.rows
                invariant
                    1 <= i <= res_upper.rows,
                    res_upper.wf(),
                    res_lower.wf(),
                    res_lower.rows == res_upper.rows,
                    res_lower.columns == res_upper.columns,
                    res_upper.rows == res_upper.columns,
                    det_upper == diag_prod_model(res_upper.rows_model(), i as int),
                    det_lower == diag_prod_model(res_lower.rows_model(), i as int),
                decreases res_upper.rows - i,
            {
                proof {
                    res_upper.lemma_row_model_ent(i as int);
                    res_lower.lemma_row_model_ent(i as int);
                }
                det_upper = det_upper.times(res_upper.at(i, i));
                det_lower = det_lower.times(res_lower.at(i, i));
                i += 1;
            }

            Ok(det_lower.times(det_upper))
        },
        Err(res) => {
            proof {
                assert(false);
            }
            Err(res)
        },
    }
}

/// The determinant of a square grid: the diagonal products of its two
/// Doolittle factors, multiplied.
pub open spec fn determinant_model<T: Scalar>(a: Seq<Seq<T>>) -> T {
    let n = a.len() as int;
    let lu = lu_sweep_to(zero_grid(n, n), a, n);
    diag_prod_model(lu.0, n).model_mul(diag_prod_model(lu.1, n))
}

/// Inverts a square matrix by Gauss-Jordan elimination without pivoting: a
/// top-down sweep, a bottom-up sweep, then a normalization of each row by
/// its diagonal entry, all mirrored on an identity matrix that becomes the
/// inverse.
pub fn slow_inverse_matrix<T: Scalar>(to_inverse: &Matrix<T>) -> (r: Matrix<T>)
    requires
        to_inverse.wf(),
        to_inverse.rows == to_inverse.columns,
        to_inverse.rows >= 1,
    ensures
        r.wf(),
        r.rows == to_inverse.rows,
        r.columns == to_inverse.columns,
        r.rows_model() == inverse_model(to_inverse.rows_model()),
{
    let n = to_inverse.content.len();
    let dim = to_inverse.columns;
    proof {
        assert(dim * dim == to_inverse.rows * to_inverse.columns);
    }
    let mut inverse_matrix: Matrix<T> = match Matrix::identity(dim) {
        Ok(m) => m,
        Err(_) => {
            proof {
                assert(false);
            }
            Matrix::empty()
        },
    };
    let mut tmp_to_inverse: Matrix<T> = to_inverse.clone();
    let ghost a0 = to_inverse.rows_model();
    proof {
        tmp_to_inverse.lemma_rows_model_congruence(*to_inverse);
        assert forall|i: int| 0 <= i < dim implies inverse_matrix.rows_model()[i] == id_grid::<
            T,
        >(dim as int)[i] by {
            inverse_matrix.lemma_row_model_ent(i);
            assert(inverse_matrix.row_model(i) =~= id_grid::<T>(dim as int)[i]);
        }
        assert(inverse_matrix.rows_model() =~= id_grid::<T>(dim as int));
    }

    inplace_upper_triangle_matrix(&mut tmp_to_inverse, &mut inverse_matrix);
    inplace_lower_triangle_matrix(&mut tmp_to_inverse, &mut inverse_matrix);

    let ghost s2 = (tmp_to_inverse.rows_model(), inverse_matrix.rows_model());

    let mut ind: usize = 0;
    while ind < tmp_to_inverse.rows
        invariant
            ind <= tmp_to_inverse.rows,
            tmp_to_inverse.wf(),
            inverse_matrix.wf(),
            tmp_to_inverse.rows == to_inverse.rows,
            tmp_to_inverse.columns == to_inverse.columns,
            inverse_matrix.rows == to_inverse.rows,
            inverse_matrix.columns == to_inverse.columns,
            to_inverse.rows == to_inverse.columns,
            tmp_to_inverse.rows_model() == normalize_to(s2.0, s2.1, ind as int).0,
            inverse_matrix.rows_model() == normalize_to(s2.0, s2.1, ind as int).1,
        decreases tmp_to_inverse.rows - ind,
    {
        let ghost mpre = tmp_to_inverse;
        proof {
            mpre.lemma_row_model_ent(ind as int);
        }
        let e = tmp_to_inverse.at(ind, ind);
        if !e.eq_val(T::one()) {
            let ratio = T::one().divided_by(e);
            row_scale(&mut tmp_to_inverse, ind, ratio);
            row_scale(&mut inverse_matrix, ind, ratio);
        }
        ind += 1;
    }

    inverse_matrix
}

/// Transposes the columns listed in `range` out of a rectangular grid of
/// rows; the worker parameters of the planned parallel version are accepted
/// and ignored, the computation being a plain column gather.
pub fn recursive_step<T: Scalar>(
    to_transp: &Vec<Vec<T>>,
    range: Vec<usize>,
    _level: usize,
    _number_threads: usize,
) -> (r: Vec<Vec<T>>)
    requires
        range@.len() > 0,
        forall|i: int|
            0 <= i < to_transp@.len() ==> #[trigger] to_transp@[i]@.len() == to_transp@[0]@.len(),
        forall|k: int|
            0 <= k < range@.len() ==> #[trigger] range@[k] < to_transp@[0]@.len() || to_transp@.len()
                == 0,
    ensures
        r@.len() == range@.len(),
        forall|k: int|
            0 <= k < range@.len() ==> #[trigger] r@[k]@ == Seq::new(
                to_transp@.len(),
                |row: int| to_transp@[row]@[range@[k] as int],
            ),
{
    let mut res: Vec<Vec<T>> = Vec::new();
    let mut k: usize = 0;
    while k < range.len()
        invariant
            k <= range@.len(),
            forall|i: int|
                0 <= i < to_transp@.len() ==> #[trigger] to_transp@[i]@.len()
                    == to_transp@[0]@.len(),
            forall|q: int|
                0 <= q < range@.len() ==> #[trigger] range@[q] < to_transp@[0]@.len()
                    || to_transp@.len() == 0,
            res@.len() == k,
            forall|q: int|
                0 <= q < k ==> #[trigger] res@[q]@ == Seq::new(
                    to_transp@.len(),
                    |row: int| to_transp@[row]@[range@[q] as int],
                ),
        decreases range@.len() - k,
    {
        let col = range[k];
        let mut column: Vec<T> = Vec::new();
        let mut row: usize = 0;
        while row < to_transp.len()
            invariant
                row <= to_transp@.len(),
                col < to_transp@[0]@.len() || to_transp@.len() == 0,
                forall|i: int|
                    0 <= i < to_transp@.len() ==> #[trigger] to_transp@[i]@.len()
                        == to_transp@[0]@.len(),
                column@.len() == row,
                forall|i: int|
                    0 <= i < row ==> #[trigger] column@[i] == to_transp@[i]@[col as int],
            decreases to_transp@.len() - row,
        {
            column.push(to_transp[row][col]);
            row += 1;
        }
        res.push(column);
        proof {
            assert(res@[k as int]@ =~= Seq::new(
                to_transp@.len(),
                |row: int| to_transp@[row]@[range@[k as int] as int],
            ));
        }
        k += 1;
    }
    res
}

} // verus!
