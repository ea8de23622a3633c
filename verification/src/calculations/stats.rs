//! Covariance estimation and the multivariate Gaussian density.

use vstd::prelude::*;

use crate::calculations::linear_algebra::determinant;
use crate::calculations::linear_algebra::dot_product;
use crate::calculations::linear_algebra::slow_inverse_matrix;
use crate::calculations::matrix::Matrix;
use crate::scalar::Scalar;

verus! {

/// How many of the first `k` mask entries are set.
pub open spec fn ones_model(zs: Seq<u8>, k: int) -> int
    decreases k,
{
    if k <= 0 {
        0
    } else {
        ones_model(zs, k - 1) + zs[k - 1]
    }
}

/// The left fold over the first `k` rows of column `c`, adding the entry
/// where the mask is set and a zero where it is not.
pub open spec fn masked_col_sum_model<T: Scalar>(m: Matrix<T>, zs: Seq<u8>, c: int, k: int) -> T
    decreases k,
{
    if k <= 0 {
        T::model_zero()
    } else {
        masked_col_sum_model(m, zs, c, k - 1).model_add(
            if zs[k - 1] == 1 {
                m.ent(k - 1, c)
            } else {
                T::model_zero()
            },
        )
    }
}

/// The masked mean of column `c`: the masked sum divided by the mask count.
pub open spec fn means_zs_model<T: Scalar>(m: Matrix<T>, zs: Seq<u8>, c: int) -> T {
    masked_col_sum_model(m, zs, c, m.rows as int).model_div(
        T::model_from(ones_model(zs, zs.len() as int)),
    )
}

/// The left fold over the first `k` rows of the masked product of the
/// centered columns `c1` and `c2`.
pub open spec fn cov_pair_model<T: Scalar>(
    m: Matrix<T>,
    zs: Seq<u8>,
    means: Seq<T>,
    c1: int,
    c2: int,
    k: int,
) -> T
    decreases k,
{
    if k <= 0 {
        T::model_zero()
    } else {
        cov_pair_model(m, zs, means, c1, c2, k - 1).model_add(
            if zs[k - 1] == 1 {
                (m.ent(k - 1, c1).model_sub(means[c1])).model_mul(
                    m.ent(k - 1, c2).model_sub(means[c2]),
                )
            } else {
                T::model_zero()
            },
        )
    }
}

/// One entry of the masked population covariance: the masked product sum of
/// the two centered columns, divided by the mask count less one.
pub open spec fn cov_entry_model<T: Scalar>(m: Matrix<T>, zs: Seq<u8>, c1: int, c2: int) -> T {
    let means = Seq::new(m.columns as nat, |c: int| means_zs_model(m, zs, c));
    cov_pair_model(m, zs, means, c1, c2, m.rows as int).model_div(
        T::model_from(ones_model(zs, zs.len() as int)).model_sub(T::model_one()),
    )
}

/// The left fold over the first `k` rows of the responsibility-weighted
/// product of the centered columns `c1` and `c2`.
pub open spec fn weighted_pair_model<T: Scalar>(
    m: Matrix<T>,
    gammas: Seq<T>,
    means: Seq<T>,
    c1: int,
    c2: int,
    k: int,
) -> T
    decreases k,
{
    if k <= 0 {
        T::model_zero()
    } else {
        weighted_pair_model(m, gammas, means, c1, c2, k - 1).model_add(
            gammas[k - 1].model_mul(
                (m.ent(k - 1, c1).model_sub(means[c1])).model_mul(
                    m.ent(k - 1, c2).model_sub(means[c2]),
                ),
            ),
        )
    }
}

/// Computes the column-wise masked means: entries of rows whose mask is set
/// are summed (a zero is added for the others) and divided by the mask
/// count.
pub fn means_zs<T: Scalar>(a: &Matrix<T>, zs: &Vec<u8>) -> (r: Result<Vec<T>, &'static str>)
    requires
        a.wf(),
        a.rows >= 1,
        zs@.len() == a.rows,
        forall|i: int| 0 <= i < zs@.len() ==> #[trigger] zs@[i] <= 1,
    ensures
        r is Ok,
        r matches Ok(v) ==> {
            &&& v@.len() == a.columns
            &&& forall|c: int|
                0 <= c < a.columns ==> #[trigger] v@[c] == means_zs_model(*a, zs@, c)
        },
{
    let mut count: usize = 0;
    let mut i: usize = 0;
    while i < zs.len()
        invariant
            i <= zs@.len(),
            zs@.len() == a.rows,
            count == ones_model(zs@, i as int),
            count <= i,
            forall|k: int| 0 <= k < zs@.len() ==> #[trigger] zs@[k] <= 1,
        decreases zs@.len() - i,
    {
        count += zs[i] as usize;
        i += 1;
    }
    let number_attributes: T = T::from_count(count);

    let mut means: Vec<T> = Vec::new();
    let mut attr: usize = 0;
    while attr < a.columns
        invariant
            attr <= a.columns,
            a.wf(),
            a.rows >= 1,
            zs@.len() == a.rows,
            number_attributes == T::model_from(ones_model(zs@, zs@.len() as int)),
            means@.len() == attr,
            forall|c: int| 0 <= c < attr ==> #[trigger] means@[c] == means_zs_model(*a, zs@, c),
        decreases a.columns - attr,
    {
        let mut col: T = T::zero();
        let mut row: usize = 0;
        while row < a.rows
            invariant
                row <= a.rows,
                attr < a.columns,
                a.wf(),
                zs@.len() == a.rows,
                col == masked_col_sum_model(*a, zs@, attr as int, row as int),
            decreases a.rows - row,
        {
            let term = if zs[row] == 1 {
                self_at(a, row, attr)
            } else {
                T::zero()
            };
            col = col.plus(term);
            row += 1;
        }
        means.push(col.divided_by(number_attributes));
        attr += 1;
    }

    Ok(means)
}

/// Reads one entry (a helper keeping borrowings simple).
fn self_at<T: Scalar>(a: &Matrix<T>, i: usize, j: usize) -> (r: T)
    requires
        a.wf(),
        i < a.rows,
        j < a.columns,
    ensures
        r == a.ent(i as int, j as int),
{
    a.at(i, j)
}

/// Computes the masked population covariance of the columns of `a`: column
/// means are taken over the rows whose mask entry is set, and every entry is
/// normalized by the mask count less one. Both mirror entries are written
/// together, so the result is symmetric by construction.
pub fn covariance<T: Scalar>(a: &Matrix<T>, zs: &Vec<u8>) -> (r: Matrix<T>)
    requires
        a.wf(),
        a.rows >= 1,
        a.columns * a.columns <= usize::MAX,
        zs@.len() == a.rows,
        forall|i: int| 0 <= i < zs@.len() ==> #[trigger] zs@[i] <= 1,
    ensures
        r.wf(),
        r.rows == a.columns,
        r.columns == a.columns,
        forall|c1: int, c2: int|
            0 <= c1 < a.columns && 0 <= c2 < a.columns ==> #[trigger] r.ent(c1, c2) == (if c1
                >= c2 {
                cov_entry_model(*a, zs@, c1, c2)
            } else {
                cov_entry_model(*a, zs@, c2, c1)
            }),
{
    let mut cov_ma: Matrix<T> = Matrix::zeroes(a.columns, a.columns);
    let means = match means_zs(a, zs) {
        Ok(m) => m,
        Err(_) => {
            proof {
                assert(false);
            }
            Vec::new()
        },
    };
    let ghost means_seq = Seq::new(a.columns as nat, |c: int| means_zs_model(*a, zs@, c));
    proof {
        assert(means@ =~= means_seq);
    }

    let mut count: usize = 0;
    let mut i: usize = 0;
    while i < zs.len()
        invariant
            i <= zs@.len(),
            zs@.len() == a.rows,
            count == ones_model(zs@, i as int),
            count <= i,
            forall|k: int| 0 <= k < zs@.len() ==> #[trigger] zs@[k] <= 1,
        decreases zs@.len() - i,
    {
        count += zs[i] as usize;
        i += 1;
    }
    let denominator: T = T::from_count(count).minus(T::one());

    let mut col1: usize = 0;
    while col1 < a.columns
        invariant
            col1 <= a.columns,
            a.wf(),
            a.rows >= 1,
            zs@.len() == a.rows,
            means@ == means_seq,
            means_seq == Seq::new(a.columns as nat, |c: int| means_zs_model(*a, zs@, c)),
            means@.len() == a.columns,
            denominator == T::model_from(ones_model(zs@, zs@.len() as int)).model_sub(
                T::model_one(),
            ),
            cov_ma.wf(),
            cov_ma.rows == a.columns,
            cov_ma.columns == a.columns,
            forall|x: int, y: int|
                0 <= x < a.columns && 0 <= y < a.columns && (if x >= y {
                    x
                } else {
                    y
                }) < col1 ==> #[trigger] cov_ma.ent(x, y) == (if x >= y {
                    cov_entry_model(*a, zs@, x, y)
                } else {
                    cov_entry_model(*a, zs@, y, x)
                }),
        decreases a.columns - col1,
    {
        let mut col2: usize = 0;
        while col2 <= col1
            invariant
                col2 <= col1 + 1,
                col1 < a.columns,
                a.wf(),
                a.rows >= 1,
                zs@.len() == a.rows,
                means@ == means_seq,
                means_seq == Seq::new(a.columns as nat, |c: int| means_zs_model(*a, zs@, c)),
                means@.len() == a.columns,
                denominator == T::model_from(ones_model(zs@, zs@.len() as int)).model_sub(
                    T::model_one(),
                ),
                cov_ma.wf(),
                cov_ma.rows == a.columns,
                cov_ma.columns == a.columns,
                forall|x: int, y: int|
                    0 <= x < a.columns && 0 <= y < a.columns && (if x >= y {
                        x
                    } else {
                        y
                    }) < col1 ==> #[trigger] cov_ma.ent(x, y) == (if x >= y {
                        cov_entry_model(*a, zs@, x, y)
                    } else {
                        cov_entry_model(*a, zs@, y, x)
                    }),
                forall|y: int|
                    0 <= y < col2 ==> #[trigger] cov_ma.ent(col1 as int, y) == cov_entry_model(
                        *a,
                        zs@,
                        col1 as int,
                        y,
                    ),
                forall|y: int|
                    0 <= y < col2 ==> #[trigger] cov_ma.ent(y, col1 as int) == cov_entry_model(
                        *a,
                        zs@,
                        col1 as int,
                        y,
                    ),
            decreases col1 + 1 - col2,
        {
            let mut sum: T = T::zero();
            let mut row: usize = 0;
            while row < a.rows
                invariant
                    row <= a.rows,
                    col1 < a.columns,
                    col2 <= col1,
                    a.wf(),
                    zs@.len() == a.rows,
                    means@ == means_seq,
                    means_seq == Seq::new(a.columns as nat, |c: int| means_zs_model(*a, zs@, c)),
                    means@.len() == a.columns,
                    sum == cov_pair_model(*a, zs@, means_seq, col1 as int, col2 as int, row as int),
                decreases a.rows - row,
            {
                let term = if zs[row] == 1 {
                    (self_at(a, row, col1).minus(means[col1])).times(
                        self_at(a, row, col2).minus(means[col2]),
                    )
                } else {
                    T::zero()
                };
                sum = sum.plus(term);
                row += 1;
            }
            let v = sum.divided_by(denominator);
            cov_ma.set_entry(col1, col2, v);
            cov_ma.set_entry(col2, col1, v);
            proof {
                assert(Seq::new(a.columns as nat, |c: int| means_zs_model(*a, zs@, c))
                    =~= means_seq);
                assert(v == cov_entry_model(*a, zs@, col1 as int, col2 as int));
                assert(cov_ma.ent(col1 as int, col2 as int) == v);
                assert(cov_ma.ent(col2 as int, col1 as int) == v);
            }
            col2 += 1;
        }
        col1 += 1;
    }

    cov_ma
}

/// Computes the responsibility-weighted covariance of the columns of `a`
/// around externally supplied means; the caller normalizes by the effective
/// count afterwards. Both mirror entries are written together.
pub fn covariance_no_z<T: Scalar>(a: &Matrix<T>, gammas: &[T], means: &[T]) -> (r: Matrix<T>)
    requires
        a.wf(),
        a.rows >= 1,
        a.columns * a.columns <= usize::MAX,
        gammas@.len() >= a.rows,
        means@.len() >= a.columns,
    ensures
        r.wf(),
        r.rows == a.columns,
        r.columns == a.columns,
        forall|c1: int, c2: int|
            0 <= c1 < a.columns && 0 <= c2 < a.columns ==> #[trigger] r.ent(c1, c2) == (if c1
                >= c2 {
                weighted_pair_model(*a, gammas@, means@, c1, c2, a.rows as int)
            } else {
                weighted_pair_model(*a, gammas@, means@, c2, c1, a.rows as int)
            }),
{
    let mut cov_ma: Matrix<T> = Matrix::zeroes(a.columns, a.columns);

    let mut col1: usize = 0;
    while col1 < a.columns
        invariant
            col1 <= a.columns,
            a.wf(),
            a.rows >= 1,
            gammas@.len() >= a.rows,
            means@.len() >= a.columns,
            cov_ma.wf(),
            cov_ma.rows == a.columns,
            cov_ma.columns == a.columns,
            forall|x: int, y: int|
                0 <= x < a.columns && 0 <= y < a.columns && (if x >= y {
                    x
                } else {
                    y
                }) < col1 ==> #[trigger] cov_ma.ent(x, y) == (if x >= y {
                    weighted_pair_model(*a, gammas@, means@, x, y, a.rows as int)
                } else {
                    weighted_pair_model(*a, gammas@, means@, y, x, a.rows as int)
                }),
        decreases a.columns - col1,
    {
        let mut col2: usize = 0;
        while col2 <= col1
            invariant
                col2 <= col1 + 1,
                col1 < a.columns,
                a.wf(),
                a.rows >= 1,
                gammas@.len() >= a.rows,
                means@.len() >= a.columns,
                cov_ma.wf(),
                cov_ma.rows == a.columns,
                cov_ma.columns == a.columns,
                forall|x: int, y: int|
                    0 <= x < a.columns && 0 <= y < a.columns && (if x >= y {
                        x
                    } else {
                        y
                    }) < col1 ==> #[trigger] cov_ma.ent(x, y) == (if x >= y {
                        weighted_pair_model(*a, gammas@, means@, x, y, a.rows as int)
                    } else {
                        weighted_pair_model(*a, gammas@, means@, y, x, a.rows as int)
                    }),
                forall|y: int|
                    0 <= y < col2 ==> #[trigger] cov_ma.ent(col1 as int, y) == weighted_pair_model(
                        *a,
                        gammas@,
                        means@,
                        col1 as int,
                        y,
                        a.rows as int,
                    ),
                forall|y: int|
                    0 <= y < col2 ==> #[trigger] cov_ma.ent(y, col1 as int) == weighted_pair_model(
                        *a,
                        gammas@,
                        means@,
                        col1 as int,
                        y,
                        a.rows as int,
                    ),
            decreases col1 + 1 - col2,
        {
            let mut sum: T = T::zero();
            let mut row: usize = 0;
            while row < a.rows
                invariant
                    row <= a.rows,
                    col1 < a.columns,
                    col2 <= col1,
                    a.wf(),
                    gammas@.len() >= a.rows,
                    means@.len() >= a.columns,
                    sum == weighted_pair_model(
                        *a,
                        gammas@,
                        means@,
                        col1 as int,
                        col2 as int,
                        row as int,
                    ),
                decreases a.rows - row,
            {
                let term = gammas[row].times(
                    (self_at(a, row, col1).minus(means[col1])).times(
                        self_at(a, row, col2).minus(means[col2]),
                    ),
                );
                sum = sum.plus(term);
                row += 1;
            }
            cov_ma.set_entry(col1, col2, sum);
            cov_ma.set_entry(col2, col1, sum);
            col2 += 1;
        }
        col1 += 1;
    }

    cov_ma
}

/// Row `row` of the data, centered around the supplied means.
pub open spec fn centered_row_model<T: Scalar>(data: Matrix<T>, means: Seq<T>, row: int) -> Seq<
    T,
> {
    Seq::new(data.columns as nat, |c: int| data.ent(row, c).model_sub(means[c]))
}

/// The constant factor of the density: `(2 pi) ^ (-d / 2)` times
/// `det ^ (-1/2)`, evaluated with the scalar operations of the instance.
pub open spec fn gaussian_const_model<T: Scalar>(cov: Matrix<T>) -> T {
    let two = T::model_from(2);
    let pi = T::model_pi();
    let number_rows = T::model_from(cov.rows as int);
    let const1 = two.model_mul(pi).model_powf(number_rows.model_neg().model_div(two));
    let const2 = crate::calculations::linear_algebra::determinant_model(cov.rows_model()).model_powf(T::model_half().model_neg());
    const1.model_mul(const2)
}

/// The density value for one data row: the centered row is taken through
/// the inverse covariance, folded against itself, divided by minus two and
/// exponentiated, then scaled by the constant factor.
pub open spec fn gaussian_row_model<T: Scalar>(
    data: Matrix<T>,
    cov: Matrix<T>,
    means: Seq<T>,
    row: int,
) -> T {
    let inv = crate::calculations::linear_algebra::inverse_model(cov.rows_model());
    let centered = centered_row_model(data, means, row);
    let data_times_inv = Seq::new(
        cov.rows as nat,
        |j: int| crate::calculations::linear_algebra::dot_model(centered, crate::calculations::linear_algebra::grid_col_model(inv, j)),
    );
    let times_data = crate::calculations::linear_algebra::dot_model(data_times_inv, centered).model_div(
        T::model_from(2).model_neg(),
    );
    gaussian_const_model(cov).model_mul(times_data.model_exp())
}

/// Evaluates the multivariate Gaussian density with the given covariance and
/// means at every row of `data`; a covariance matrix that is not square is
/// refused.
pub fn slow_multivariate_gaussian<T: Scalar>(
    data: &Matrix<T>,
    covariance: &Matrix<T>,
    means: &[T],
) -> (r: Result<Vec<T>, &'static str>)
    requires
        data.wf(),
        covariance.wf(),
        covariance.rows >= 1,
        covariance.rows == covariance.columns ==> means@.len() == data.columns && data.columns
            == covariance.rows,
    ensures
        r is Err <==> covariance.rows != covariance.columns,
        r matches Ok(v) ==> {
            &&& v@.len() == data.rows
            &&& forall|row: int|
                0 <= row < data.rows ==> #[trigger] v@[row] == gaussian_row_model(
                    *data,
                    *covariance,
                    means@,
                    row,
                )
        },
{
    let pi: T = T::pi();
    let two: T = T::from_count(2);
    let number_rows: T = T::from_count(covariance.len());

    let det: T = match determinant(covariance) {
        Ok(d) => d,
        Err(err) => {
            return Err(err);
        },
    };

    let const1: T = two.times(pi).powf(number_rows.neg().divided_by(two));
    let const2: T = det.powf(T::half().neg());
    let const_final = const1.times(const2);

    let inverse_covariance = slow_inverse_matrix(covariance);

    let mut copy_data = data.clone();
    let mut col: usize = 0;
    while col < means.len()
        invariant
            col <= means@.len(),
            data.wf(),
            means@.len() == data.columns,
            copy_data.wf(),
            copy_data.rows == data.rows,
            copy_data.columns == data.columns,
            forall|i: int, c: int|
                0 <= i < data.rows && 0 <= c < col ==> #[trigger] copy_data.ent(i, c) == data.ent(
                    i,
                    c,
                ).model_sub(means@[c]),
            forall|i: int, c: int|
                0 <= i < data.rows && col <= c < data.columns ==> #[trigger] copy_data.ent(i, c)
                    == data.ent(i, c),
        decreases means@.len() - col,
    {
        let mean = means[col];
        let mut row: usize = 0;
        while row < copy_data.rows
            invariant
                row <= copy_data.rows,
                col < means@.len(),
                data.wf(),
                means@.len() == data.columns,
                copy_data.wf(),
                copy_data.rows == data.rows,
                copy_data.columns == data.columns,
                mean == means@[col as int],
                forall|i: int, c: int|
                    0 <= i < data.rows && 0 <= c < col ==> #[trigger] copy_data.ent(i, c)
                        == data.ent(i, c).model_sub(means@[c]),
                forall|i: int, c: int|
                    0 <= i < data.rows && col < c < data.columns ==> #[trigger] copy_data.ent(i, c)
                        == data.ent(i, c),
                forall|i: int|
                    0 <= i < row ==> #[trigger] copy_data.ent(i, col as int) == data.ent(
                        i,
                        col as int,
                    ).model_sub(means@[col as int]),
                forall|i: int|
                    row <= i < data.rows ==> #[trigger] copy_data.ent(i, col as int) == data.ent(
                        i,
                        col as int,
                    ),
            decreases copy_data.rows - row,
        {
            let v = copy_data.at(row, col).minus(mean);
            copy_data.set_entry(row, col, v);
            row += 1;
        }
        col += 1;
    }

    let ghost inv = crate::calculations::linear_algebra::inverse_model(covariance.rows_model());

    let mut covariance_cols: Vec<Vec<T>> = Vec::new();
    let mut idx: usize = 0;
    while idx < covariance.len()
        invariant
            idx <= covariance.rows,
            covariance.wf(),
            covariance.rows == covariance.columns,
            inverse_covariance.wf(),
            inverse_covariance.rows == covariance.rows,
            inverse_covariance.columns == covariance.columns,
            inverse_covariance.rows_model() == inv,
            covariance_cols@.len() == idx,
            forall|j: int|
                0 <= j < idx ==> #[trigger] covariance_cols@[j]@ == crate::calculations::linear_algebra::grid_col_model(inv, j),
        decreases covariance.rows - idx,
    {
        let c = inverse_covariance.get_col(idx);
        proof {
            assert forall|i: int| 0 <= i < inverse_covariance.rows implies c.content@[i] == inv[i][idx as int] by {
                inverse_covariance.lemma_row_model_ent(i);
            }
            assert(c.content@ =~= crate::calculations::linear_algebra::grid_col_model(inv, idx as int));
        }
        covariance_cols.push(c.content);
        idx += 1;
    }

    let minus_two = two.neg();

    proof {
        assert forall|q: int| 0 <= q < inv.len() implies (#[trigger] inv[q]).len()
            == covariance.rows by {
            inverse_covariance.lemma_row_model_ent(q);
        }
    }

    let mut likelihoods: Vec<T> = Vec::new();
    let mut row: usize = 0;
    while row < data.rows
        invariant
            row <= data.rows,
            inv.len() == covariance.rows,
            forall|q: int| 0 <= q < inv.len() ==> (#[trigger] inv[q]).len() == covariance.rows,
            data.wf(),
            covariance.wf(),
            covariance.rows == covariance.columns,
            means@.len() == data.columns,
            data.columns == covariance.rows,
            copy_data.wf(),
            copy_data.rows == data.rows,
            copy_data.columns == data.columns,
            forall|i: int, c: int|
                0 <= i < data.rows && 0 <= c < data.columns ==> #[trigger] copy_data.ent(i, c)
                    == data.ent(i, c).model_sub(means@[c]),
            covariance_cols@.len() == covariance.rows,
            forall|j: int|
                0 <= j < covariance.rows ==> #[trigger] covariance_cols@[j]@ == crate::calculations::linear_algebra::grid_col_model(
                    inv,
                    j,
                ),
            inv == crate::calculations::linear_algebra::inverse_model(covariance.rows_model()),
            minus_two == T::model_from(2).model_neg(),
            const_final == gaussian_const_model(*covariance),
            likelihoods@.len() == row,
            forall|i: int|
                0 <= i < row ==> #[trigger] likelihoods@[i] == gaussian_row_model(
                    *data,
                    *covariance,
                    means@,
                    i,
                ),
        decreases data.rows - row,
    {
        let centered = copy_data.get_row(row);
        proof {
            copy_data.lemma_row_model_ent(row as int);
            assert(centered@ =~= centered_row_model(*data, means@, row as int));
        }
        let mut data_times_inv_conv: Vec<T> = Vec::new();
        let mut j: usize = 0;
        while j < covariance_cols.len()
            invariant
                j <= covariance_cols@.len(),
                covariance_cols@.len() == covariance.rows,
                data.columns == covariance.rows,
                centered@.len() == data.columns,
                centered@ == centered_row_model(*data, means@, row as int),
                forall|q: int|
                    0 <= q < covariance_cols@.len() ==> #[trigger] covariance_cols@[q]@
                        == crate::calculations::linear_algebra::grid_col_model(inv, q),
                inv == crate::calculations::linear_algebra::inverse_model(covariance.rows_model()),
                inv.len() == covariance.rows,
                forall|q: int| 0 <= q < inv.len() ==> (#[trigger] inv[q]).len() == covariance.rows,
                data_times_inv_conv@.len() == j,
                forall|q: int|
                    0 <= q < j ==> #[trigger] data_times_inv_conv@[q] == crate::calculations::linear_algebra::dot_model(
                        centered@,
                        crate::calculations::linear_algebra::grid_col_model(inv, q),
                    ),
            decreases covariance_cols@.len() - j,
        {
            let cov = &covariance_cols[j];
            match dot_product(centered.as_slice(), cov.as_slice()) {
                Ok(d) => {
                    data_times_inv_conv.push(d);
                },
                Err(_) => {
                    proof {
                        assert(covariance_cols@[j as int]@.len() == covariance.rows);
                        assert(false);
                    }
                },
            }
            j += 1;
        }
        let times_data: T = match dot_product(
            data_times_inv_conv.as_slice(),
            centered.as_slice(),
        ) {
            Ok(d) => d.divided_by(minus_two),
            Err(_) => {
                proof {
                    assert(false);
                }
                T::zero()
            },
        };
        likelihoods.push(const_final.times(times_data.exp()));
        proof {
            assert(data_times_inv_conv@ =~= Seq::new(
                covariance.rows as nat,
                |q: int| crate::calculations::linear_algebra::dot_model(centered_row_model(*data, means@, row as int), crate::calculations::linear_algebra::grid_col_model(inv, q)),
            ));
        }
        row += 1;
    }

    Ok(likelihoods)
}

} // verus!
