//! Early, plain-vector versions of the numeric routines, kept alongside the
//! matrix-based ones.

use vstd::prelude::*;

use crate::scalar::Scalar;

verus! {

/// Computes the squared Euclidean distance between two vectors, cut to the
/// shorter one.
pub fn eucleadian_distance<T: Scalar>(a: &Vec<T>, b: &Vec<T>) -> (r: Result<T, &'static str>)
    ensures
        r is Ok,
        r matches Ok(v) ==> v == crate::models::distances::eucleadian_distance_model(a@, b@),
{
    crate::models::distances::eucleadian_distance(a.as_slice(), b.as_slice())
}

/// Computes the dot product of two vectors, cut to the shorter one.
pub fn dot_product<T: Scalar>(a: Vec<T>, b: Vec<T>) -> (r: Result<T, &'static str>)
    ensures
        r is Ok,
        r matches Ok(v) ==> v == crate::calculations::linear_algebra::dot_model(
            a@.subrange(
                0,
                if a@.len() <= b@.len() {
                    a@.len() as int
                } else {
                    b@.len() as int
                },
            ),
            b@.subrange(
                0,
                if a@.len() <= b@.len() {
                    a@.len() as int
                } else {
                    b@.len() as int
                },
            ),
        ),
{
    let n = if a.len() <= b.len() {
        a.len()
    } else {
        b.len()
    };
    let mut res: T = T::zero();
    let mut i: usize = 0;
    while i < n
        invariant
            i <= n,
            n <= a@.len(),
            n <= b@.len(),
            res == crate::calculations::linear_algebra::dot_model(
                a@.subrange(0, i as int),
                b@.subrange(0, i as int),
            ),
        decreases n - i,
    {
        res = res.plus(a[i].times(b[i]));
        proof {
            assert(a@.subrange(0, i + 1).drop_last() =~= a@.subrange(0, i as int));
            assert(b@.subrange(0, i + 1).drop_last() =~= b@.subrange(0, i as int));
        }
        i += 1;
    }
    Ok(res)
}

/// The masked sum of one feature row: entries whose mask is set are scaled
/// by the mask value (a one) and added; the others are passed over.
pub open spec fn slow_means_sum_model<T: Scalar>(row: Seq<T>, zs: Seq<u8>, k: int) -> T
    decreases k,
{
    if k <= 0 {
        T::model_zero()
    } else {
        let prev = slow_means_sum_model(row, zs, k - 1);
        if zs[k - 1] == 1 {
            prev.model_add(T::model_from(1).model_mul(row[k - 1]))
        } else {
            prev
        }
    }
}

/// The mask-scaled centered feature row.
pub open spec fn slow_centered_model<T: Scalar>(row: Seq<T>, zs: Seq<u8>, mean: T) -> Seq<T> {
    Seq::new(row.len(), |j: int| T::model_from(zs[j] as int).model_mul(row[j].model_sub(mean)))
}

/// The masked fold of the product of two centered feature rows.
pub open spec fn slow_dp_model<T: Scalar>(v1: Seq<T>, v2: Seq<T>, zs: Seq<u8>, k: int) -> T
    decreases k,
{
    if k <= 0 {
        T::model_zero()
    } else {
        let prev = slow_dp_model(v1, v2, zs, k - 1);
        if zs[k - 1] == 1 {
            prev.model_add(T::model_from(1).model_mul(v1[k - 1].model_mul(v2[k - 1])))
        } else {
            prev
        }
    }
}

/// The count of set mask entries.
pub open spec fn slow_ones_model(zs: Seq<u8>, k: int) -> int
    decreases k,
{
    if k <= 0 {
        0
    } else {
        slow_ones_model(zs, k - 1) + zs[k - 1]
    }
}

/// The masked mean of feature row `ind`.
pub open spec fn slow_mean_model<T: Scalar>(a: Seq<Seq<T>>, zs: Seq<u8>, ind: int) -> T {
    slow_means_sum_model(a[ind], zs, zs.len() as int).model_div(
        T::model_from(slow_ones_model(zs, zs.len() as int)),
    )
}

/// The covariance normalizer: the mask count less one, computed as a count
/// conversion when at least one entry is set and as zero minus one when none
/// is.
pub open spec fn slow_denom_model<T: Scalar>(zs: Seq<u8>) -> T {
    let ones = slow_ones_model(zs, zs.len() as int);
    if ones >= 1 {
        T::model_from(ones - 1)
    } else {
        T::model_zero().model_sub(T::model_one())
    }
}

/// One entry of the feature-by-feature covariance, for `lo <= hi`.
pub open spec fn slow_cov_entry_model<T: Scalar>(a: Seq<Seq<T>>, zs: Seq<u8>, lo: int, hi: int) -> T {
    let v1 = slow_centered_model(a[lo], zs, slow_mean_model(a, zs, lo));
    let v2 = slow_centered_model(a[hi], zs, slow_mean_model(a, zs, hi));
    slow_dp_model(v1, v2, zs, zs.len() as int).model_div(slow_denom_model(zs))
}

/// Computes the covariance of a feature-major table (one inner vector per
/// feature) over the samples whose mask entry is set; each unordered feature
/// pair is evaluated once and written to both mirror entries.
pub fn slow_covariance<T: Scalar>(a: &Vec<Vec<T>>, zs: &Vec<u8>) -> (r: Vec<Vec<T>>)
    requires
        forall|i: int| 0 <= i < a@.len() ==> #[trigger] a@[i]@.len() == zs@.len(),
        forall|i: int| 0 <= i < zs@.len() ==> #[trigger] zs@[i] <= 1,
    ensures
        r@.len() == a@.len(),
        forall|x: int| 0 <= x < a@.len() ==> #[trigger] r@[x]@.len() == a@.len(),
        forall|x: int, y: int|
            0 <= x < a@.len() && 0 <= y < a@.len() ==> #[trigger] r@[x]@[y]
                == slow_cov_entry_model(
                a@.map_values(|v: Vec<T>| v@),
                zs@,
                if x <= y {
                    x
                } else {
                    y
                },
                if x <= y {
                    y
                } else {
                    x
                },
            ),
{
    let ghost ag = a@.map_values(|v: Vec<T>| v@);
    let n = a.len();

    let mut count: usize = 0;
    let mut i: usize = 0;
    while i < zs.len()
        invariant
            i <= zs@.len(),
            count == slow_ones_model(zs@, i as int),
            count <= i,
            forall|k: int| 0 <= k < zs@.len() ==> #[trigger] zs@[k] <= 1,
        decreases zs@.len() - i,
    {
        count += zs[i] as usize;
        i += 1;
    }
    let denom: T = if count >= 1 {
        T::from_count(count - 1)
    } else {
        T::zero().minus(T::one())
    };

    let mut means: Vec<T> = Vec::new();
    let mut ind: usize = 0;
    while ind < n
        invariant
            ind <= n,
            n == a@.len(),
            ag == a@.map_values(|v: Vec<T>| v@),
            forall|k: int| 0 <= k < a@.len() ==> #[trigger] a@[k]@.len() == zs@.len(),
            count == slow_ones_model(zs@, zs@.len() as int),
            means@.len() == ind,
            forall|k: int| 0 <= k < ind ==> #[trigger] means@[k] == slow_mean_model(ag, zs@, k),
        decreases n - ind,
    {
        let feature = &a[ind];
        let mut sum: T = T::zero();
        let mut j: usize = 0;
        while j < feature.len()
            invariant
                j <= feature@.len(),
                feature@ == a@[ind as int]@,
                ind < a@.len(),
                ag == a@.map_values(|v: Vec<T>| v@),
                a@[ind as int]@.len() == zs@.len(),
                sum == slow_means_sum_model(ag[ind as int], zs@, j as int),
            decreases feature@.len() - j,
        {
            if zs[j] == 1 {
                sum = sum.plus(T::from_count(1).times(feature[j]));
            }
            j += 1;
        }
        means.push(sum.divided_by(T::from_count(count)));
        ind += 1;
    }

    let mut val_minus_mean: Vec<Vec<T>> = Vec::new();
    let mut ind: usize = 0;
    while ind < n
        invariant
            ind <= n,
            n == a@.len(),
            ag == a@.map_values(|v: Vec<T>| v@),
            forall|k: int| 0 <= k < a@.len() ==> #[trigger] a@[k]@.len() == zs@.len(),
            means@.len() == n,
            forall|k: int| 0 <= k < n ==> #[trigger] means@[k] == slow_mean_model(ag, zs@, k),
            val_minus_mean@.len() == ind,
            forall|k: int|
                0 <= k < ind ==> #[trigger] val_minus_mean@[k]@ == slow_centered_model(
                    ag[k],
                    zs@,
                    slow_mean_model(ag, zs@, k),
                ),
        decreases n - ind,
    {
        let feature = &a[ind];
        let current_mean = means[ind];
        let mut row: Vec<T> = Vec::new();
        let mut j: usize = 0;
        while j < feature.len()
            invariant
                j <= feature@.len(),
                feature@ == a@[ind as int]@,
                ind < a@.len(),
                ag == a@.map_values(|v: Vec<T>| v@),
                a@[ind as int]@.len() == zs@.len(),
                current_mean == slow_mean_model(ag, zs@, ind as int),
                row@.len() == j,
                forall|k: int|
                    0 <= k < j ==> #[trigger] row@[k] == T::model_from(zs@[k] as int).model_mul(
                        ag[ind as int][k].model_sub(slow_mean_model(ag, zs@, ind as int)),
                    ),
            decreases feature@.len() - j,
        {
            let z: u8 = zs[j];
            row.push(T::from_count(z as usize).times(feature[j].minus(current_mean)));
            j += 1;
        }
        proof {
            assert(row@ =~= slow_centered_model(
                ag[ind as int],
                zs@,
                slow_mean_model(ag, zs@, ind as int),
            ));
        }
        val_minus_mean.push(row);
        ind += 1;
    }

    let mut cov_ma: Vec<Vec<T>> = Vec::new();
    let mut x: usize = 0;
    while x < n
        invariant
            x <= n,
            n == a@.len(),
            ag == a@.map_values(|v: Vec<T>| v@),
            forall|k: int| 0 <= k < a@.len() ==> #[trigger] a@[k]@.len() == zs@.len(),
            denom == slow_denom_model::<T>(zs@),
            val_minus_mean@.len() == n,
            forall|k: int|
                0 <= k < n ==> #[trigger] val_minus_mean@[k]@ == slow_centered_model(
                    ag[k],
                    zs@,
                    slow_mean_model(ag, zs@, k),
                ),
            cov_ma@.len() == x,
            forall|p: int| 0 <= p < x ==> #[trigger] cov_ma@[p]@.len() == n,
            forall|p: int, q: int|
                0 <= p < x && 0 <= q < n ==> #[trigger] cov_ma@[p]@[q] == slow_cov_entry_model(
                    ag,
                    zs@,
                    if p <= q {
                        p
                    } else {
                        q
                    },
                    if p <= q {
                        q
                    } else {
                        p
                    },
                ),
        decreases n - x,
    {
        let mut row: Vec<T> = Vec::new();
        let mut y: usize = 0;
        while y < n
            invariant
                y <= n,
                x < n,
                n == a@.len(),
                ag == a@.map_values(|v: Vec<T>| v@),
                forall|k: int| 0 <= k < a@.len() ==> #[trigger] a@[k]@.len() == zs@.len(),
                denom == slow_denom_model::<T>(zs@),
                val_minus_mean@.len() == n,
                forall|k: int|
                    0 <= k < n ==> #[trigger] val_minus_mean@[k]@ == slow_centered_model(
                        ag[k],
                        zs@,
                        slow_mean_model(ag, zs@, k),
                    ),
                row@.len() == y,
                forall|q: int|
                    0 <= q < y ==> #[trigger] row@[q] == slow_cov_entry_model(
                        ag,
                        zs@,
                        if x <= q {
                            x as int
                        } else {
                            q
                        },
                        if x <= q {
                            q
                        } else {
                            x as int
                        },
                    ),
            decreases n - y,
        {
            let lo = if x <= y {
                x
            } else {
                y
            };
            let hi = if x <= y {
                y
            } else {
                x
            };
            let v1 = &val_minus_mean[lo];
            let v2 = &val_minus_mean[hi];
            let mut dp: T = T::zero();
            let mut j: usize = 0;
            while j < zs.len()
                invariant
                    j <= zs@.len(),
                    lo < n,
                    hi < n,
                    v1@ == val_minus_mean@[lo as int]@,
                    v2@ == val_minus_mean@[hi as int]@,
                    v1@.len() == zs@.len(),
                    v2@.len() == zs@.len(),
                    dp == slow_dp_model(v1@, v2@, zs@, j as int),
                decreases zs@.len() - j,
            {
                if zs[j] == 1 {
                    dp = dp.plus(T::from_count(1).times(v1[j].times(v2[j])));
                }
                j += 1;
            }
            row.push(dp.divided_by(denom));
            y += 1;
        }
        cov_ma.push(row);
        x += 1;
    }

    cov_ma
}

/// Transposes a rectangular table of rows.
pub fn slow_transpose<T: Scalar>(to_transp: &Vec<Vec<T>>) -> (r: Vec<Vec<T>>)
    requires
        to_transp@.len() > 0,
        forall|i: int|
            0 <= i < to_transp@.len() ==> #[trigger] to_transp@[i]@.len() == to_transp@[0]@.len(),
    ensures
        r@.len() == to_transp@[0]@.len(),
        forall|i: int| 0 <= i < r@.len() ==> #[trigger] r@[i]@.len() == to_transp@.len(),
        forall|i: int, j: int|
            0 <= i < r@.len() && 0 <= j < to_transp@.len() ==> #[trigger] r@[i]@[j]
                == to_transp@[j]@[i],
{
    let width = to_transp[0].len();
    let mut transpose: Vec<Vec<T>> = Vec::new();
    let mut i: usize = 0;
    while i < width
        invariant
            i <= width,
            width == to_transp@[0]@.len(),
            forall|k: int|
                0 <= k < to_transp@.len() ==> #[trigger] to_transp@[k]@.len()
                    == to_transp@[0]@.len(),
            transpose@.len() == i,
            forall|k: int| 0 <= k < i ==> #[trigger] transpose@[k]@.len() == to_transp@.len(),
            forall|k: int, j: int|
                0 <= k < i && 0 <= j < to_transp@.len() ==> #[trigger] transpose@[k]@[j]
                    == to_transp@[j]@[k],
        decreases width - i,
    {
        let mut row: Vec<T> = Vec::new();
        let mut j: usize = 0;
        while j < to_transp.len()
            invariant
                j <= to_transp@.len(),
                i < width,
                width == to_transp@[0]@.len(),
                forall|k: int|
                    0 <= k < to_transp@.len() ==> #[trigger] to_transp@[k]@.len()
                        == to_transp@[0]@.len(),
                row@.len() == j,
                forall|k: int| 0 <= k < j ==> #[trigger] row@[k] == to_transp@[k]@[i as int],
            decreases to_transp@.len() - j,
        {
            row.push(to_transp[j][i]);
            j += 1;
        }
        transpose.push(row);
        i += 1;
    }
    transpose
}

/// The placeholder inversion of the plain-vector family: it hands back an
/// empty table.
pub fn slow_inverse<T: Scalar>() -> (r: Vec<Vec<T>>)
    ensures
        r@.len() == 0,
{
    Vec::new()
}

/// One step of the running-minimum fold: the accumulator survives unless the
/// new entry is strictly smaller; an incomparable pair poisons the fold.
pub open spec fn min_step_model<T: Scalar>(acc: Option<T>, x: T) -> Option<T> {
    match acc {
        Option::None => Option::None,
        Option::Some(v) => {
            if !v.model_cmp_ok(x) {
                Option::None
            } else if x.model_lt(v) {
                Option::Some(x)
            } else {
                Option::Some(v)
            }
        },
    }
}

/// The running-minimum fold over all entries of the rows before `i` and the
/// first `j` entries of row `i`.
pub open spec fn min_fold_model<T: Scalar>(
    rows: Seq<Seq<T>>,
    acc: Option<T>,
    i: int,
    j: int,
) -> Option<T>
    decreases i, j,
{
    if j <= 0 {
        if i <= 0 {
            acc
        } else {
            min_fold_model(rows, acc, i - 1, rows[i - 1].len() as int)
        }
    } else {
        min_step_model(min_fold_model(rows, acc, i, j - 1), rows[i][j - 1])
    }
}

/// One step of the running-maximum fold: the accumulator survives only when
/// it is strictly greater than the new entry.
pub open spec fn max_step_model<T: Scalar>(acc: T, x: T) -> T {
    if x.model_lt(acc) {
        acc
    } else {
        x
    }
}

/// The running-maximum fold over all entries of the rows before `i` and the
/// first `j` entries of row `i`.
pub open spec fn max_fold_model<T: Scalar>(rows: Seq<Seq<T>>, acc: T, i: int, j: int) -> T
    decreases i, j,
{
    if j <= 0 {
        if i <= 0 {
            acc
        } else {
            max_fold_model(rows, acc, i - 1, rows[i - 1].len() as int)
        }
    } else {
        max_step_model(max_fold_model(rows, acc, i, j - 1), rows[i][j - 1])
    }
}

/// Finds the smallest entry of the table, folding from its first entry; the
/// first incomparable pair along the fold is reported as an error.
pub fn find_min<T: Scalar>(to_search: &Vec<Vec<T>>) -> (r: Result<T, &'static str>)
    requires
        to_search@.len() > 0,
        to_search@[0]@.len() > 0,
    ensures
        r matches Ok(v) ==> min_fold_model(
            to_search@.map_values(|v2: Vec<T>| v2@),
            Option::Some(to_search@[0]@[0]),
            to_search@.len() as int,
            0,
        ) == Option::Some(v),
        r is Err <==> min_fold_model(
            to_search@.map_values(|v2: Vec<T>| v2@),
            Option::Some(to_search@[0]@[0]),
            to_search@.len() as int,
            0,
        ) is None,
{
    let ghost rows = to_search@.map_values(|v2: Vec<T>| v2@);
    let mut res: T = to_search[0][0];
    let mut ok: bool = true;
    let mut i: usize = 0;
    while i < to_search.len()
        invariant
            i <= to_search@.len(),
            rows == to_search@.map_values(|v2: Vec<T>| v2@),
            to_search@.len() > 0,
            to_search@[0]@.len() > 0,
            (if ok {
                Option::Some(res)
            } else {
                Option::<T>::None
            }) == min_fold_model(rows, Option::Some(to_search@[0]@[0]), i as int, 0),
        decreases to_search@.len() - i,
    {
        let row_len = to_search[i].len();
        let mut j: usize = 0;
        while j < row_len
            invariant
                j <= row_len,
                i < to_search@.len(),
                row_len == to_search@[i as int]@.len(),
                rows == to_search@.map_values(|v2: Vec<T>| v2@),
                to_search@.len() > 0,
                to_search@[0]@.len() > 0,
                (if ok {
                    Option::Some(res)
                } else {
                    Option::<T>::None
                }) == min_fold_model(rows, Option::Some(to_search@[0]@[0]), i as int, j as int),
            decreases row_len - j,
        {
            let b = to_search[i][j];
            if ok {
                if !res.cmp_ok(b) {
                    ok = false;
                } else if b.lt(res) {
                    res = b;
                }
            }
            j += 1;
        }
        proof {
            assert(min_fold_model(rows, Option::Some(to_search@[0]@[0]), i + 1, 0)
                == min_fold_model(
                rows,
                Option::Some(to_search@[0]@[0]),
                i as int,
                rows[i as int].len() as int,
            ));
        }
        i += 1;
    }
    if ok {
        Ok(res)
    } else {
        Err("Encountered NaN")
    }
}

/// Finds the largest entry of the table, folding from its first entry; an
/// incomparable entry simply replaces the accumulator, as the strict
/// comparison fails.
pub fn find_max<T: Scalar>(to_search: &Vec<Vec<T>>) -> (r: T)
    requires
        to_search@.len() > 0,
        to_search@[0]@.len() > 0,
    ensures
        r == max_fold_model(
            to_search@.map_values(|v2: Vec<T>| v2@),
            to_search@[0]@[0],
            to_search@.len() as int,
            0,
        ),
{
    let ghost rows = to_search@.map_values(|v2: Vec<T>| v2@);
    let first_elem: T = to_search[0][0];
    let mut res: T = first_elem;
    let mut i: usize = 0;
    while i < to_search.len()
        invariant
            i <= to_search@.len(),
            rows == to_search@.map_values(|v2: Vec<T>| v2@),
            to_search@.len() > 0,
            to_search@[0]@.len() > 0,
            first_elem == to_search@[0]@[0],
            res == max_fold_model(rows, first_elem, i as int, 0),
        decreases to_search@.len() - i,
    {
        let row_len = to_search[i].len();
        let mut j: usize = 0;
        while j < row_len
            invariant
                j <= row_len,
                i < to_search@.len(),
                row_len == to_search@[i as int]@.len(),
                rows == to_search@.map_values(|v2: Vec<T>| v2@),
                to_search@.len() > 0,
                to_search@[0]@.len() > 0,
                first_elem == to_search@[0]@[0],
                res == max_fold_model(rows, first_elem, i as int, j as int),
            decreases row_len - j,
        {
            let b = to_search[i][j];
            if !b.lt(res) {
                res = b;
            }
            j += 1;
        }
        proof {
            assert(max_fold_model(rows, first_elem, i + 1, 0) == max_fold_model(
                rows,
                first_elem,
                i as int,
                rows[i as int].len() as int,
            ));
        }
        i += 1;
    }
    res
}

/// The index-recording scan: the accumulator starts at the first value and
/// is replaced by the position (not the value) of any entry smaller than it.
pub open spec fn biggest_model(s: Seq<usize>, k: int) -> usize
    decreases k,
{
    if k <= 1 {
        s[0]
    } else {
        let prev = biggest_model(s, k - 1);
        if s[k - 1] < prev {
            (k - 1) as usize
        } else {
            prev
        }
    }
}

/// Scans the vector as the index-recording fold describes.
pub fn biggest_elements(to_get: Vec<usize>) -> (r: usize)
    requires
        to_get@.len() > 0,
    ensures
        r == biggest_model(to_get@, to_get@.len() as int),
{
    let mut max: usize = to_get[0];

    let mut i: usize = 1;
    while i < to_get.len()
        invariant
            1 <= i <= to_get@.len() || (to_get@.len() == 1 && i == 1),
            to_get@.len() > 0,
            max == biggest_model(to_get@, i as int),
        decreases to_get@.len() - i,
    {
        if to_get[i] < max {
            max = i;
        }
        i += 1;
    }

    max
}

} // verus!
