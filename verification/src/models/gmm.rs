//! The Gaussian mixture model fitted by expectation-maximization.

use vstd::prelude::*;

use crate::calculations::matrix::Matrix;
use crate::calculations::stats::{covariance, covariance_no_z, means_zs, slow_multivariate_gaussian};
use crate::helpers::mean_squared_error;
use crate::models::kmeans::Kmeans;
use crate::scalar::Scalar;

verus! {

/// Law: the responsibility matrix `g` is the column normalization of the
/// matrix `pre`: both share their shape, and each entry of `g` is the
/// matching entry of `pre` divided by the sum of its column. In particular
/// every column of `g` sums to one wherever the scalar division
/// distributes over its column sum.
pub open spec fn is_column_normalization<T: Scalar>(g: Matrix<T>, pre: Matrix<T>) -> bool {
    &&& pre.wf()
    &&& pre.rows == g.rows
    &&& pre.columns == g.columns
    &&& forall|i: int, j: int|
        0 <= i < g.rows && 0 <= j < g.columns ==> #[trigger] g.ent(i, j) == pre.ent(
            i,
            j,
        ).model_div(crate::calculations::matrix::col_sum_model(pre, j, pre.rows as int))
}

/// Whether `pre` is the weighted density matrix of the given parameters:
/// entry `(i, j)` is the density of sample `j` under cluster `i`'s
/// covariance and mean row, scaled by cluster `i`'s mixture weight.
pub open spec fn is_weighted_density_matrix<T: Scalar>(
    pre: Matrix<T>,
    data: Matrix<T>,
    means: Matrix<T>,
    covs: Seq<Matrix<T>>,
    mixtures: Seq<T>,
) -> bool {
    &&& covs.len() == pre.rows
    &&& mixtures.len() == pre.rows
    &&& pre.columns == data.rows
    &&& forall|i: int, j: int|
        0 <= i < pre.rows && 0 <= j < pre.columns ==> #[trigger] pre.ent(i, j)
            == crate::calculations::stats::gaussian_row_model(
            data,
            covs[i],
            means.row_model(i),
            j,
        ).model_mul(mixtures[i])
}

/// Law: the responsibility matrix is the column normalization of a weighted
/// density matrix for some parameter state, the density being the exact
/// multivariate Gaussian of the crate.
pub open spec fn e_step_normalized<T: Scalar>(g: Matrix<T>, data: Matrix<T>) -> bool {
    exists|pre: Matrix<T>, means: Matrix<T>, covs: Seq<Matrix<T>>, mixtures: Seq<T>|
        {
            &&& is_column_normalization(g, pre)
            &&& #[trigger] is_weighted_density_matrix(pre, data, means, covs, mixtures)
        }
}

/// The responsibility-weighted accumulation of column `c` of the data into
/// mean row `r`, folded over the first `j` samples in sample order.
pub open spec fn means_acc_model<T: Scalar>(
    data: Matrix<T>,
    g: Matrix<T>,
    r: int,
    c: int,
    j: int,
) -> T
    decreases j,
{
    if j <= 0 {
        T::model_zero()
    } else {
        means_acc_model(data, g, r, c, j - 1).model_add(
            data.ent(j - 1, c).model_mul(g.ent(r, j - 1)),
        )
    }
}

/// The same accumulation expressed over the unnormalized densities: each
/// weight is the density entry divided by its column sum.
pub open spec fn means_acc_norm_model<T: Scalar>(
    data: Matrix<T>,
    pre: Matrix<T>,
    r: int,
    c: int,
    j: int,
) -> T
    decreases j,
{
    if j <= 0 {
        T::model_zero()
    } else {
        means_acc_norm_model(data, pre, r, c, j - 1).model_add(
            data.ent(j - 1, c).model_mul(
                pre.ent(r, j - 1).model_div(
                    crate::calculations::matrix::col_sum_model(pre, j - 1, pre.rows as int),
                ),
            ),
        )
    }
}

/// A matrix that is the column normalization of the densities accumulates
/// the same values as the density-based fold.
proof fn lemma_acc_norm_agrees<T: Scalar>(
    data: Matrix<T>,
    pre: Matrix<T>,
    g: Matrix<T>,
    r: int,
    c: int,
    j: int,
)
    requires
        forall|x: int, j2: int|
            0 <= x < g.rows && 0 <= j2 < g.columns ==> #[trigger] g.ent(x, j2) == pre.ent(
                x,
                j2,
            ).model_div(crate::calculations::matrix::col_sum_model(pre, j2, pre.rows as int)),
        0 <= r < g.rows,
        0 <= j <= g.columns,
    ensures
        means_acc_norm_model(data, pre, r, c, j) == means_acc_model(data, g, r, c, j),
    decreases j,
{
    if j > 0 {
        lemma_acc_norm_agrees(data, pre, g, r, c, j - 1);
    }
}

/// One snapshot of the expectation-maximization loop: the weighted density
/// matrix before normalization, the normalized responsibilities, the
/// refitted parameters, and the movement of the means.
pub struct EmState<T> {
    /// The weighted densities of the expectation step, unnormalized.
    pub pre: Matrix<T>,
    /// The column-normalized responsibilities.
    pub gammas: Matrix<T>,
    /// The refitted cluster means.
    pub means: Matrix<T>,
    /// The refitted covariance matrices, one per cluster.
    pub covariances: Seq<Matrix<T>>,
    /// The refitted mixture weights.
    pub mixtures: Seq<T>,
    /// The mean squared movement from the previous means.
    pub residual: T,
}

/// One expectation-maximization iteration: from the parameters
/// `(means1, covs1, mix1)` the snapshot `s` holds the exact weighted
/// densities, their column normalization, the responsibility-weighted means
/// and covariances, the effective-count mixture weights, and the mean
/// squared movement of the means, each pinned entry by entry in the
/// evaluation order of the code.
pub open spec fn em_step<T: Scalar>(
    data: Matrix<T>,
    means1: Matrix<T>,
    covs1: Seq<Matrix<T>>,
    mix1: Seq<T>,
    s: EmState<T>,
) -> bool {
    let k = means1.rows as int;
    let n = data.rows as int;
    let d = data.columns as int;
    &&& s.pre.wf()
    &&& s.pre.rows == k
    &&& s.pre.columns == n
    &&& is_weighted_density_matrix(s.pre, data, means1, covs1, mix1)
    &&& s.gammas.wf()
    &&& s.gammas.rows == k
    &&& s.gammas.columns == n
    &&& is_column_normalization(s.gammas, s.pre)
    &&& s.means.wf()
    &&& s.means.rows == k
    &&& s.means.columns == d
    &&& forall|r: int, c: int|
        0 <= r < k && 0 <= c < d ==> #[trigger] s.means.ent(r, c) == means_acc_model(
            data,
            s.gammas,
            r,
            c,
            n,
        ).model_div(crate::calculations::matrix::row_sum_model(s.gammas, r, n))
    &&& s.covariances.len() == k
    &&& forall|i: int|
        0 <= i < k ==> (#[trigger] s.covariances[i]).wf() && s.covariances[i].rows == d
            && s.covariances[i].columns == d
    &&& forall|i: int, c1: int, c2: int|
        0 <= i < k && 0 <= c1 < d && 0 <= c2 < d ==> #[trigger] s.covariances[i].ent(c1, c2) == (
        if c1 >= c2 {
            crate::calculations::stats::weighted_pair_model(
                data,
                s.gammas.row_model(i),
                s.means.row_model(i),
                c1,
                c2,
                n,
            )
        } else {
            crate::calculations::stats::weighted_pair_model(
                data,
                s.gammas.row_model(i),
                s.means.row_model(i),
                c2,
                c1,
                n,
            )
        }).model_div(crate::calculations::matrix::row_sum_model(s.gammas, i, n))
    &&& s.mixtures.len() == k
    &&& forall|i: int|
        0 <= i < k ==> #[trigger] s.mixtures[i] == crate::calculations::matrix::row_sum_model(
            s.gammas,
            i,
            n,
        ).model_div(T::model_from(n))
    &&& s.residual == crate::helpers::mean_squared_error_model(means1.content@, s.means.content@)
}

/// A run of consecutive expectation-maximization iterations starting from
/// the parameters `(m0, c0, x0)`: each snapshot is one `em_step` from the
/// parameters of the snapshot before it.
pub open spec fn em_trace_from<T: Scalar>(
    data: Matrix<T>,
    m0: Matrix<T>,
    c0: Seq<Matrix<T>>,
    x0: Seq<T>,
    tr: Seq<EmState<T>>,
) -> bool
    decreases tr.len(),
{
    if tr.len() == 0 {
        true
    } else {
        let prev = tr.drop_last();
        &&& em_trace_from(data, m0, c0, x0, prev)
        &&& em_step(
            data,
            if tr.len() == 1 {
                m0
            } else {
                prev.last().means
            },
            if tr.len() == 1 {
                c0
            } else {
                prev.last().covariances
            },
            if tr.len() == 1 {
                x0
            } else {
                prev.last().mixtures
            },
            tr.last(),
        )
    }
}

/// Whether column `j` of the indicator grid has exactly one set entry at a
/// row below `k`.
pub open spec fn one_hot_grid_column(z: Seq<Seq<u8>>, k: int, j: int) -> bool {
    &&& exists|c: int| 0 <= c < k && #[trigger] z[c][j] == 1
    &&& forall|c1: int, c2: int|
        0 <= c1 < k && 0 <= c2 < k && #[trigger] z[c1][j] == 1 && #[trigger] z[c2][j] == 1 ==> c1
            == c2
}

/// The starting parameters of the loop come from a hard partition `z` of
/// the data: row `i` of `m0` holds the masked column means of cluster `i`,
/// and `c0[i]` its masked covariance.
pub open spec fn initial_from_partition<T: Scalar>(
    data: Matrix<T>,
    z: Seq<Seq<u8>>,
    m0: Matrix<T>,
    c0: Seq<Matrix<T>>,
) -> bool {
    let k = m0.rows as int;
    let n = data.rows as int;
    let d = data.columns as int;
    &&& z.len() == k
    &&& forall|i: int| 0 <= i < k ==> (#[trigger] z[i]).len() == n
    &&& forall|i: int, j: int| 0 <= i < k && 0 <= j < n ==> (#[trigger] z[i][j]) <= 1
    &&& forall|j: int| 0 <= j < n ==> #[trigger] one_hot_grid_column(z, k, j)
    &&& m0.wf()
    &&& m0.columns == d
    &&& forall|i: int, c: int|
        0 <= i < k && 0 <= c < d ==> #[trigger] m0.ent(i, c)
            == crate::calculations::stats::means_zs_model(data, z[i], c)
    &&& c0.len() == k
    &&& forall|i: int|
        0 <= i < k ==> (#[trigger] c0[i]).wf() && c0[i].rows == d && c0[i].columns == d
    &&& forall|i: int, c1: int, c2: int|
        0 <= i < k && 0 <= c1 < d && 0 <= c2 < d ==> #[trigger] c0[i].ent(c1, c2) == (if c1
            >= c2 {
            crate::calculations::stats::cov_entry_model(data, z[i], c1, c2)
        } else {
            crate::calculations::stats::cov_entry_model(data, z[i], c2, c1)
        })
}

/// Law: a successful fit is witnessed by a hard partition of the data and a
/// run of exact expectation-maximization iterations from its masked means
/// and covariances, shorter than the step cap, whose every movement but the
/// last stays at or above the tolerance and whose last movement falls below
/// it; the fitted state is the end of that run.
pub open spec fn em_converged<T: Scalar>(
    data: Matrix<T>,
    k: int,
    x0: Seq<T>,
    tolerance: T,
    max_steps: int,
    fmeans: Matrix<T>,
    fcovs: Seq<Matrix<T>>,
    fmix: Seq<T>,
    fgammas: Matrix<T>,
    fresidual: T,
    steps_taken: int,
) -> bool {
    exists|z: Seq<Seq<u8>>, m0: Matrix<T>, c0: Seq<Matrix<T>>, tr: Seq<EmState<T>>|
        #![trigger initial_from_partition(data, z, m0, c0), em_trace_from(data, m0, c0, x0, tr)]
        {
            &&& initial_from_partition(data, z, m0, c0)
            &&& m0.rows == k
            &&& em_trace_from(data, m0, c0, x0, tr)
            &&& 1 <= tr.len() < max_steps
            &&& forall|i: int|
                0 <= i < tr.len() - 1 ==> !((#[trigger] tr[i]).residual.model_lt(tolerance))
            &&& tr.last().residual.model_lt(tolerance)
            &&& fgammas == tr.last().gammas
            &&& fresidual == tr.last().residual
            &&& fmeans == (if tr.len() == 1 {
                m0
            } else {
                tr[tr.len() - 2].means
            })
            &&& fcovs == (if tr.len() == 1 {
                c0
            } else {
                tr[tr.len() - 2].covariances
            })
            &&& fmix == (if tr.len() == 1 {
                x0
            } else {
                tr[tr.len() - 2].mixtures
            })
            &&& steps_taken == tr.len() - 1
        }
}

/// Law: a non-convergent fit is witnessed the same way by a run of exactly
/// `max_steps` exact iterations whose every movement before the last stays
/// at or above the tolerance; the reported residual is the last movement
/// and the parameters are those before the final iteration.
pub open spec fn em_exhausted<T: Scalar>(
    data: Matrix<T>,
    k: int,
    x0: Seq<T>,
    tolerance: T,
    max_steps: int,
    fmeans: Matrix<T>,
    fcovs: Seq<Matrix<T>>,
    fmix: Seq<T>,
    fresidual: T,
    steps_taken: int,
) -> bool {
    exists|z: Seq<Seq<u8>>, m0: Matrix<T>, c0: Seq<Matrix<T>>, tr: Seq<EmState<T>>|
        #![trigger initial_from_partition(data, z, m0, c0), em_trace_from(data, m0, c0, x0, tr)]
        {
            &&& initial_from_partition(data, z, m0, c0)
            &&& m0.rows == k
            &&& em_trace_from(data, m0, c0, x0, tr)
            &&& tr.len() == max_steps
            &&& forall|i: int|
                0 <= i < tr.len() - 1 ==> !((#[trigger] tr[i]).residual.model_lt(tolerance))
            &&& fresidual == tr.last().residual
            &&& fmeans == (if tr.len() == 1 {
                m0
            } else {
                tr[tr.len() - 2].means
            })
            &&& fcovs == (if tr.len() == 1 {
                c0
            } else {
                tr[tr.len() - 2].covariances
            })
            &&& fmix == (if tr.len() == 1 {
                x0
            } else {
                tr[tr.len() - 2].mixtures
            })
            &&& steps_taken == tr.len() - 1
        }
}

/// The mixture state: per-cluster means (one row each), covariance
/// matrices and weights, the responsibility matrix, and the convergence
/// bookkeeping.
pub struct GaussianMixtureModel<T> {
    /// Cluster means, one row per cluster.
    pub means: Matrix<T>,
    /// One covariance matrix per cluster.
    pub covariance_matrices: Vec<Matrix<T>>,
    /// Number of clusters.
    pub k: usize,
    /// Seed handed to the seeding step.
    pub seed: u64,
    /// Mixture weights, one per cluster.
    pub mixtures: Vec<T>,
    /// Convergence tolerance on the mean squared movement of the means.
    pub tolerance: T,
    /// The movement of the means at the accepted step.
    pub final_difference: T,
    /// Cap on expectation-maximization iterations.
    pub max_steps: i32,
    /// Completed parameter updates.
    pub steps: u64,
    /// Responsibilities: one row per cluster, one column per sample.
    pub gammas: Matrix<T>,
}

impl<T: Scalar + 'static> GaussianMixtureModel<T> {
    /// A fresh, unfitted model for `k` clusters.
    pub fn new(k: usize, seed: u64, mixtures: Vec<T>, max_steps: i32, tolerance: T) -> (r:
        GaussianMixtureModel<T>)
        ensures
            r.k == k,
            r.seed == seed,
            r.mixtures@ == mixtures@,
            r.max_steps == max_steps,
            r.tolerance == tolerance,
            r.steps == 0,
            r.final_difference == T::model_from(1000),
            r.means.rows == 0,
            r.means.columns == 0,
            r.means.wf(),
            r.covariance_matrices@.len() == 0,
            r.gammas.wf(),
            r.gammas.rows == 0,
            r.gammas.columns == 0,
    {
        let m: Matrix<T> = Matrix::empty();

        GaussianMixtureModel {
            means: m,
            covariance_matrices: Vec::new(),
            k,
            seed,
            mixtures,
            tolerance,
            final_difference: T::from_count(1000),
            max_steps,
            steps: 0,
            gammas: Matrix::empty(),
        }
    }

    /// Fits the mixture to the data: K-means++ gives the starting hard
    /// partition, whose per-cluster means and covariances seed the
    /// expectation-maximization loop; the loop stops with success once the
    /// means move less than the tolerance, and reports non-convergence once
    /// the iteration cap is reached.
    pub fn fit(&mut self, data: &Matrix<T>) -> (r: Result<&'static str, &'static str>)
        requires
            old(self).k >= 1,
            old(self).mixtures@.len() == old(self).k,
            old(self).max_steps >= 1,
            old(self).steps + old(self).max_steps <= u64::MAX,
            data.wf(),
            data.rows >= 1,
            data.columns >= 1,
            data.columns * data.columns <= usize::MAX,
            old(self).k * data.rows <= usize::MAX,
            old(self).k * data.columns <= usize::MAX,
        ensures
            final(self).k == old(self).k,
            final(self).seed == old(self).seed,
            final(self).max_steps == old(self).max_steps,
            final(self).tolerance == old(self).tolerance,
            final(self).mixtures@.len() == old(self).k,
            r is Ok ==> {
                &&& final(self).gammas.wf()
                &&& final(self).gammas.rows == old(self).k
                &&& final(self).gammas.columns == data.rows
            },
            r is Ok ==> exists|pre: Matrix<T>|
                #[trigger] is_column_normalization(final(self).gammas, pre),
            r is Ok ==> e_step_normalized(final(self).gammas, *data),
            r is Ok ==> em_converged(
                *data,
                old(self).k as int,
                old(self).mixtures@,
                old(self).tolerance,
                old(self).max_steps as int,
                final(self).means,
                final(self).covariance_matrices@,
                final(self).mixtures@,
                final(self).gammas,
                final(self).final_difference,
                final(self).steps - old(self).steps,
            ),
            r is Ok ==> final(self).final_difference.model_lt(old(self).tolerance),
            r is Err ==> em_exhausted(
                *data,
                old(self).k as int,
                old(self).mixtures@,
                old(self).tolerance,
                old(self).max_steps as int,
                final(self).means,
                final(self).covariance_matrices@,
                final(self).mixtures@,
                final(self).final_difference,
                final(self).steps - old(self).steps,
            ),
            r is Err ==> final(self).gammas == old(self).gammas,
            final(self).means.wf(),
            final(self).means.rows == old(self).k,
            final(self).means.columns == data.columns,
            final(self).covariance_matrices@.len() == old(self).k,
            forall|c: int|
                0 <= c < old(self).k ==> (#[trigger] final(self).covariance_matrices@[c]).wf()
                    && final(self).covariance_matrices@[c].rows == data.columns
                    && final(self).covariance_matrices@[c].columns == data.columns,
            final(self).steps <= old(self).steps + old(self).max_steps,
    {
        let mut init: Kmeans<T> = Kmeans::init(self.k, data, self.seed);
        init.fit(data);

        let curr_z = init.final_z;

        let mut covariances: Vec<Matrix<T>> = Vec::new();
        let mut means: Matrix<T> = Matrix::empty();

        let d = data.columns;
        let mut zi: usize = 0;
        while zi < curr_z.len()
            invariant
                zi <= curr_z@.len(),
                data.wf(),
                data.rows >= 1,
                data.columns >= 1,
                d == data.columns,
                data.columns * data.columns <= usize::MAX,
                forall|c: int| 0 <= c < curr_z@.len() ==> (#[trigger] curr_z@[c])@.len() == data.rows,
                forall|c: int, i: int|
                    0 <= c < curr_z@.len() && 0 <= i < data.rows ==> (#[trigger] curr_z@[c]@[i])
                        <= 1,
                covariances@.len() == zi,
                forall|c: int|
                    0 <= c < zi ==> (#[trigger] covariances@[c]).wf() && covariances@[c].rows == d
                        && covariances@[c].columns == d,
                forall|c: int, c1: int, c2: int|
                    0 <= c < zi && 0 <= c1 < d && 0 <= c2 < d ==> #[trigger] covariances@[c].ent(
                        c1,
                        c2,
                    ) == (if c1 >= c2 {
                        crate::calculations::stats::cov_entry_model(*data, curr_z@[c]@, c1, c2)
                    } else {
                        crate::calculations::stats::cov_entry_model(*data, curr_z@[c]@, c2, c1)
                    }),
                means.wf(),
                means.rows == zi,
                means.columns == (if zi == 0 {
                    0int
                } else {
                    d as int
                }),
                forall|c: int, l: int|
                    0 <= c < zi && 0 <= l < d ==> #[trigger] means.ent(c, l)
                        == crate::calculations::stats::means_zs_model(*data, curr_z@[c]@, l),
            decreases curr_z@.len() - zi,
        {
            let z = &curr_z[zi];
            let cov: Matrix<T> = covariance(data, z);
            covariances.push(cov);
            let m = match means_zs(data, z) {
                Ok(m) => m,
                Err(_) => {
                    proof {
                        assert(false);
                    }
                    Vec::new()
                },
            };
            proof {
                assert(d < usize::MAX) by (nonlinear_arith)
                    requires
                        1 <= d,
                        d * d <= usize::MAX,
                ;
            }
            let ghost mpre = means;
            match means.append_vector(m.as_slice(), 0) {
                Ok(_) => (),
                Err(_) => {
                    proof {
                        assert(false);
                    }
                },
            }
            proof {
                means.lemma_row_model_ent(zi as int);
                if zi > 0 {
                    assert(means.row_model(zi as int) =~= m@);
                    assert forall|c: int, l: int|
                        0 <= c < zi && 0 <= l < d implies #[trigger] means.ent(c, l)
                        == crate::calculations::stats::means_zs_model(*data, curr_z@[c]@, l) by {
                        crate::calculations::matrix::lemma_row_major_below(c, l, zi as int, d as int);
                        assert(means.ent(c, l) == mpre.ent(c, l));
                    }
                } else {
                    assert(means.row_model(0) =~= m@);
                }
                assert forall|l: int| 0 <= l < d implies #[trigger] means.ent(zi as int, l)
                    == crate::calculations::stats::means_zs_model(*data, curr_z@[zi as int]@, l) by {
                    assert(means.row_model(zi as int)[l] == means.ent(zi as int, l));
                }
            }
            zi += 1;
        }

        self.means = means;
        self.covariance_matrices = covariances;

        let n = data.len();
        let mut counter: i32 = 0;

        let ghost zg: Seq<Seq<u8>> = Seq::new(self.k as nat, |i: int| curr_z@[i]@);
        let ghost m0g = self.means;
        let ghost c0g = self.covariance_matrices@;
        let ghost x0g = self.mixtures@;
        let ghost mut tr: Seq<EmState<T>> = Seq::empty();
        proof {
            assert forall|j: int| 0 <= j < data.rows implies #[trigger] one_hot_grid_column(
                zg,
                self.k as int,
                j,
            ) by {
                assert(crate::models::kmeans::one_hot_column(curr_z@, self.k as int, j));
                let c = choose|c: int| 0 <= c < self.k && #[trigger] curr_z@[c]@[j] == 1;
                assert(zg[c][j] == 1);
            }
            assert(initial_from_partition(*data, zg, m0g, c0g));
        }

        // The expectation-maximization loop, bounded by the iteration cap.
        loop
            invariant
                0 <= counter < self.max_steps,
                self.k >= 1,
                self.k == old(self).k,
                self.seed == old(self).seed,
                self.max_steps == old(self).max_steps,
                self.tolerance == old(self).tolerance,
                self.mixtures@.len() == self.k,
                self.steps == old(self).steps + counter,
                old(self).steps + old(self).max_steps <= u64::MAX,
                initial_from_partition(*data, zg, m0g, c0g),
                m0g.rows == self.k,
                x0g == old(self).mixtures@,
                em_trace_from(*data, m0g, c0g, x0g, tr),
                tr.len() == counter,
                counter == 0 ==> self.means == m0g && self.covariance_matrices@ == c0g
                    && self.mixtures@ == x0g,
                counter > 0 ==> self.means == tr.last().means && self.covariance_matrices@
                    == tr.last().covariances && self.mixtures@ == tr.last().mixtures,
                forall|q: int|
                    0 <= q < tr.len() ==> !((#[trigger] tr[q]).residual.model_lt(self.tolerance)),
                self.gammas == old(self).gammas,
                self.final_difference == old(self).final_difference,
                data.wf(),
                data.rows >= 1,
                data.columns >= 1,
                n == data.rows,
                data.columns * data.columns <= usize::MAX,
                self.k * data.rows <= usize::MAX,
                self.k * data.columns <= usize::MAX,
                self.means.wf(),
                self.means.rows == self.k,
                self.means.columns == data.columns,
                self.covariance_matrices@.len() == self.k,
                forall|c: int|
                    0 <= c < self.k ==> (#[trigger] self.covariance_matrices@[c]).wf()
                        && self.covariance_matrices@[c].rows == data.columns
                        && self.covariance_matrices@[c].columns == data.columns,
            decreases self.max_steps - counter,
        {
            let mut gammas: Matrix<T> = Matrix::zeroes(self.k, data.rows);
            let ghost e_means = self.means;
            let ghost e_covs = self.covariance_matrices@;
            let ghost e_mix = self.mixtures@;

            // E step: weighted densities, cluster by cluster.
            let mut i: usize = 0;
            while i < self.k
                invariant
                    i <= self.k,
                    self.k >= 1,
                    self.mixtures@.len() == self.k,
                    data.wf(),
                    data.rows >= 1,
                    data.columns >= 1,
                    n == data.rows,
                    self.means.wf(),
                    self.means.rows == self.k,
                    self.means.columns == data.columns,
                    self.covariance_matrices@.len() == self.k,
                    forall|c: int|
                        0 <= c < self.k ==> (#[trigger] self.covariance_matrices@[c]).wf()
                            && self.covariance_matrices@[c].rows == data.columns
                            && self.covariance_matrices@[c].columns == data.columns,
                    gammas.wf(),
                    gammas.rows == self.k,
                    gammas.columns == data.rows,
                    e_means == self.means,
                    e_covs == self.covariance_matrices@,
                    e_mix == self.mixtures@,
                    forall|c: int, j: int|
                        0 <= c < i && 0 <= j < gammas.columns ==> #[trigger] gammas.ent(c, j)
                            == crate::calculations::stats::gaussian_row_model(
                            *data,
                            e_covs[c],
                            e_means.row_model(c),
                            j,
                        ).model_mul(e_mix[c]),
                decreases self.k - i,
            {
                let mrow = self.means.get_row(i);
                let tmp_gammas = match slow_multivariate_gaussian(
                    data,
                    &self.covariance_matrices[i],
                    mrow.as_slice(),
                ) {
                    Ok(v) => v,
                    Err(_) => {
                        proof {
                            assert(false);
                        }
                        Vec::new()
                    },
                };
                let mix = self.mixtures[i];
                let mut idx: usize = 0;
                while idx < tmp_gammas.len()
                    invariant
                        idx <= tmp_gammas@.len(),
                        tmp_gammas@.len() == data.rows,
                        i < self.k,
                        gammas.wf(),
                        gammas.rows == self.k,
                        gammas.columns == data.rows,
                        e_covs.len() == self.k,
                        e_mix.len() == self.k,
                        mix == e_mix[i as int],
                        forall|j: int|
                            0 <= j < tmp_gammas@.len() ==> #[trigger] tmp_gammas@[j]
                                == crate::calculations::stats::gaussian_row_model(
                                *data,
                                e_covs[i as int],
                                e_means.row_model(i as int),
                                j,
                            ),
                        forall|c: int, j: int|
                            0 <= c < i && 0 <= j < gammas.columns ==> #[trigger] gammas.ent(c, j)
                                == crate::calculations::stats::gaussian_row_model(
                                *data,
                                e_covs[c],
                                e_means.row_model(c),
                                j,
                            ).model_mul(e_mix[c]),
                        forall|j: int|
                            0 <= j < idx ==> #[trigger] gammas.ent(i as int, j)
                                == crate::calculations::stats::gaussian_row_model(
                                *data,
                                e_covs[i as int],
                                e_means.row_model(i as int),
                                j,
                            ).model_mul(e_mix[i as int]),
                    decreases tmp_gammas@.len() - idx,
                {
                    let v = tmp_gammas[idx].times(mix);
                    gammas.set_entry(i, idx, v);
                    idx += 1;
                }
                i += 1;
            }

            let ghost pre = gammas;
            proof {
                assert(is_weighted_density_matrix(pre, *data, e_means, e_covs, e_mix));
            }
            let sum_gammas_0 = match gammas.sum(0) {
                Ok(m) => m,
                Err(_) => {
                    proof {
                        assert(false);
                    }
                    Matrix::empty()
                },
            };

            let mut new_means: Matrix<T> = Matrix::zeroes(self.means.rows, self.means.columns);

            // M step: normalize each sample's responsibilities, accumulate
            // the weighted means.
            let mut idx_data_point: usize = 0;
            while idx_data_point < n
                invariant
                    idx_data_point <= n,
                    self.k >= 1,
                    data.wf(),
                    n == data.rows,
                    data.columns >= 1,
                    gammas.wf(),
                    gammas.rows == self.k,
                    gammas.columns == data.rows,
                    pre.wf(),
                    pre.rows == gammas.rows,
                    pre.columns == gammas.columns,
                    sum_gammas_0.wf(),
                    sum_gammas_0.rows == 1,
                    sum_gammas_0.columns == data.rows,
                    forall|c: int|
                        0 <= c < pre.columns ==> #[trigger] sum_gammas_0.ent(0, c)
                            == crate::calculations::matrix::col_sum_model(
                            pre,
                            c,
                            pre.rows as int,
                        ),
                    forall|i: int, j: int|
                        0 <= i < gammas.rows && 0 <= j < idx_data_point ==> #[trigger] gammas.ent(
                            i,
                            j,
                        ) == pre.ent(i, j).model_div(
                            crate::calculations::matrix::col_sum_model(pre, j, pre.rows as int),
                        ),
                    forall|i: int, j: int|
                        0 <= i < gammas.rows && idx_data_point <= j < gammas.columns
                            ==> #[trigger] gammas.ent(i, j) == pre.ent(i, j),
                    new_means.wf(),
                    new_means.rows == self.k,
                    new_means.columns == data.columns,
                    forall|r: int, c: int|
                        0 <= r < new_means.rows && 0 <= c < new_means.columns
                            ==> #[trigger] new_means.ent(r, c) == means_acc_norm_model(
                            *data,
                            pre,
                            r,
                            c,
                            idx_data_point as int,
                        ),
                decreases n - idx_data_point,
            {
                let s = sum_gammas_0.at(0, idx_data_point);
                let mut i: usize = 0;
                while i < gammas.rows
                    invariant
                        i <= gammas.rows,
                        idx_data_point < gammas.columns,
                        gammas.wf(),
                        gammas.rows == self.k,
                        gammas.columns == data.rows,
                        pre.wf(),
                        pre.rows == gammas.rows,
                        pre.columns == gammas.columns,
                        s == crate::calculations::matrix::col_sum_model(
                            pre,
                            idx_data_point as int,
                            pre.rows as int,
                        ),
                        forall|x: int, j: int|
                            0 <= x < gammas.rows && 0 <= j < idx_data_point ==> #[trigger] gammas.ent(
                                x,
                                j,
                            ) == pre.ent(x, j).model_div(
                                crate::calculations::matrix::col_sum_model(
                                    pre,
                                    j,
                                    pre.rows as int,
                                ),
                            ),
                        forall|x: int, j: int|
                            0 <= x < gammas.rows && idx_data_point < j < gammas.columns
                                ==> #[trigger] gammas.ent(x, j) == pre.ent(x, j),
                        forall|x: int|
                            0 <= x < i ==> #[trigger] gammas.ent(x, idx_data_point as int)
                                == pre.ent(x, idx_data_point as int).model_div(
                                crate::calculations::matrix::col_sum_model(
                                    pre,
                                    idx_data_point as int,
                                    pre.rows as int,
                                ),
                            ),
                        forall|x: int|
                            i <= x < gammas.rows ==> #[trigger] gammas.ent(x, idx_data_point as int)
                                == pre.ent(x, idx_data_point as int),
                    decreases gammas.rows - i,
                {
                    let v = gammas.at(i, idx_data_point).divided_by(s);
                    gammas.set_entry(i, idx_data_point, v);
                    i += 1;
                }

                let dp = data.get_row(idx_data_point);
                proof {
                    data.lemma_row_model_ent(idx_data_point as int);
                }
                let ghost gsnap = gammas;
                let ghost jj = idx_data_point as int;
                let mut col: usize = 0;
                while col < new_means.columns
                    invariant
                        col <= new_means.columns,
                        idx_data_point < gammas.columns,
                        jj == idx_data_point as int,
                        data.wf(),
                        n == data.rows,
                        dp@.len() == data.columns,
                        forall|l: int|
                            0 <= l < dp@.len() ==> #[trigger] dp@[l] == data.ent(jj, l),
                        new_means.wf(),
                        new_means.rows == self.k,
                        new_means.columns == data.columns,
                        gammas == gsnap,
                        gammas.wf(),
                        gammas.rows == self.k,
                        gammas.columns == data.rows,
                        pre.wf(),
                        pre.rows == gammas.rows,
                        pre.columns == gammas.columns,
                        forall|x: int|
                            0 <= x < gammas.rows ==> #[trigger] gammas.ent(x, jj) == pre.ent(
                                x,
                                jj,
                            ).model_div(
                                crate::calculations::matrix::col_sum_model(
                                    pre,
                                    jj,
                                    pre.rows as int,
                                ),
                            ),
                        forall|r: int, c: int|
                            0 <= r < new_means.rows && 0 <= c < new_means.columns && c < col
                                ==> #[trigger] new_means.ent(r, c) == means_acc_norm_model(
                                *data,
                                pre,
                                r,
                                c,
                                jj + 1,
                            ),
                        forall|r: int, c: int|
                            0 <= r < new_means.rows && 0 <= c < new_means.columns && c >= col
                                ==> #[trigger] new_means.ent(r, c) == means_acc_norm_model(
                                *data,
                                pre,
                                r,
                                c,
                                jj,
                            ),
                    decreases new_means.columns - col,
                {
                    let mut row: usize = 0;
                    while row < new_means.rows
                        invariant
                            row <= new_means.rows,
                            col < new_means.columns,
                            idx_data_point < gammas.columns,
                            jj == idx_data_point as int,
                            data.wf(),
                            n == data.rows,
                            dp@.len() == data.columns,
                            forall|l: int|
                                0 <= l < dp@.len() ==> #[trigger] dp@[l] == data.ent(jj, l),
                            new_means.wf(),
                            new_means.rows == self.k,
                            new_means.columns == data.columns,
                            gammas == gsnap,
                            gammas.wf(),
                            gammas.rows == self.k,
                            gammas.columns == data.rows,
                            pre.wf(),
                            pre.rows == gammas.rows,
                            pre.columns == gammas.columns,
                            forall|x: int|
                                0 <= x < gammas.rows ==> #[trigger] gammas.ent(x, jj) == pre.ent(
                                    x,
                                    jj,
                                ).model_div(
                                    crate::calculations::matrix::col_sum_model(
                                        pre,
                                        jj,
                                        pre.rows as int,
                                    ),
                                ),
                            forall|r2: int, c2: int|
                                0 <= r2 < new_means.rows && 0 <= c2 < new_means.columns && (c2 < col
                                    || (c2 == col && r2 < row)) ==> #[trigger] new_means.ent(
                                    r2,
                                    c2,
                                ) == means_acc_norm_model(*data, pre, r2, c2, jj + 1),
                            forall|r2: int, c2: int|
                                0 <= r2 < new_means.rows && 0 <= c2 < new_means.columns && (c2 > col
                                    || (c2 == col && r2 >= row)) ==> #[trigger] new_means.ent(
                                    r2,
                                    c2,
                                ) == means_acc_norm_model(*data, pre, r2, c2, jj),
                        decreases new_means.rows - row,
                    {
                        let v = new_means.at(row, col).plus(
                            dp[col].times(gammas.at(row, idx_data_point)),
                        );
                        new_means.set_entry(row, col, v);
                        row += 1;
                    }
                    col += 1;
                }
                idx_data_point += 1;
            }

            let mut nk = match gammas.sum(1) {
                Ok(m) => m,
                Err(_) => {
                    proof {
                        assert(false);
                    }
                    Matrix::empty()
                },
            };

            // Convert the density-based accumulation to the normalized
            // responsibilities the refit is stated over.
            proof {
                assert forall|r: int, c: int|
                    0 <= r < new_means.rows && 0 <= c < new_means.columns
                        implies #[trigger] new_means.ent(r, c) == means_acc_model(
                        *data,
                        gammas,
                        r,
                        c,
                        n as int,
                    ) by {
                    lemma_acc_norm_agrees(*data, pre, gammas, r, c, n as int);
                }
            }

            // Normalize the means by the effective cluster sizes.
            let mut row: usize = 0;
            while row < self.k
                invariant
                    row <= self.k,
                    data.wf(),
                    n == data.rows,
                    gammas.wf(),
                    gammas.rows == self.k,
                    gammas.columns == data.rows,
                    nk.wf(),
                    nk.rows == 1,
                    nk.columns == self.k,
                    forall|x: int|
                        0 <= x < self.k ==> #[trigger] nk.ent(0, x)
                            == crate::calculations::matrix::row_sum_model(gammas, x, n as int),
                    new_means.wf(),
                    new_means.rows == self.k,
                    new_means.columns == data.columns,
                    forall|r2: int, c: int|
                        0 <= r2 < row && 0 <= c < new_means.columns ==> #[trigger] new_means.ent(
                            r2,
                            c,
                        ) == means_acc_model(*data, gammas, r2, c, n as int).model_div(
                            crate::calculations::matrix::row_sum_model(gammas, r2, n as int),
                        ),
                    forall|r2: int, c: int|
                        row <= r2 < new_means.rows && 0 <= c < new_means.columns
                            ==> #[trigger] new_means.ent(r2, c) == means_acc_model(
                            *data,
                            gammas,
                            r2,
                            c,
                            n as int,
                        ),
                decreases self.k - row,
            {
                let w = nk.at(0, row);
                let mut col: usize = 0;
                while col < new_means.columns
                    invariant
                        col <= new_means.columns,
                        row < new_means.rows,
                        data.wf(),
                        n == data.rows,
                        gammas.wf(),
                        gammas.rows == self.k,
                        gammas.columns == data.rows,
                        w == crate::calculations::matrix::row_sum_model(gammas, row as int, n as int),
                        new_means.wf(),
                        new_means.rows == self.k,
                        new_means.columns == data.columns,
                        forall|r2: int, c: int|
                            0 <= r2 < row && 0 <= c < new_means.columns
                                ==> #[trigger] new_means.ent(r2, c) == means_acc_model(
                                *data,
                                gammas,
                                r2,
                                c,
                                n as int,
                            ).model_div(
                                crate::calculations::matrix::row_sum_model(gammas, r2, n as int),
                            ),
                        forall|c: int|
                            0 <= c < col ==> #[trigger] new_means.ent(row as int, c)
                                == means_acc_model(*data, gammas, row as int, c, n as int).model_div(
                                crate::calculations::matrix::row_sum_model(
                                    gammas,
                                    row as int,
                                    n as int,
                                ),
                            ),
                        forall|c: int|
                            col <= c < new_means.columns ==> #[trigger] new_means.ent(row as int, c)
                                == means_acc_model(*data, gammas, row as int, c, n as int),
                        forall|r2: int, c: int|
                            row < r2 < new_means.rows && 0 <= c < new_means.columns
                                ==> #[trigger] new_means.ent(r2, c) == means_acc_model(
                                *data,
                                gammas,
                                r2,
                                c,
                                n as int,
                            ),
                    decreases new_means.columns - col,
                {
                    let v = new_means.at(row, col).divided_by(w);
                    new_means.set_entry(row, col, v);
                    col += 1;
                }
                row += 1;
            }

            // Fresh covariances from the new means and responsibilities.
            let mut covs: Vec<Matrix<T>> = Vec::new();
            let mut i: usize = 0;
            while i < self.k
                invariant
                    i <= self.k,
                    data.wf(),
                    data.rows >= 1,
                    data.columns >= 1,
                    data.columns * data.columns <= usize::MAX,
                    n == data.rows,
                    gammas.wf(),
                    gammas.rows == self.k,
                    gammas.columns == data.rows,
                    new_means.wf(),
                    new_means.rows == self.k,
                    new_means.columns == data.columns,
                    nk.wf(),
                    nk.rows == 1,
                    nk.columns == self.k,
                    forall|x: int|
                        0 <= x < self.k ==> #[trigger] nk.ent(0, x)
                            == crate::calculations::matrix::row_sum_model(gammas, x, n as int),
                    covs@.len() == i,
                    forall|c: int|
                        0 <= c < i ==> (#[trigger] covs@[c]).wf() && covs@[c].rows == data.columns
                            && covs@[c].columns == data.columns,
                    forall|c: int, c1: int, c2: int|
                        0 <= c < i && 0 <= c1 < data.columns && 0 <= c2 < data.columns
                            ==> #[trigger] covs@[c].ent(c1, c2) == (if c1 >= c2 {
                            crate::calculations::stats::weighted_pair_model(
                                *data,
                                gammas.row_model(c),
                                new_means.row_model(c),
                                c1,
                                c2,
                                n as int,
                            )
                        } else {
                            crate::calculations::stats::weighted_pair_model(
                                *data,
                                gammas.row_model(c),
                                new_means.row_model(c),
                                c2,
                                c1,
                                n as int,
                            )
                        }).model_div(
                            crate::calculations::matrix::row_sum_model(gammas, c, n as int),
                        ),
                decreases self.k - i,
            {
                let grow = gammas.get_row(i);
                let mrow = new_means.get_row(i);
                let mut cov: Matrix<T> = covariance_no_z(data, grow.as_slice(), mrow.as_slice());
                let ghost covpre = cov;
                cov.divide_by_scalar(nk.at(0, i));
                proof {
                    let d = data.columns as int;
                    assert forall|c1: int, c2: int|
                        0 <= c1 < d && 0 <= c2 < d implies #[trigger] cov.ent(c1, c2)
                        == covpre.ent(c1, c2).model_div(
                        crate::calculations::matrix::row_sum_model(gammas, i as int, n as int),
                    ) by {
                        assert(0 <= c1 * d + c2 < d * d) by (nonlinear_arith)
                            requires
                                0 <= c1 < d,
                                0 <= c2 < d,
                        ;
                    }
                }
                covs.push(cov);
                i += 1;
            }

            counter = counter + 1;

            let mean_error = match mean_squared_error(
                self.means.content.as_slice(),
                new_means.content.as_slice(),
            ) {
                Ok(e) => e,
                Err(_) => {
                    proof {
                        assert(self.means.content@.len() == new_means.content@.len());
                        assert(false);
                    }
                    T::zero()
                },
            };

            let ghost st = EmState {
                pre,
                gammas,
                means: new_means,
                covariances: covs@,
                mixtures: Seq::new(
                    self.k as nat,
                    |q: int|
                        crate::calculations::matrix::row_sum_model(gammas, q, n as int).model_div(
                            T::model_from(n as int),
                        ),
                ),
                residual: mean_error,
            };
            proof {
                assert(em_step(*data, e_means, e_covs, e_mix, st));
                let tr0 = tr;
                tr = tr.push(st);
                assert(tr.drop_last() =~= tr0);
                assert(tr.last() == st);
                assert(em_trace_from(*data, m0g, c0g, x0g, tr));
            }

            if counter == self.max_steps {
                // Report the non-convergence with the movement of the last
                // iteration, alongside the step count.
                self.final_difference = mean_error;
                proof {
                    assert(em_exhausted(
                        *data,
                        self.k as int,
                        x0g,
                        self.tolerance,
                        self.max_steps as int,
                        self.means,
                        self.covariance_matrices@,
                        self.mixtures@,
                        self.final_difference,
                        self.steps - old(self).steps,
                    ));
                }
                return Err("Did not converge");
            }

            if mean_error.lt(self.tolerance) {
                self.gammas = gammas;
                self.final_difference = mean_error;
                proof {
                    assert(is_column_normalization(self.gammas, pre));
                    assert(is_weighted_density_matrix(pre, *data, e_means, e_covs, e_mix));
                    assert(e_step_normalized(self.gammas, *data));
                    assert(em_converged(
                        *data,
                        self.k as int,
                        x0g,
                        self.tolerance,
                        self.max_steps as int,
                        self.means,
                        self.covariance_matrices@,
                        self.mixtures@,
                        self.gammas,
                        self.final_difference,
                        self.steps - old(self).steps,
                    ));
                }
                return Ok("Converged");
            }

            self.means = new_means;
            self.covariance_matrices = covs;
            let ghost nkpre = nk;
            nk.divide_by_scalar(T::from_count(data.len()));
            self.mixtures = nk.content;
            proof {
                assert forall|q: int| 0 <= q < self.k implies #[trigger] self.mixtures@[q]
                    == st.mixtures[q] by {
                    assert(nkpre.ent(0, q) == nkpre.content@[q]);
                    assert(nk.ent(0, q) == nk.content@[q]);
                }
                assert(self.mixtures@ =~= st.mixtures);
            }
            self.steps = self.steps + 1;
        }
    }
}

} // verus!
