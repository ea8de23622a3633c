//! Stepwise, BIC-driven column selection over repeated mixture fits.

use vstd::prelude::*;

use crate::calculations::matrix::Matrix;
use crate::models::gmm::GaussianMixtureModel;
use crate::scalar::Scalar;
use crate::training_setup::copy_scalars;
use crate::training_setup::TrainingSetup;

verus! {

/// The grand sum of a responsibility matrix: its first `k` column sums,
/// folded from zero.
pub open spec fn gamma_grand_model<T: Scalar>(g: Matrix<T>, k: int) -> T
    decreases k,
{
    if k <= 0 {
        T::model_zero()
    } else {
        gamma_grand_model(g, k - 1).model_add(
            crate::calculations::matrix::col_sum_model(g, k - 1, g.rows as int),
        )
    }
}

/// The selection objective: minus two times the logarithm of the grand
/// responsibility mass, plus the column count times the logarithm of the
/// free-parameter count of a mixture over `d` columns.
pub open spec fn bic_model<T: Scalar>(k_clusters: int, gammas: Matrix<T>, d: int) -> T {
    let ck = T::model_from(k_clusters * d + (k_clusters - 1) + k_clusters * d * (d + 1) / 2);
    let ll = gamma_grand_model(gammas, gammas.columns as int).model_ln();
    T::model_from(2).model_neg().model_mul(ll).model_add(T::model_from(d).model_mul(ck.model_ln()))
}

/// Every history entry from `start_len` on undercuts what preceded it: the
/// first one the `base`, each later one its predecessor.
pub open spec fn descending_from<T: Scalar>(s: Seq<T>, start_len: int, base: T) -> bool {
    forall|i: int|
        start_len <= i < s.len() ==> (#[trigger] s[i]).model_lt(
            if i == start_len {
                base
            } else {
                s[i - 1]
            },
        )
}

/// Whether the free-parameter count of a mixture over `dd` columns stays
/// within the machine's integer range.
pub open spec fn bic_count_fits(k: int, dd: int) -> bool {
    &&& k * dd <= usize::MAX
    &&& k * dd * (dd + 1) <= usize::MAX
    &&& k * dd + (k - 1) + k * dd * (dd + 1) / 2 <= usize::MAX
    &&& dd * dd <= usize::MAX
}

/// A matrix whose columns are the listed columns of the data, in order.
pub open spec fn is_subset_matrix<T>(m: Matrix<T>, data: Matrix<T>, cols: Seq<usize>) -> bool {
    &&& m.wf()
    &&& m.rows == data.rows
    &&& m.columns == cols.len()
    &&& forall|j: int| 0 <= j < cols.len() ==> #[trigger] cols[j] < data.columns
    &&& forall|i: int, j: int|
        0 <= i < m.rows && 0 <= j < m.columns ==> #[trigger] m.ent(i, j) == data.ent(
            i,
            cols[j] as int,
        )
}

/// A trial's score is the sentinel backed by a run that exhausted its step
/// cap, or the exact objective of the responsibilities of a converged
/// expectation-maximization run on the trial matrix.
pub open spec fn trial_score<T: Scalar>(
    s: T,
    m: Matrix<T>,
    k: int,
    x0: Seq<T>,
    tolerance: T,
    max_steps: int,
) -> bool {
    ||| (s == T::model_from(100) && exists|
        fmeans: Matrix<T>,
        fcovs: Seq<Matrix<T>>,
        fmix: Seq<T>,
        fresidual: T,
        steps_taken: int,
    |
        #[trigger] crate::models::gmm::em_exhausted(
            m,
            k,
            x0,
            tolerance,
            max_steps,
            fmeans,
            fcovs,
            fmix,
            fresidual,
            steps_taken,
        ))
    ||| exists|
        fmeans: Matrix<T>,
        fcovs: Seq<Matrix<T>>,
        fmix: Seq<T>,
        fgammas: Matrix<T>,
        fresidual: T,
        steps_taken: int,
    |
        {
            &&& #[trigger] crate::models::gmm::em_converged(
                m,
                k,
                x0,
                tolerance,
                max_steps,
                fmeans,
                fcovs,
                fmix,
                fgammas,
                fresidual,
                steps_taken,
            )
            &&& s == bic_model(k, fgammas, m.columns as int)
        }
}

/// One accepted change of the stepwise search: whether a column was added
/// or one dropped, the round's candidate scores, the winning entry, and the
/// selection after the change.
pub struct SelMove<T> {
    /// An addition (`true`) or a removal (`false`).
    pub is_add: bool,
    /// The added column index, or the removed position in the selection.
    pub payload: usize,
    /// The winning score.
    pub score: T,
    /// All candidate scores of the round.
    pub scores: Seq<T>,
    /// The selection after the change.
    pub cols: Seq<usize>,
}

/// One candidate score of an addition round: the sentinel for an already
/// selected column, otherwise a trial score on the selection extended by
/// the candidate column.
pub open spec fn add_score_ok<T: Scalar>(
    s: T,
    c: int,
    sel: Seq<usize>,
    data: Matrix<T>,
    k: int,
    x0: Seq<T>,
    tolerance: T,
    max_steps: int,
) -> bool {
    if sel.contains(c as usize) {
        s == T::model_from(100)
    } else {
        exists|m: Matrix<T>|
            #[trigger] is_subset_matrix(m, data, sel.push(c as usize)) && trial_score(
                s,
                m,
                k,
                x0,
                tolerance,
                max_steps,
            )
    }
}

/// Every candidate score of an addition round, one per data column.
pub open spec fn add_scores_ok<T: Scalar>(
    scores: Seq<T>,
    sel: Seq<usize>,
    data: Matrix<T>,
    k: int,
    x0: Seq<T>,
    tolerance: T,
    max_steps: int,
) -> bool {
    &&& scores.len() == data.columns
    &&& forall|c: int|
        0 <= c < scores.len() ==> #[trigger] add_score_ok(
            scores[c],
            c,
            sel,
            data,
            k,
            x0,
            tolerance,
            max_steps,
        )
}

/// One candidate score of a removal round: a trial score on the selection
/// with the candidate position dropped.
pub open spec fn remove_score_ok<T: Scalar>(
    s: T,
    p: int,
    sel: Seq<usize>,
    data: Matrix<T>,
    k: int,
    x0: Seq<T>,
    tolerance: T,
    max_steps: int,
) -> bool {
    exists|m: Matrix<T>|
        #[trigger] is_subset_matrix(m, data, sel.remove(p)) && trial_score(
            s,
            m,
            k,
            x0,
            tolerance,
            max_steps,
        )
}

/// Every candidate score of a removal round, one per selected position.
pub open spec fn remove_scores_ok<T: Scalar>(
    scores: Seq<T>,
    sel: Seq<usize>,
    data: Matrix<T>,
    k: int,
    x0: Seq<T>,
    tolerance: T,
    max_steps: int,
) -> bool {
    &&& scores.len() == sel.len()
    &&& forall|p: int|
        0 <= p < scores.len() ==> #[trigger] remove_score_ok(
            scores[p],
            p,
            sel,
            data,
            k,
            x0,
            tolerance,
            max_steps,
        )
}

/// The accepted moves replay the acceptance rule from an empty selection:
/// each round scores every candidate, the winner is the first smallest
/// score of the round's scan, and the selection advances by that winner.
pub open spec fn moves_valid<T: Scalar>(
    moves: Seq<SelMove<T>>,
    data: Matrix<T>,
    k: int,
    x0: Seq<T>,
    tolerance: T,
    max_steps: int,
) -> bool
    decreases moves.len(),
{
    if moves.len() == 0 {
        true
    } else {
        let prev = moves.drop_last();
        let sel = if moves.len() == 1 {
            Seq::<usize>::empty()
        } else {
            prev.last().cols
        };
        let mv = moves.last();
        &&& moves_valid(prev, data, k, x0, tolerance, max_steps)
        &&& (mv.payload, mv.score) == argmin_model(mv.scores, mv.scores.len() as int)
        &&& (mv.is_add ==> {
            &&& add_scores_ok(mv.scores, sel, data, k, x0, tolerance, max_steps)
            &&& mv.cols == sel.push(mv.payload)
        })
        &&& (!mv.is_add ==> {
            &&& sel.len() > 1
            &&& remove_scores_ok(mv.scores, sel, data, k, x0, tolerance, max_steps)
            &&& mv.payload < sel.len()
            &&& mv.cols == sel.remove(mv.payload as int)
        })
    }
}

/// No addition improves on `best` for the selection `sel`: the round's scan
/// winner does not undercut it, or lands on an already selected column.
pub open spec fn no_improving_add<T: Scalar>(
    sel: Seq<usize>,
    best: T,
    data: Matrix<T>,
    k: int,
    x0: Seq<T>,
    tolerance: T,
    max_steps: int,
) -> bool {
    exists|scores: Seq<T>|
        #[trigger] add_scores_ok(scores, sel, data, k, x0, tolerance, max_steps) && (!(
        argmin_model(scores, scores.len() as int).1.model_lt(best)) || sel.contains(
            argmin_model(scores, scores.len() as int).0,
        ))
}

/// No removal improves on `best` for the selection `sel`.
pub open spec fn no_improving_remove<T: Scalar>(
    sel: Seq<usize>,
    best: T,
    data: Matrix<T>,
    k: int,
    x0: Seq<T>,
    tolerance: T,
    max_steps: int,
) -> bool {
    exists|scores: Seq<T>|
        #[trigger] remove_scores_ok(scores, sel, data, k, x0, tolerance, max_steps) && !(
        argmin_model(scores, scores.len() as int).1.model_lt(best))
}

/// The stepwise selection state: the chosen column indices, the best
/// objective value seen, and the configuration driving every trial fit. The
/// `accepted` history records each accepted objective value, for the
/// guarantee that the objective never rises across accepted steps.
pub struct CLUSTVARSEL<T> {
    /// The selected column indices, in acceptance order.
    pub final_selection: Vec<usize>,
    /// The best objective value accepted so far.
    pub best_bic: T,
    /// The configuration every trial fit runs under.
    pub training_setup: TrainingSetup<T>,
    /// The objective values of the accepted steps, oldest first.
    pub accepted: Ghost<Seq<T>>,
    /// The accepted moves of the latest search, oldest first.
    pub moves: Ghost<Seq<SelMove<T>>>,
}

impl<T: Scalar + 'static> CLUSTVARSEL<T> {
    /// A fresh selection state around the given configuration.
    pub fn new(
        number_clusters: usize,
        seed: u64,
        tolerance: T,
        max_steps: i32,
        initial_mixtures: Vec<T>,
        verbose: bool,
        cores: usize,
    ) -> (r: CLUSTVARSEL<T>)
        ensures
            r.final_selection@.len() == 0,
            r.best_bic == T::model_from(0),
            r.training_setup.number_clusters == number_clusters,
            r.training_setup.seed == seed,
            r.training_setup.tolerance == tolerance,
            r.training_setup.max_steps == max_steps,
            r.training_setup.initial_mixtures@ == initial_mixtures@,
            r.training_setup.verbose == verbose,
            r.training_setup.cores == cores,
            r.accepted@ == Seq::<T>::empty(),
            r.moves@ == Seq::<SelMove<T>>::empty(),
    {
        CLUSTVARSEL {
            final_selection: Vec::new(),
            best_bic: T::from_count(0),
            training_setup: TrainingSetup {
                number_clusters,
                seed,
                tolerance,
                max_steps,
                initial_mixtures,
                verbose,
                cores,
            },
            accepted: Ghost(Seq::empty()),
            moves: Ghost(Seq::empty()),
        }
    }

    /// Fits one fresh mixture on the trial matrix and scores it; a trial
    /// whose fit does not converge is scored with the sentinel objective
    /// value, which never undercuts an accepted one.
    fn trial_bic(&self, local_matrix: Matrix<T>) -> (r: T)
        requires
            self.training_setup.number_clusters >= 1,
            self.training_setup.max_steps >= 1,
            self.training_setup.initial_mixtures@.len() == self.training_setup.number_clusters,
            local_matrix.wf(),
            local_matrix.rows >= 1,
            local_matrix.columns >= 1,
            self.training_setup.number_clusters * local_matrix.rows <= usize::MAX,
            bic_count_fits(
                self.training_setup.number_clusters as int,
                local_matrix.columns as int,
            ),
        ensures
            trial_score(
                r,
                local_matrix,
                self.training_setup.number_clusters as int,
                self.training_setup.initial_mixtures@,
                self.training_setup.tolerance,
                self.training_setup.max_steps as int,
            ),
    {
        let mut gmm = GaussianMixtureModel::new(
            self.training_setup.number_clusters,
            self.training_setup.seed,
            copy_scalars(&self.training_setup.initial_mixtures),
            self.training_setup.max_steps,
            self.training_setup.tolerance,
        );

        match gmm.fit(&local_matrix) {
            Ok(_) => self.bic(gmm, local_matrix),
            Err(_) => {
                // A non-convergent trial is recoverable: it simply ranks as
                // badly as an already selected column.
                T::from_count(100)
            },
        }
    }

    /// Scores a fitted mixture on the given data slice against the
    /// Bayesian information criterion; lower is better.
    pub fn bic(&self, model: GaussianMixtureModel<T>, data: Matrix<T>) -> (r: T)
        requires
            model.gammas.wf(),
            self.training_setup.number_clusters >= 1,
            bic_count_fits(self.training_setup.number_clusters as int, data.columns as int),
        ensures
            r == bic_model(
                self.training_setup.number_clusters as int,
                model.gammas,
                data.columns as int,
            ),
    {
        let k = self.training_setup.number_clusters;
        let d = data.columns;
        proof {
            assert(d < usize::MAX) by (nonlinear_arith)
                requires
                    0 <= d,
                    d * d <= usize::MAX,
            ;
        }
        let ck_count: usize = k * d + (k - 1) + k * d * (d + 1) / 2;
        let ck: T = T::from_count(ck_count);

        let sum0 = match model.gammas.sum(0) {
            Ok(m) => m,
            Err(_) => {
                proof {
                    assert(false);
                }
                Matrix::empty()
            },
        };
        let total = match sum0.sum(1) {
            Ok(m) => m,
            Err(_) => {
                proof {
                    assert(false);
                }
                Matrix::empty()
            },
        };
        proof {
            lemma_grand_sum(sum0, model.gammas, model.gammas.columns as int);
            assert(total.ent(0, 0) == total.content@[0]);
        }
        let log_likelihood: T = total.content[0].ln();

        T::from_count(2).neg().times(log_likelihood).plus(T::from_count(d).times(ck.ln()))
    }

    /// Runs the stepwise search: each round tries to add the column whose
    /// trial fit scores best and then, with at least two columns selected,
    /// to drop the selected column whose removal scores best; a change is
    /// accepted only when it undercuts the best objective value seen. The
    /// search succeeds when a round changes nothing or every column is
    /// selected; a defensive round cap, which no run approaches, reports an
    /// error instead. The selected indices are distinct, within the data's
    /// columns, and the accepted objective values form a strictly
    /// descending history whose every entry is the winning score of its
    /// round.
    #[verifier::rlimit(100)]
    pub fn fit(&mut self, data: Matrix<T>) -> (r: Result<String, String>)
        requires
            old(self).training_setup.number_clusters >= 1,
            old(self).training_setup.max_steps >= 1,
            old(self).training_setup.initial_mixtures@.len() == old(
                self,
            ).training_setup.number_clusters,
            data.wf(),
            data.rows >= 1,
            data.columns >= 1,
            data.rows < usize::MAX,
            data.columns < usize::MAX,
            old(self).training_setup.number_clusters * data.rows <= usize::MAX,
            forall|dd: int|
                1 <= dd <= data.columns + 1 ==> #[trigger] bic_count_fits(
                    old(self).training_setup.number_clusters as int,
                    dd,
                ),
        ensures
            final(self).training_setup == old(self).training_setup,
            final(self).final_selection@.len() <= data.columns,
            forall|i: int|
                0 <= i < final(self).final_selection@.len()
                    ==> #[trigger] final(self).final_selection@[i] < data.columns,
            forall|i: int, j: int|
                0 <= i < final(self).final_selection@.len()
                    && 0 <= j < final(self).final_selection@.len() && i != j
                    ==> final(self).final_selection@[i] != final(self).final_selection@[j],
            old(self).accepted@.is_prefix_of(final(self).accepted@),
            descending_from(
                final(self).accepted@,
                old(self).accepted@.len() as int,
                old(self).best_bic,
            ),
            final(self).accepted@.len() == old(self).accepted@.len() ==> final(self).best_bic
                == old(self).best_bic,
            final(self).accepted@.len() > old(self).accepted@.len() ==> final(self).best_bic
                == final(self).accepted@.last(),
            final(self).moves@.len() == final(self).accepted@.len() - old(self).accepted@.len(),
            forall|i: int|
                0 <= i < final(self).moves@.len() ==> (#[trigger] final(self).moves@[i]).score
                    == final(self).accepted@[old(self).accepted@.len() + i],
            moves_valid(
                final(self).moves@,
                data,
                old(self).training_setup.number_clusters as int,
                old(self).training_setup.initial_mixtures@,
                old(self).training_setup.tolerance,
                old(self).training_setup.max_steps as int,
            ),
            final(self).final_selection@ == (if final(self).moves@.len() == 0 {
                Seq::<usize>::empty()
            } else {
                final(self).moves@.last().cols
            }),
            r is Ok ==> final(self).final_selection@.len() == data.columns || (no_improving_add(
                final(self).final_selection@,
                final(self).best_bic,
                data,
                old(self).training_setup.number_clusters as int,
                old(self).training_setup.initial_mixtures@,
                old(self).training_setup.tolerance,
                old(self).training_setup.max_steps as int,
            ) && (final(self).final_selection@.len() > 1 ==> no_improving_remove(
                final(self).final_selection@,
                final(self).best_bic,
                data,
                old(self).training_setup.number_clusters as int,
                old(self).training_setup.initial_mixtures@,
                old(self).training_setup.tolerance,
                old(self).training_setup.max_steps as int,
            ))),
            r is Err ==> final(self).accepted@.len() >= old(self).accepted@.len() + usize::MAX,
    {
        self.moves = Ghost(Seq::empty());
        let mut selected_columns: Vec<usize> = Vec::new();
        let mut current_matrix: Matrix<T> = Matrix::empty();

        let mut rounds: usize = 0;
        while rounds < usize::MAX
            invariant
                self.training_setup == old(self).training_setup,
                self.training_setup.number_clusters >= 1,
                self.training_setup.max_steps >= 1,
                self.training_setup.initial_mixtures@.len()
                    == self.training_setup.number_clusters,
                data.wf(),
                data.rows >= 1,
                data.columns >= 1,
                data.rows < usize::MAX,
                data.columns < usize::MAX,
                self.training_setup.number_clusters * data.rows <= usize::MAX,
                forall|dd: int|
                    1 <= dd <= data.columns + 1 ==> #[trigger] bic_count_fits(
                        self.training_setup.number_clusters as int,
                        dd,
                    ),
                selected_columns@.len() <= data.columns,
                forall|i: int|
                    0 <= i < selected_columns@.len() ==> #[trigger] selected_columns@[i]
                        < data.columns,
                forall|i: int, j: int|
                    0 <= i < selected_columns@.len() && 0 <= j < selected_columns@.len() && i != j
                        ==> selected_columns@[i] != selected_columns@[j],
                current_matrix.wf(),
                selected_columns@.len() == 0 ==> current_matrix.rows == 0
                    && current_matrix.columns == 0,
                selected_columns@.len() > 0 ==> current_matrix.rows == data.rows
                    && current_matrix.columns == selected_columns@.len(),
                old(self).accepted@.is_prefix_of(self.accepted@),
                descending_from(self.accepted@, old(self).accepted@.len() as int, old(self).best_bic),
                self.accepted@.len() == old(self).accepted@.len() ==> self.best_bic == old(
                    self,
                ).best_bic,
                self.accepted@.len() > old(self).accepted@.len() ==> self.best_bic
                    == self.accepted@.last(),
                self.moves@.len() == self.accepted@.len() - old(self).accepted@.len(),
                forall|i: int|
                    0 <= i < self.moves@.len() ==> (#[trigger] self.moves@[i]).score
                        == self.accepted@[old(self).accepted@.len() + i],
                moves_valid(
                    self.moves@,
                    data,
                    self.training_setup.number_clusters as int,
                    self.training_setup.initial_mixtures@,
                    self.training_setup.tolerance,
                    self.training_setup.max_steps as int,
                ),
                selected_columns@ == (if self.moves@.len() == 0 {
                    Seq::<usize>::empty()
                } else {
                    self.moves@.last().cols
                }),
                selected_columns@.len() > 0 ==> is_subset_matrix(
                    current_matrix,
                    data,
                    selected_columns@,
                ),
                self.accepted@.len() - old(self).accepted@.len() >= rounds,
            decreases usize::MAX - rounds,
        {
            let mut added: bool = false;
            let mut removed: bool = false;

            // Addition phase: score every not yet selected column.
            let mut bic_add: Vec<T> = Vec::new();
            let mut to_add: usize = 0;
            while to_add < data.columns
                invariant
                    to_add <= data.columns,
                    self.training_setup.number_clusters >= 1,
                    self.training_setup.max_steps >= 1,
                    self.training_setup.initial_mixtures@.len()
                        == self.training_setup.number_clusters,
                    data.wf(),
                    data.rows >= 1,
                    data.columns >= 1,
                    data.rows < usize::MAX,
                    data.columns < usize::MAX,
                    self.training_setup.number_clusters * data.rows <= usize::MAX,
                    forall|dd: int|
                        1 <= dd <= data.columns + 1 ==> #[trigger] bic_count_fits(
                            self.training_setup.number_clusters as int,
                            dd,
                        ),
                    selected_columns@.len() <= data.columns,
                    forall|i: int|
                        0 <= i < selected_columns@.len() ==> #[trigger] selected_columns@[i]
                            < data.columns,
                    current_matrix.wf(),
                    selected_columns@.len() == 0 ==> current_matrix.rows == 0
                        && current_matrix.columns == 0,
                    selected_columns@.len() > 0 ==> current_matrix.rows == data.rows
                        && current_matrix.columns == selected_columns@.len(),
                    selected_columns@.len() > 0 ==> is_subset_matrix(
                        current_matrix,
                        data,
                        selected_columns@,
                    ),
                    bic_add@.len() == to_add,
                    forall|c: int|
                        0 <= c < bic_add@.len() ==> #[trigger] add_score_ok(
                            bic_add@[c],
                            c,
                            selected_columns@,
                            data,
                            self.training_setup.number_clusters as int,
                            self.training_setup.initial_mixtures@,
                            self.training_setup.tolerance,
                            self.training_setup.max_steps as int,
                        ),
                decreases data.columns - to_add,
            {
                if !contains_value(&selected_columns, to_add) {
                    let mut local_matrix: Matrix<T> = current_matrix.clone();
                    let col = data.get_col(to_add);
                    match local_matrix.append_vector(col.content.as_slice(), 1) {
                        Ok(_) => (),
                        Err(_) => {
                            proof {
                                assert(false);
                            }
                        },
                    }
                    proof {
                        let newsel = selected_columns@.push(to_add);
                        assert forall|i: int, j: int|
                            0 <= i < local_matrix.rows && 0 <= j < local_matrix.columns
                                implies #[trigger] local_matrix.ent(i, j) == data.ent(
                                i,
                                newsel[j] as int,
                            ) by {
                            if selected_columns@.len() == 0 {
                                assert(local_matrix.ent(i, j) == local_matrix.content@[i * 1 + j]);
                                assert(local_matrix.content@[i] == data.col_model(to_add as int)[i]);
                            } else {
                                if j < selected_columns@.len() {
                                    assert(local_matrix.ent(i, j) == current_matrix.ent(i, j));
                                } else {
                                    assert(local_matrix.ent(i, j) == col.content@[i]);
                                    assert(col.content@[i] == data.col_model(to_add as int)[i]);
                                }
                            }
                        }
                        assert(is_subset_matrix(local_matrix, data, newsel));
                    }
                    let b = self.trial_bic(local_matrix);
                    bic_add.push(b);
                    proof {
                        assert(add_score_ok(
                            b,
                            to_add as int,
                            selected_columns@,
                            data,
                            self.training_setup.number_clusters as int,
                            self.training_setup.initial_mixtures@,
                            self.training_setup.tolerance,
                            self.training_setup.max_steps as int,
                        ));
                    }
                } else {
                    bic_add.push(T::from_count(100));
                }
                to_add += 1;
            }

            let argmin_add = argmin(&bic_add);

            // A winning score always belongs to an unselected column when
            // the objective starts at zero and only ever falls, since
            // selected columns carry the sentinel score; the two extra
            // guards state that expectation explicitly.
            if argmin_add.1.lt(self.best_bic) && !contains_value(&selected_columns, argmin_add.0)
                && selected_columns.len() < data.columns {
                let ghost oldsel = selected_columns@;
                let ghost oldmoves = self.moves@;
                selected_columns.push(argmin_add.0);
                let col = data.get_col(argmin_add.0);
                match current_matrix.append_vector(col.content.as_slice(), 1) {
                    Ok(_) => (),
                    Err(_) => {
                        proof {
                            assert(false);
                        }
                    },
                }
                self.accepted = Ghost(self.accepted@.push(argmin_add.1));
                self.best_bic = argmin_add.1;
                let ghost mv = SelMove {
                    is_add: true,
                    payload: argmin_add.0,
                    score: argmin_add.1,
                    scores: bic_add@,
                    cols: selected_columns@,
                };
                self.moves = Ghost(self.moves@.push(mv));
                proof {
                    assert forall|i: int, j: int|
                        0 <= i < current_matrix.rows && 0 <= j < current_matrix.columns
                            implies #[trigger] current_matrix.ent(i, j) == data.ent(
                            i,
                            selected_columns@[j] as int,
                        ) by {
                        if oldsel.len() == 0 {
                            assert(current_matrix.ent(i, j) == current_matrix.content@[i * 1 + j]);
                            assert(current_matrix.content@[i] == data.col_model(
                                argmin_add.0 as int,
                            )[i]);
                        } else {
                            if j < oldsel.len() {
                            } else {
                                assert(current_matrix.ent(i, j) == col.content@[i]);
                                assert(col.content@[i] == data.col_model(argmin_add.0 as int)[i]);
                            }
                        }
                    }
                    assert(is_subset_matrix(current_matrix, data, selected_columns@));
                    assert(self.moves@.drop_last() =~= oldmoves);
                    assert(selected_columns@ == oldsel.push(argmin_add.0));
                    assert(moves_valid(
                        self.moves@,
                        data,
                        self.training_setup.number_clusters as int,
                        self.training_setup.initial_mixtures@,
                        self.training_setup.tolerance,
                        self.training_setup.max_steps as int,
                    ));
                }
                added = true;
            }

            // Removal phase: with at least two columns selected, score every
            // selection with one column dropped.
            let mut bic_remove: Vec<T> = Vec::new();
            if selected_columns.len() > 1 {
                let mut attr: usize = 0;
                while attr < selected_columns.len()
                    invariant
                        attr <= selected_columns@.len(),
                        1 < selected_columns@.len() <= data.columns,
                        self.training_setup.number_clusters >= 1,
                        self.training_setup.max_steps >= 1,
                        self.training_setup.initial_mixtures@.len()
                            == self.training_setup.number_clusters,
                        data.wf(),
                        data.rows >= 1,
                        data.columns >= 1,
                        self.training_setup.number_clusters * data.rows <= usize::MAX,
                        forall|dd: int|
                            1 <= dd <= data.columns + 1 ==> #[trigger] bic_count_fits(
                                self.training_setup.number_clusters as int,
                                dd,
                            ),
                        current_matrix.wf(),
                        current_matrix.rows == data.rows,
                        current_matrix.columns == selected_columns@.len(),
                        is_subset_matrix(current_matrix, data, selected_columns@),
                        forall|i: int|
                            0 <= i < selected_columns@.len() ==> #[trigger] selected_columns@[i]
                                < data.columns,
                        bic_remove@.len() == attr,
                        forall|q: int|
                            0 <= q < bic_remove@.len() ==> #[trigger] remove_score_ok(
                                bic_remove@[q],
                                q,
                                selected_columns@,
                                data,
                                self.training_setup.number_clusters as int,
                                self.training_setup.initial_mixtures@,
                                self.training_setup.tolerance,
                                self.training_setup.max_steps as int,
                            ),
                    decreases selected_columns@.len() - attr,
                {
                    let mut local_matrix: Matrix<T> = current_matrix.clone();
                    let ghost before = local_matrix;
                    match local_matrix.remove(attr, 1) {
                        Ok(_) => (),
                        Err(_) => {
                            proof {
                                assert(false);
                            }
                        },
                    }
                    proof {
                        let shrunk = selected_columns@.remove(attr as int);
                        selected_columns@.remove_ensures(attr as int);
                        assert forall|i: int, j: int|
                            0 <= i < local_matrix.rows && 0 <= j < local_matrix.columns
                                implies #[trigger] local_matrix.ent(i, j) == data.ent(
                                i,
                                shrunk[j] as int,
                            ) by {
                            if j < attr {
                                assert(local_matrix.ent(i, j) == before.ent(i, j));
                                assert(current_matrix.ent(i, j) == data.ent(
                                    i,
                                    selected_columns@[j] as int,
                                ));
                                assert(before.ent(i, j) == current_matrix.ent(i, j));
                                assert(shrunk[j] == selected_columns@[j]);
                            } else {
                                assert(local_matrix.ent(i, j) == before.ent(i, j + 1));
                                assert(current_matrix.ent(i, j + 1) == data.ent(
                                    i,
                                    selected_columns@[j + 1] as int,
                                ));
                                assert(before.ent(i, j + 1) == current_matrix.ent(i, j + 1));
                                assert(shrunk[j] == selected_columns@[j + 1]);
                            }
                        }
                        assert(is_subset_matrix(local_matrix, data, shrunk));
                    }
                    let b = self.trial_bic(local_matrix);
                    bic_remove.push(b);
                    proof {
                        assert(remove_score_ok(
                            b,
                            attr as int,
                            selected_columns@,
                            data,
                            self.training_setup.number_clusters as int,
                            self.training_setup.initial_mixtures@,
                            self.training_setup.tolerance,
                            self.training_setup.max_steps as int,
                        ));
                    }
                    attr += 1;
                }

                let argmin_remove = argmin(&bic_remove);

                if argmin_remove.1.lt(self.best_bic) {
                    let ghost oldsel = selected_columns@;
                    let ghost oldmoves = self.moves@;
                    let ghost before = current_matrix;
                    match current_matrix.remove(argmin_remove.0, 1) {
                        Ok(_) => (),
                        Err(_) => {
                            proof {
                                assert(false);
                            }
                        },
                    }
                    selected_columns.remove(argmin_remove.0);
                    self.accepted = Ghost(self.accepted@.push(argmin_remove.1));
                    self.best_bic = argmin_remove.1;
                    let ghost mv = SelMove {
                        is_add: false,
                        payload: argmin_remove.0,
                        score: argmin_remove.1,
                        scores: bic_remove@,
                        cols: selected_columns@,
                    };
                    self.moves = Ghost(self.moves@.push(mv));
                    proof {
                        assert(selected_columns@ == oldsel.remove(argmin_remove.0 as int));
                        oldsel.remove_ensures(argmin_remove.0 as int);
                        assert forall|i: int, j: int|
                            0 <= i < current_matrix.rows && 0 <= j < current_matrix.columns
                                implies #[trigger] current_matrix.ent(i, j) == data.ent(
                                i,
                                selected_columns@[j] as int,
                            ) by {
                            if j < argmin_remove.0 {
                                assert(current_matrix.ent(i, j) == before.ent(i, j));
                                assert(before.ent(i, j) == data.ent(i, oldsel[j] as int));
                                assert(selected_columns@[j] == oldsel[j]);
                            } else {
                                assert(current_matrix.ent(i, j) == before.ent(i, j + 1));
                                assert(before.ent(i, j + 1) == data.ent(i, oldsel[j + 1] as int));
                                assert(selected_columns@[j] == oldsel[j + 1]);
                            }
                        }
                        assert(is_subset_matrix(current_matrix, data, selected_columns@));
                        assert(self.moves@.drop_last() =~= oldmoves);
                        assert(moves_valid(
                            self.moves@,
                            data,
                            self.training_setup.number_clusters as int,
                            self.training_setup.initial_mixtures@,
                            self.training_setup.tolerance,
                            self.training_setup.max_steps as int,
                        ));
                    }
                    removed = true;
                }
            }

            if (!removed && !added) || selected_columns.len() == data.columns {
                self.final_selection = copy_indices(&selected_columns);
                proof {
                    if selected_columns@.len() != data.columns {
                        assert(add_scores_ok(
                            bic_add@,
                            selected_columns@,
                            data,
                            self.training_setup.number_clusters as int,
                            self.training_setup.initial_mixtures@,
                            self.training_setup.tolerance,
                            self.training_setup.max_steps as int,
                        ));
                        assert(no_improving_add(
                            selected_columns@,
                            self.best_bic,
                            data,
                            self.training_setup.number_clusters as int,
                            self.training_setup.initial_mixtures@,
                            self.training_setup.tolerance,
                            self.training_setup.max_steps as int,
                        ));
                        if selected_columns@.len() > 1 {
                            assert(remove_scores_ok(
                                bic_remove@,
                                selected_columns@,
                                data,
                                self.training_setup.number_clusters as int,
                                self.training_setup.initial_mixtures@,
                                self.training_setup.tolerance,
                                self.training_setup.max_steps as int,
                            ));
                            assert(no_improving_remove(
                                selected_columns@,
                                self.best_bic,
                                data,
                                self.training_setup.number_clusters as int,
                                self.training_setup.initial_mixtures@,
                                self.training_setup.tolerance,
                                self.training_setup.max_steps as int,
                            ));
                        }
                    }
                }
                return Ok("Converged".to_string());
            }

            rounds += 1;
        }

        // The defensive round cap; a run that improves its objective this
        // many times cannot occur, so the path stands only for the verifier.
        self.final_selection = copy_indices(&selected_columns);
        Err("Round limit reached".to_string())
    }
}

/// `sum0` holds the column sums of `g`; folding its first row is folding
/// the grand sum of `g`.
proof fn lemma_grand_sum<T: Scalar>(sum0: Matrix<T>, g: Matrix<T>, k: int)
    requires
        sum0.wf(),
        sum0.rows == 1,
        sum0.columns == g.columns,
        0 <= k <= g.columns,
        forall|c: int|
            0 <= c < g.columns ==> #[trigger] sum0.ent(0, c)
                == crate::calculations::matrix::col_sum_model(g, c, g.rows as int),
    ensures
        crate::calculations::matrix::row_sum_model(sum0, 0, k) == gamma_grand_model(g, k),
    decreases k,
{
    if k > 0 {
        lemma_grand_sum(sum0, g, k - 1);
    }
}

/// Whether the vector holds the value.
fn contains_value(v: &Vec<usize>, x: usize) -> (r: bool)
    ensures
        r == v@.contains(x),
{
    let mut i: usize = 0;
    while i < v.len()
        invariant
            i <= v@.len(),
            forall|q: int| 0 <= q < i ==> v@[q] != x,
        decreases v@.len() - i,
    {
        if v[i] == x {
            proof {
                assert(v@.contains(x));
            }
            return true;
        }
        i += 1;
    }
    proof {
        assert(!v@.contains(x));
    }
    false
}

/// The scan for the smallest score over the first `k` entries: the running
/// pair starts at position zero with the sentinel value and is replaced
/// exactly when a score is strictly smaller, so the first smallest wins.
pub open spec fn argmin_model<T: Scalar>(scores: Seq<T>, k: int) -> (usize, T)
    decreases k,
{
    if k <= 0 {
        (0usize, T::model_from(100))
    } else {
        let prev = argmin_model(scores, k - 1);
        if scores[k - 1].model_lt(prev.1) {
            ((k - 1) as usize, scores[k - 1])
        } else {
            prev
        }
    }
}

/// Runs the smallest-score scan over the whole vector.
fn argmin<T: Scalar>(scores: &Vec<T>) -> (r: (usize, T))
    ensures
        r == argmin_model(scores@, scores@.len() as int),
        r.0 < scores@.len() || (r.0 == 0 && r.1 == T::model_from(100)),
{
    let mut best: (usize, T) = (0, T::from_count(100));
    let mut i: usize = 0;
    while i < scores.len()
        invariant
            i <= scores@.len(),
            best == argmin_model(scores@, i as int),
            best.0 < scores@.len() || (best.0 == 0 && best.1 == T::model_from(100)),
        decreases scores@.len() - i,
    {
        if scores[i].lt(best.1) {
            best = (i, scores[i]);
        }
        i += 1;
    }
    best
}

/// A fresh vector holding the same indices.
fn copy_indices(v: &Vec<usize>) -> (r: Vec<usize>)
    ensures
        r@ == v@,
{
    let mut r: Vec<usize> = Vec::new();
    let mut i: usize = 0;
    while i < v.len()
        invariant
            i <= v@.len(),
            r@ == v@.subrange(0, i as int),
        decreases v@.len() - i,
    {
        r.push(v[i]);
        proof {
            assert(r@ =~= v@.subrange(0, i + 1));
        }
        i += 1;
    }
    proof {
        assert(v@.subrange(0, v@.len() as int) =~= v@);
    }
    r
}

} // verus!
