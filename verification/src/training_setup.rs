//! The immutable configuration a fit runs under.

use vstd::prelude::*;

use crate::scalar::Scalar;

verus! {

/// Everything a fit needs to know: cluster count, seed, convergence
/// tolerance, iteration cap, starting mixture weights, verbosity and a
/// worker-count hint. The hint is carried for callers that schedule trial
/// fits themselves; the library's own loops are sequential.
pub struct TrainingSetup<T> {
    /// Number of mixture components.
    pub number_clusters: usize,
    /// Seed of the deterministic generator used by the seeding step.
    pub seed: u64,
    /// Convergence tolerance on the mean squared movement of the means.
    pub tolerance: T,
    /// Cap on expectation-maximization iterations.
    pub max_steps: i32,
    /// Starting mixture weights, one per component.
    pub initial_mixtures: Vec<T>,
    /// Whether a caller wants progress reported.
    pub verbose: bool,
    /// Worker-count hint for callers that parallelize trial fits.
    pub cores: usize,
}

impl<T: Scalar> Clone for TrainingSetup<T> {
    /// A field-by-field copy of the configuration.
    fn clone(&self) -> (r: Self)
        ensures
            r.number_clusters == self.number_clusters,
            r.seed == self.seed,
            r.tolerance == self.tolerance,
            r.max_steps == self.max_steps,
            r.initial_mixtures@ == self.initial_mixtures@,
            r.verbose == self.verbose,
            r.cores == self.cores,
    {
        TrainingSetup {
            number_clusters: self.number_clusters,
            seed: self.seed,
            tolerance: self.tolerance,
            max_steps: self.max_steps,
            initial_mixtures: copy_scalars(&self.initial_mixtures),
            verbose: self.verbose,
            cores: self.cores,
        }
    }
}

/// A fresh vector holding the same scalars.
pub fn copy_scalars<T: Scalar>(v: &Vec<T>) -> (r: Vec<T>)
    ensures
        r@ == v@,
{
    let mut r: Vec<T> = Vec::new();
    let mut i: usize = 0;
    while i < v.len()
        invariant
            i <= v@.len(),
            r@ == v@.subrange(0, i as int),
        decreases v@.len() - i,
    {
        r.push(v[i]);
        proof {
            assert(r@ =~= v@.subrange(0, i + 1));
        }
        i += 1;
    }
    proof {
        assert(v@.subrange(0, v@.len() as int) =~= v@);
    }
    r
}

} // verus!
