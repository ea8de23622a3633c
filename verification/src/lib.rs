//! Stepwise variable selection for model-based clustering.
//!
//! The crate provides a dense row-major [`calculations::matrix::Matrix`] with its linear
//! algebra, covariance and multivariate Gaussian density routines, K-means++
//! seeding with Lloyd iteration, a Gaussian mixture model fitted by
//! expectation-maximization, and the BIC-driven stepwise column search that
//! ties them together.
//!
//! Every routine is generic over [`scalar::Scalar`], a numeric-capability
//! interface. Contracts pin each result down to an exact formula over the
//! scalar operations, in the evaluation order the code uses; a caller
//! instantiates the interface with its own numeric type.

pub mod backup;
pub mod calculations;
pub mod helpers;
pub mod models;
pub mod scalar;
pub mod training_setup;
