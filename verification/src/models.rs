//! The clustering models: K-means++ seeding, the Gaussian mixture fitted by
//! expectation-maximization, and the stepwise column selection driving them.

pub mod clustvarsel;
pub mod distances;
pub mod gmm;
pub mod kmeans;
