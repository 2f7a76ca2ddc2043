//! Estimation logics, estimators and arrays of estimators.

pub mod default_estimator;
pub mod hyper_log_log;
pub mod slice_estimator_array;

pub use default_estimator::DefaultEstimator;
pub use hyper_log_log::{HyperLogLog, HyperLogLogBuilder};
pub use slice_estimator_array::{SliceEstimatorArray, SyncSliceEstimatorArray};
