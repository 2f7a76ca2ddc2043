//! Traits for estimators and arrays of estimators.

pub mod estimator;
pub mod estimator_array;

pub use estimator::{
    EstimationLogic, Estimator, EstimatorMut, LogicRef, MergeEstimationLogic, MergeEstimator,
    SliceEstimationLogic,
};
pub use estimator_array::{AsSyncArray, EstimatorArray, EstimatorArrayMut, SyncEstimatorArray};
