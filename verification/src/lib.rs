//! Cardinality estimators, and packed arrays of estimators that share one
//! estimation logic.

pub mod bit_field;
pub mod error;
pub mod impls;
pub mod laws;
pub mod packed;
pub mod rank;
pub mod registers;
pub mod traits;
pub mod word;
