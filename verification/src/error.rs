//! The ways in which a request can be wrong.

use vstd::prelude::*;

verus! {

/// What is wrong with a request.
#[derive(Clone, Copy, Debug, PartialEq, Eq, Structural)]
pub enum Error {
    /// The parameters do not describe an estimator: the number of registers
    /// is out of range, or the register width does not fit the ranks or the
    /// word.
    InvalidParams,
    /// A backend does not have the length that the logic asks for.
    LengthMismatch,
    /// An index is not below the number of estimators of an array.
    IndexOutOfRange,
}

} // verus!
