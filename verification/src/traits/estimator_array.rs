//! Arrays of estimators.

use crate::traits::estimator::{EstimationLogic, Estimator, EstimatorMut};
use vstd::prelude::*;

verus! {

/// An array of immutable estimators sharing a [`EstimationLogic`].
///
/// Arrays of estimators are useful because they share the same logic, thus
/// saving space. To specifications, an array is a logic, a length, and one
/// backend for each index below the length.
///
/// The lifetime is that of the estimators that the array hands out.
pub trait EstimatorArray<'a, L: EstimationLogic + ?Sized> {
    /// The type of immutable estimator returned by
    /// [`get_estimator`](EstimatorArray::get_estimator).
    type Estimator: Estimator<L>;

    /// Whether the array is well formed: every backend is valid for the logic.
    spec fn wf(&self) -> bool;

    /// The logic used by the estimators in the array.
    spec fn spec_logic(&self) -> &L;

    /// The number of estimators in the array.
    spec fn spec_len(&self) -> nat;

    /// The backend of the estimator at the specified index.
    spec fn spec_backend(&self, index: int) -> <L::Backend as View>::V;

    /// Returns the logic used by the estimators in the array.
    fn logic(&self) -> (logic: &L)
        ensures
            logic == self.spec_logic(),
    ;

    /// Returns the estimator at the specified index as an immutable estimator.
    fn get_estimator(&'a self, index: usize) -> (estimator: Self::Estimator)
        requires
            self.wf(),
            index < self.spec_len(),
        ensures
            estimator.spec_logic() == self.spec_logic(),
            estimator.backend() == self.spec_backend(index as int),
            estimator.valid(),
    ;

    /// Returns an immutable reference to the backend of the estimator at the
    /// specified index.
    fn get_backend(&self, index: usize) -> (backend: &L::Backend)
        requires
            self.wf(),
            index < self.spec_len(),
        ensures
            backend@ == self.spec_backend(index as int),
            self.spec_logic().valid_backend(backend@),
    ;

    /// Returns the number of estimators in the array.
    fn len(&self) -> (len: usize)
        requires
            self.wf(),
        ensures
            len == self.spec_len(),
    ;

    /// Returns `true` if the array contains no estimators.
    fn is_empty(&self) -> (empty: bool)
        requires
            self.wf(),
        ensures
            empty == (self.spec_len() == 0),
    {
        self.len() == 0
    }
}

/// An array of mutable estimators sharing a [`EstimationLogic`].
pub trait EstimatorArrayMut<'a, L: EstimationLogic + ?Sized>: EstimatorArray<'a, L> {
    /// The type of mutable estimator returned by
    /// [`get_estimator_mut`](EstimatorArrayMut::get_estimator_mut).
    type EstimatorMut: EstimatorMut<L>;

    /// Returns the estimator at the specified index as a mutable estimator.
    fn get_estimator_mut(&'a mut self, index: usize) -> (estimator: Self::EstimatorMut)
        requires
            old(self).wf(),
            index < old(self).spec_len(),
        ensures
            estimator.spec_logic() == old(self).spec_logic(),
            estimator.backend() == old(self).spec_backend(index as int),
            estimator.valid(),
    ;

    /// Returns a mutable reference to the backend of the estimator at the
    /// specified index. What is written there is that backend from then on;
    /// the other backends stay as they are.
    fn get_backend_mut(&mut self, index: usize) -> (backend: &mut L::Backend)
        requires
            old(self).wf(),
            index < old(self).spec_len(),
        ensures
            backend@ == old(self).spec_backend(index as int),
            old(self).spec_logic().valid_backend(backend@),
            final(self).wf(),
            final(self).spec_logic() == old(self).spec_logic(),
            final(self).spec_len() == old(self).spec_len(),
            final(self).spec_backend(index as int) == final(backend)@,
            forall|i: int|
                0 <= i < old(self).spec_len() && i != index
                    ==> #[trigger] final(self).spec_backend(i) == old(self).spec_backend(i),
    ;

    /// Resets all estimators in the array: every counter of every estimator
    /// becomes zero.
    fn clear(&mut self)
        requires
            old(self).wf(),
        ensures
            final(self).wf(),
            final(self).spec_logic() == old(self).spec_logic(),
            final(self).spec_len() == old(self).spec_len(),
            forall|i: int|
                0 <= i < final(self).spec_len() ==> final(self).spec_logic().counters(
                    #[trigger] final(self).spec_backend(i),
                ) == Seq::new(
                    final(self).spec_logic().counters(final(self).spec_backend(i)).len(),
                    |j: int| 0nat,
                ),
    ;
}

/// An array of estimators sharing a [`EstimationLogic`] that can be shared
/// between threads.
///
/// It is possible to copy the backend of an estimator in or out, but not to
/// obtain a reference to a backend.
pub trait SyncEstimatorArray<L: EstimationLogic + ?Sized>: Sync {
    /// Whether the array is well formed.
    spec fn wf(&self) -> bool;

    /// The logic used by the estimators in the array.
    spec fn spec_logic(&self) -> &L;

    /// The number of estimators in the array.
    spec fn spec_len(&self) -> nat;

    /// Returns the logic used by the estimators in the array.
    fn logic(&self) -> (logic: &L)
        ensures
            logic == self.spec_logic(),
    ;

    /// Returns the number of estimators in the array.
    fn len(&self) -> (len: usize)
        requires
            self.wf(),
        ensures
            len == self.spec_len(),
    ;

    /// Returns `true` if the array contains no estimators.
    fn is_empty(&self) -> (empty: bool)
        requires
            self.wf(),
        ensures
            empty == (self.spec_len() == 0),
    {
        self.len() == 0
    }
}

/// A trait for estimator arrays that can be viewed as a [`SyncEstimatorArray`].
pub trait AsSyncArray<'a, L: EstimationLogic + ?Sized>: EstimatorArray<'a, L> {
    /// The type of the view.
    type SyncEstimatorArray: SyncEstimatorArray<L>;

    /// Converts a mutable reference to this type into a shared reference to
    /// a [`SyncEstimatorArray`] over the same estimators.
    fn as_sync_array(&'a mut self) -> (view: Self::SyncEstimatorArray)
        requires
            old(self).wf(),
        ensures
            view.wf(),
            view.spec_logic() == old(self).spec_logic(),
            view.spec_len() == old(self).spec_len(),
    ;
}

} // verus!
