//! Estimation logics.

use crate::registers::max_registers;
use std::borrow::Borrow;
use vstd::prelude::*;

verus! {

/// A kind of cardinality estimator.
///
/// A logic holds the parameters of a family of estimators and the routines
/// that work on their backends; the backends themselves live elsewhere. This
/// makes it possible to keep a large number of estimators in one buffer, all
/// sharing one logic.
///
/// To specifications, the state of an estimator is a sequence of counters,
/// read from the view of its backend by [`EstimationLogic::counters`]. Adding
/// an element never lowers a counter, and an estimator that has seen nothing
/// has every counter at zero.
pub trait EstimationLogic {
    /// The type of items.
    type Item;

    /// The type of the backend.
    type Backend: ?Sized + View;

    /// Whether a backend has the shape that this logic works on.
    spec fn valid_backend(&self, backend: <Self::Backend as View>::V) -> bool;

    /// The counters that a backend holds.
    spec fn counters(&self, backend: <Self::Backend as View>::V) -> Seq<nat>;

    /// Whether `after` is what adding one element to `before` can leave.
    spec fn added(
        &self,
        before: <Self::Backend as View>::V,
        after: <Self::Backend as View>::V,
    ) -> bool;

    /// Whether `backend` is what clearing leaves.
    spec fn cleared(&self, backend: <Self::Backend as View>::V) -> bool;

    /// Adds an element to an estimator with the given backend.
    ///
    /// The backend keeps its shape, and no counter decreases.
    fn add(&self, backend: &mut Self::Backend, element: impl Borrow<Self::Item>)
        requires
            self.valid_backend(old(backend)@),
        ensures
            self.added(old(backend)@, final(backend)@),
            self.valid_backend(final(backend)@),
            self.counters(final(backend)@).len() == self.counters(old(backend)@).len(),
            forall|j: int|
                0 <= j < self.counters(old(backend)@).len() ==> self.counters(old(backend)@)[j]
                    <= #[trigger] self.counters(final(backend)@)[j],
    ;

    /// Clears a backend, making it empty: every counter becomes zero.
    fn clear(&self, backend: &mut Self::Backend)
        requires
            self.valid_backend(old(backend)@),
        ensures
            self.cleared(final(backend)@),
            self.valid_backend(final(backend)@),
            self.counters(final(backend)@) == Seq::new(
                self.counters(old(backend)@).len(),
                |j: int| 0nat,
            ),
    ;

    /// Sets the contents of `dst` to the contents of `src`.
    fn set(&self, dst: &mut Self::Backend, src: &Self::Backend)
        requires
            self.valid_backend(old(dst)@),
            self.valid_backend(src@),
        ensures
            final(dst)@ == src@,
    ;
}

/// An extension of [`EstimationLogic`] providing methods to merge backends.
///
/// Merging `src` into `dst` leaves in `dst` the state of an estimator that
/// has seen what either has seen: each counter becomes the larger of the two.
pub trait MergeEstimationLogic: EstimationLogic {
    /// The type of the helper used in merge calculations.
    ///
    /// A helper is scratch space that a caller may obtain once with
    /// [`MergeEstimationLogic::new_helper`] and hand to many calls of
    /// [`MergeEstimationLogic::merge_with_helper`].
    type Helper;

    /// Whether `merged` is what merging `src` into `dst` leaves in `dst`.
    spec fn merged(
        &self,
        dst: <Self::Backend as View>::V,
        src: <Self::Backend as View>::V,
        merged: <Self::Backend as View>::V,
    ) -> bool;

    /// Creates a new helper to use in merge operations.
    fn new_helper(&self) -> Self::Helper;

    /// Merges `src` into `dst`.
    fn merge(&self, dst: &mut Self::Backend, src: &Self::Backend)
        requires
            self.valid_backend(old(dst)@),
            self.valid_backend(src@),
        ensures
            self.merged(old(dst)@, src@, final(dst)@),
            self.valid_backend(final(dst)@),
            self.counters(final(dst)@) == max_registers(
                self.counters(old(dst)@),
                self.counters(src@),
            ),
    {
        let mut helper = self.new_helper();
        self.merge_with_helper(dst, src, &mut helper);
    }

    /// Merges `src` into `dst` using the provided helper to avoid allocations.
    fn merge_with_helper(
        &self,
        dst: &mut Self::Backend,
        src: &Self::Backend,
        helper: &mut Self::Helper,
    )
        requires
            self.valid_backend(old(dst)@),
            self.valid_backend(src@),
        ensures
            self.merged(old(dst)@, src@, final(dst)@),
            self.valid_backend(final(dst)@),
            self.counters(final(dst)@) == max_registers(
                self.counters(old(dst)@),
                self.counters(src@),
            ),
    ;
}

/// Trait implemented by [estimation logics](EstimationLogic) whose backend is
/// a slice of elements of some type.
pub trait SliceEstimationLogic<T>: EstimationLogic<Backend = [T]> {
    /// The number of elements of type `T` in a backend.
    spec fn spec_backend_len(&self) -> nat;

    /// A backend is valid exactly when it has
    /// [`spec_backend_len`](SliceEstimationLogic::spec_backend_len) elements.
    proof fn lemma_valid_backend(&self, backend: Seq<T>)
        ensures
            self.valid_backend(backend) <==> backend.len() == self.spec_backend_len(),
    ;

    /// The element that an empty backend is filled with.
    spec fn spec_empty_element(&self) -> T;

    /// A backend filled with the
    /// [empty element](SliceEstimationLogic::spec_empty_element) is empty:
    /// every counter is zero.
    proof fn lemma_empty_backend(&self, backend: Seq<T>)
        requires
            backend.len() == self.spec_backend_len(),
            forall|i: int| 0 <= i < backend.len() ==> backend[i] == self.spec_empty_element(),
        ensures
            self.counters(backend) == Seq::new(self.counters(backend).len(), |j: int| 0nat),
    ;

    /// The number of elements of type `T` in a backend. It is never zero.
    fn backend_len(&self) -> (len: usize)
        ensures
            len == self.spec_backend_len(),
            len > 0,
    ;

    /// The element that an empty backend is filled with.
    fn empty_element(&self) -> (element: T)
        ensures
            element == self.spec_empty_element(),
    ;
}

/// Something that gives access to a logic: the logic itself, or a reference
/// to it.
pub trait LogicRef<L> {
    /// The logic.
    spec fn logic_ref(&self) -> &L;

    /// Returns the logic.
    fn borrow_logic(&self) -> (logic: &L)
        ensures
            logic == self.logic_ref(),
    ;
}

impl<L> LogicRef<L> for L {
    open spec fn logic_ref(&self) -> &L {
        self
    }

    fn borrow_logic(&self) -> (logic: &L) {
        self
    }
}

impl<'a, L> LogicRef<L> for &'a L {
    open spec fn logic_ref(&self) -> &L {
        *self
    }

    fn borrow_logic(&self) -> (logic: &L) {
        *self
    }
}

/// An immutable estimator: a logic together with a backend.
///
/// Immutable estimators are usually views over some larger structure.
pub trait Estimator<L: EstimationLogic + ?Sized> {
    /// The type returned by [`Estimator::into_owned`].
    type OwnedEstimator;

    /// The logic of the estimator.
    spec fn spec_logic(&self) -> &L;

    /// The view of the backend of the estimator.
    spec fn backend(&self) -> <L::Backend as View>::V;

    /// Whether the backend has the shape that the logic works on.
    open spec fn valid(&self) -> bool {
        self.spec_logic().valid_backend(self.backend())
    }

    /// The counters that the backend holds.
    open spec fn counters(&self) -> Seq<nat> {
        self.spec_logic().counters(self.backend())
    }

    /// Returns the logic of the estimator.
    fn logic(&self) -> (logic: &L)
        ensures
            logic == self.spec_logic(),
    ;

    /// Returns the backend of the estimator.
    fn as_ref(&self) -> (backend: &L::Backend)
        ensures
            backend@ == self.backend(),
    ;

    /// Converts this estimator into an owned version capable of mutation,
    /// whose backend is a copy of the backend of this one.
    fn into_owned(self) -> Self::OwnedEstimator where Self: Sized;
}

/// A mutable estimator.
pub trait EstimatorMut<L: EstimationLogic + ?Sized>: Estimator<L> {
    /// Returns the backend of the estimator, for writing. What is written
    /// there is the backend of the estimator from then on.
    fn as_mut(&mut self) -> (backend: &mut L::Backend)
        ensures
            backend@ == old(self).backend(),
            final(self).backend() == final(backend)@,
            final(self).spec_logic() == old(self).spec_logic(),
    ;

    /// Adds an element to the estimator, as the logic does. No counter
    /// decreases.
    fn add(&mut self, element: impl Borrow<L::Item>)
        requires
            old(self).valid(),
        ensures
            final(self).spec_logic() == old(self).spec_logic(),
            old(self).spec_logic().added(old(self).backend(), final(self).backend()),
            final(self).valid(),
            final(self).counters().len() == old(self).counters().len(),
            forall|j: int|
                0 <= j < old(self).counters().len() ==> old(self).counters()[j]
                    <= #[trigger] final(self).counters()[j],
    ;

    /// Clears the estimator, as the logic does: every counter becomes zero.
    fn clear(&mut self)
        requires
            old(self).valid(),
        ensures
            final(self).spec_logic() == old(self).spec_logic(),
            old(self).spec_logic().cleared(final(self).backend()),
            final(self).valid(),
            final(self).counters() == Seq::new(old(self).counters().len(), |j: int| 0nat),
    ;

    /// Sets the contents of `self` to the given backend.
    fn set(&mut self, backend: &L::Backend)
        requires
            old(self).valid(),
            old(self).spec_logic().valid_backend(backend@),
        ensures
            final(self).spec_logic() == old(self).spec_logic(),
            final(self).backend() == backend@,
    ;
}

/// An estimator capable of merging.
pub trait MergeEstimator<L: MergeEstimationLogic + ?Sized>: EstimatorMut<L> {
    /// Merges a backend into `self`, as the logic does.
    fn merge(&mut self, backend: &L::Backend)
        requires
            old(self).valid(),
            old(self).spec_logic().valid_backend(backend@),
        ensures
            final(self).spec_logic() == old(self).spec_logic(),
            old(self).spec_logic().merged(old(self).backend(), backend@, final(self).backend()),
            final(self).valid(),
            final(self).counters() == max_registers(
                old(self).counters(),
                old(self).spec_logic().counters(backend@),
            ),
    {
        let mut helper = self.logic().new_helper();
        self.merge_with_helper(backend, &mut helper);
    }

    /// Merges a backend into `self` using the provided helper to avoid
    /// allocations.
    fn merge_with_helper(&mut self, backend: &L::Backend, helper: &mut L::Helper)
        requires
            old(self).valid(),
            old(self).spec_logic().valid_backend(backend@),
        ensures
            final(self).spec_logic() == old(self).spec_logic(),
            old(self).spec_logic().merged(old(self).backend(), backend@, final(self).backend()),
            final(self).valid(),
            final(self).counters() == max_registers(
                old(self).counters(),
                old(self).spec_logic().counters(backend@),
            ),
    ;
}

} // verus!
