//! Estimators made of a logic and a backend.

use crate::registers::max_registers;
use crate::traits::estimator::{
    EstimationLogic, Estimator, EstimatorMut, LogicRef, MergeEstimationLogic, MergeEstimator,
    SliceEstimationLogic,
};
use std::borrow::Borrow;
use std::marker::PhantomData;
use vstd::prelude::*;
use vstd::slice::slice_to_vec;

verus! {

/// A default estimator for generic [`EstimationLogic`] and backends.
///
/// The logic is held directly or by reference; the backend is a shared
/// slice, a mutable slice or a vector of words. An estimator over a slice is
/// a view: it owns nothing, and what is done through a mutable view is done
/// to the slice.
pub struct DefaultEstimator<L: EstimationLogic, BL: LogicRef<L>, B> {
    /// The logic, or a reference to it.
    pub logic: BL,
    /// The backend.
    pub backend: B,
    /// Ties the estimator to the type of its logic.
    pub marker: PhantomData<L>,
}

impl<L: EstimationLogic, BL: LogicRef<L>, B> DefaultEstimator<L, BL, B> {
    /// Creates a new default estimator for the specified logic and backend.
    pub fn new(logic: BL, backend: B) -> (estimator: Self)
        ensures
            estimator.logic == logic,
            estimator.backend == backend,
    {
        DefaultEstimator { logic, backend, marker: PhantomData }
    }
}

impl<'a, L: SliceEstimationLogic<W> + Clone, BL: LogicRef<L>, W: Copy> Estimator<
    L,
> for DefaultEstimator<L, BL, &'a [W]> {
    type OwnedEstimator = DefaultEstimator<L, L, Vec<W>>;

    open spec fn spec_logic(&self) -> &L {
        self.logic.logic_ref()
    }

    open spec fn backend(&self) -> Seq<W> {
        self.backend@
    }

    fn logic(&self) -> (logic: &L) {
        self.logic.borrow_logic()
    }

    fn as_ref(&self) -> (backend: &[W]) {
        self.backend
    }

    /// Copies the backend into a vector, and clones the logic.
    fn into_owned(self) -> (owned: DefaultEstimator<L, L, Vec<W>>)
        ensures
            owned.backend@ == self.backend@,
            cloned(*self.logic.logic_ref(), owned.logic),
    {
        let logic = self.logic.borrow_logic().clone();
        DefaultEstimator::new(logic, slice_to_vec(self.backend))
    }
}


impl<'a, L: SliceEstimationLogic<W> + Clone, BL: LogicRef<L>, W: Copy> Estimator<
    L,
> for DefaultEstimator<L, BL, &'a mut [W]> {
    type OwnedEstimator = DefaultEstimator<L, L, Vec<W>>;

    open spec fn spec_logic(&self) -> &L {
        self.logic.logic_ref()
    }

    open spec fn backend(&self) -> Seq<W> {
        self.backend@
    }

    fn logic(&self) -> (logic: &L) {
        self.logic.borrow_logic()
    }

    fn as_ref(&self) -> (backend: &[W]) {
        &*self.backend
    }

    /// Copies the backend into a vector, and clones the logic. The slice
    /// stays as it is.
    fn into_owned(self) -> (owned: DefaultEstimator<L, L, Vec<W>>)
        ensures
            owned.backend@ == old(self.backend)@,
            cloned(*self.logic.logic_ref(), owned.logic),
            final(self.backend)@ == old(self.backend)@,
    {
        let logic = self.logic.borrow_logic().clone();
        let backend = slice_to_vec(&*self.backend);
        DefaultEstimator::new(logic, backend)
    }
}

impl<'a, L: SliceEstimationLogic<W> + Clone, BL: LogicRef<L>, W: Copy> EstimatorMut<
    L,
> for DefaultEstimator<L, BL, &'a mut [W]> {
    fn as_mut(&mut self) -> (backend: &mut [W])
        ensures
            final(self).logic == old(self).logic,
            final(final(self).backend)@ == final(old(self).backend)@,
    {
        &mut *self.backend
    }

    fn add(&mut self, element: impl Borrow<L::Item>)
        ensures
            final(self).logic == old(self).logic,
            final(final(self).backend)@ == final(old(self).backend)@,
    {
        self.logic.borrow_logic().add(self.backend, element)
    }

    fn clear(&mut self)
        ensures
            final(self).logic == old(self).logic,
            final(final(self).backend)@ == final(old(self).backend)@,
    {
        self.logic.borrow_logic().clear(self.backend)
    }

    fn set(&mut self, backend: &[W])
        ensures
            final(self).logic == old(self).logic,
            final(final(self).backend)@ == final(old(self).backend)@,
    {
        self.logic.borrow_logic().set(self.backend, backend)
    }
}

impl<'a, L: SliceEstimationLogic<W> + MergeEstimationLogic + Clone, BL: LogicRef<L>, W: Copy> MergeEstimator<
    L,
> for DefaultEstimator<L, BL, &'a mut [W]> {
    fn merge_with_helper(&mut self, backend: &[W], helper: &mut L::Helper)
        ensures
            final(self).logic == old(self).logic,
            final(final(self).backend)@ == final(old(self).backend)@,
    {
        self.logic.borrow_logic().merge_with_helper(self.backend, backend, helper)
    }
}

impl<L: SliceEstimationLogic<W> + Clone, BL: LogicRef<L>, W: Copy> Estimator<
    L,
> for DefaultEstimator<L, BL, Vec<W>> {
    type OwnedEstimator = DefaultEstimator<L, L, Vec<W>>;

    open spec fn spec_logic(&self) -> &L {
        self.logic.logic_ref()
    }

    open spec fn backend(&self) -> Seq<W> {
        self.backend@
    }

    fn logic(&self) -> (logic: &L) {
        self.logic.borrow_logic()
    }

    fn as_ref(&self) -> (backend: &[W]) {
        self.backend.as_slice()
    }

    /// Keeps the backend, and clones the logic.
    fn into_owned(self) -> (owned: DefaultEstimator<L, L, Vec<W>>)
        ensures
            owned.backend@ == self.backend@,
            cloned(*self.logic.logic_ref(), owned.logic),
    {
        let logic = self.logic.borrow_logic().clone();
        DefaultEstimator::new(logic, self.backend)
    }
}

impl<L: SliceEstimationLogic<W> + Clone, BL: LogicRef<L>, W: Copy> EstimatorMut<
    L,
> for DefaultEstimator<L, BL, Vec<W>> {
    fn as_mut(&mut self) -> (backend: &mut [W])
        ensures
            final(self).logic == old(self).logic,
    {
        self.backend.as_mut_slice()
    }

    fn add(&mut self, element: impl Borrow<L::Item>)
        ensures
            final(self).logic == old(self).logic,
    {
        self.logic.borrow_logic().add(self.backend.as_mut_slice(), element)
    }

    fn clear(&mut self)
        ensures
            final(self).logic == old(self).logic,
    {
        self.logic.borrow_logic().clear(self.backend.as_mut_slice())
    }

    fn set(&mut self, backend: &[W])
        ensures
            final(self).logic == old(self).logic,
    {
        self.logic.borrow_logic().set(self.backend.as_mut_slice(), backend)
    }
}

impl<L: SliceEstimationLogic<W> + MergeEstimationLogic + Clone, BL: LogicRef<L>, W: Copy> MergeEstimator<
    L,
> for DefaultEstimator<L, BL, Vec<W>> {
    fn merge_with_helper(&mut self, backend: &[W], helper: &mut L::Helper)
        ensures
            final(self).logic == old(self).logic,
    {
        self.logic.borrow_logic().merge_with_helper(self.backend.as_mut_slice(), backend, helper)
    }
}

} // verus!
