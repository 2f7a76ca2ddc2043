//! Arrays of estimators whose backends are slices of one buffer.

use crate::error::Error;
use crate::impls::default_estimator::DefaultEstimator;
use crate::traits::estimator::{EstimationLogic, Estimator, SliceEstimationLogic};
use crate::traits::estimator_array::{
    AsSyncArray, EstimatorArray, EstimatorArrayMut, SyncEstimatorArray,
};
use std::marker::PhantomData;
use sync_cell_slice::{SyncCell, SyncSlice};
use vstd::prelude::*;

verus! {

/// `sync_cell_slice::SyncCell`, a memory cell that can be written through a
/// shared reference, also from several threads. Nothing is known of what
/// is inside.
#[verifier::external_type_specification]
#[verifier::external_body]
#[verifier::reject_recursive_types(T)]
pub struct ExSyncCell<T: ?Sized>(SyncCell<T>);

/// An array for estimators implementing a shared [`EstimationLogic`], and
/// whose backend is a slice.
///
/// The backends lie one after the other in one buffer: the backend of the
/// estimator at `index` is the `backend_len` words that start at word
/// `index * backend_len`.
pub struct SliceEstimatorArray<L, W, S> {
    logic: L,
    backend: S,
    _marker: PhantomData<W>,
}

/// A view of a [`SliceEstimatorArray`] as a [`SyncEstimatorArray`].
pub struct SyncSliceEstimatorArray<L, W, S> {
    logic: L,
    backend: S,
    _marker: PhantomData<W>,
}

/// Indexes a slice by the range `start..end`, for writing
/// (`IndexMut::index_mut` of slices). The contract claims that the part
/// holds the elements from `start` up to `end`, that it has `end - start`
/// elements whatever is written, and that what is written there is written
/// to the slice, the rest of which stays as it is.
#[verifier::external_body]
fn slice_range_mut<T>(slice: &mut [T], start: usize, end: usize) -> (part: &mut [T])
    requires
        start <= end <= old(slice)@.len(),
    ensures
        part@ == old(slice)@.subrange(start as int, end as int),
        final(part)@.len() == part@.len(),
        final(slice)@ == old(slice)@.subrange(0, start as int) + final(part)@
            + old(slice)@.subrange(end as int, old(slice)@.len() as int),
{
    &mut slice[start..end]
}

/// Calls `SyncSlice::as_sync_slice` for the cells of a slice. The contract
/// claims that there are as many cells as the slice has elements, and that
/// the slice keeps its length; it claims nothing of what the cells or the
/// slice hold from then on.
#[verifier::external_body]
fn as_sync_slice<T>(slice: &mut [T]) -> (cells: &[SyncCell<T>])
    ensures
        cells@.len() == old(slice)@.len(),
        final(slice)@.len() == old(slice)@.len(),
{
    slice.as_sync_slice()
}

/// Where the backend at `index` lies among `len` backends of `backend_len`
/// words.
pub proof fn lemma_slot(index: int, len: int, backend_len: int)
    requires
        0 <= index < len,
        0 < backend_len,
    ensures
        0 <= index * backend_len,
        index * backend_len + backend_len == (index + 1) * backend_len,
        (index + 1) * backend_len <= len * backend_len,
{
    assert(0 <= index * backend_len) by (nonlinear_arith)
        requires
            0 <= index,
            0 < backend_len,
    ;
    assert(index * backend_len + backend_len == (index + 1) * backend_len) by (nonlinear_arith);
    assert((index + 1) * backend_len <= len * backend_len) by (nonlinear_arith)
        requires
            index + 1 <= len,
            0 < backend_len,
    ;
}

/// Slots at different indices do not overlap.
pub proof fn lemma_slots_apart(i: int, j: int, backend_len: int)
    requires
        0 <= i < j,
        0 < backend_len,
    ensures
        (i + 1) * backend_len <= j * backend_len,
{
    assert((i + 1) * backend_len <= j * backend_len) by (nonlinear_arith)
        requires
            i + 1 <= j,
            0 < backend_len,
    ;
}

impl<L: SliceEstimationLogic<W>, W> SliceEstimatorArray<L, W, Vec<W>> {
    /// The words of the buffer.
    pub closed spec fn words(&self) -> Seq<W> {
        self.backend@
    }

    /// The logic of the array.
    pub closed spec fn logic_spec(&self) -> &L {
        &self.logic
    }

    /// The number of estimators: the number of whole backends in the buffer.
    pub open spec fn len_spec(&self) -> nat {
        self.words().len() / self.logic_spec().spec_backend_len()
    }

    /// The words of the backend at `index`.
    pub open spec fn slot(&self, index: int) -> Seq<W> {
        self.words().subrange(
            index * self.logic_spec().spec_backend_len(),
            (index + 1) * self.logic_spec().spec_backend_len(),
        )
    }

    /// Whether the buffer is made of whole backends.
    pub open spec fn well_formed(&self) -> bool {
        &&& self.logic_spec().spec_backend_len() > 0
        &&& self.words().len() == self.len_spec() * self.logic_spec().spec_backend_len()
    }

    /// Returns the number of estimators in the array.
    pub fn len(&self) -> (len: usize)
        requires
            self.well_formed(),
        ensures
            len == self.len_spec(),
    {
        let backend_len = self.logic.backend_len();
        self.backend.len() / backend_len
    }

    /// Returns `true` if the array contains no estimators.
    pub fn is_empty(&self) -> (empty: bool)
        requires
            self.well_formed(),
        ensures
            empty == (self.len_spec() == 0),
    {
        proof {
            let b = self.logic_spec().spec_backend_len() as int;
            assert(self.len_spec() * b == 0 <==> self.len_spec() == 0) by (nonlinear_arith)
                requires
                    b > 0,
            ;
        }
        self.backend.len() == 0
    }

    /// Whether `index` is the index of an estimator of the array.
    pub fn check_index(&self, index: usize) -> (result: Result<(), Error>)
        requires
            self.well_formed(),
        ensures
            result is Ok <==> index < self.len_spec(),
            result matches Err(e) ==> e == Error::IndexOutOfRange,
    {
        if index < self.len() {
            Ok(())
        } else {
            Err(Error::IndexOutOfRange)
        }
    }
}

impl<L: SliceEstimationLogic<W>, W: Copy> SliceEstimatorArray<L, W, Vec<W>> {
    /// Creates a new array of `len` empty estimators with the provided logic.
    ///
    /// Every word of the buffer is the empty element of the logic, so every
    /// counter of every estimator is zero.
    pub fn new(logic: L, len: usize) -> (array: Self)
        requires
            len * logic.spec_backend_len() <= usize::MAX,
        ensures
            array.well_formed(),
            array.len_spec() == len,
            *array.logic_spec() == logic,
            array.words() == Seq::new(
                (len * logic.spec_backend_len()) as nat,
                |i: int| logic.spec_empty_element(),
            ),
            forall|i: int|
                0 <= i < len ==> logic.counters(#[trigger] array.slot(i)) == Seq::new(
                    logic.counters(array.slot(i)).len(),
                    |j: int| 0nat,
                ),
    {
        let backend_len = logic.backend_len();
        let element = logic.empty_element();
        proof {
            assert(0 <= len * backend_len) by (nonlinear_arith)
                requires
                    0 <= len,
                    0 <= backend_len,
            ;
        }
        let total = len * backend_len;
        let mut backend: Vec<W> = Vec::with_capacity(total);
        let mut i: usize = 0;
        while i < total
            invariant
                i <= total,
                backend@.len() == i,
                element == logic.spec_empty_element(),
                forall|k: int| 0 <= k < i ==> backend@[k] == element,
            decreases total - i,
        {
            backend.push(element);
            i += 1;
        }
        let array = SliceEstimatorArray { logic, backend, _marker: PhantomData };
        proof {
            let b = backend_len as int;
            assert(array.words() =~= Seq::new(
                (len * logic.spec_backend_len()) as nat,
                |i: int| logic.spec_empty_element(),
            ));
            vstd::arithmetic::div_mod::lemma_div_multiples_vanish(len as int, b);
            assert(b * len == len * b) by (nonlinear_arith);
            assert forall|i: int| 0 <= i < len implies logic.counters(#[trigger] array.slot(i))
                == Seq::new(logic.counters(array.slot(i)).len(), |j: int| 0nat) by {
                lemma_slot(i, len as int, b);
                logic.lemma_empty_backend(array.slot(i));
            }
        }
        array
    }
}

impl<L: SliceEstimationLogic<W>, W> SliceEstimatorArray<L, W, Vec<W>> {
    /// The backend at `index` has the length that the logic asks for.
    pub proof fn lemma_slot_is_valid(&self, index: int)
        requires
            self.well_formed(),
            0 <= index < self.len_spec(),
        ensures
            self.slot(index).len() == self.logic_spec().spec_backend_len(),
            self.logic_spec().valid_backend(self.slot(index)),
            0 <= index * self.logic_spec().spec_backend_len(),
            index * self.logic_spec().spec_backend_len() + self.logic_spec().spec_backend_len()
                == (index + 1) * self.logic_spec().spec_backend_len(),
            (index + 1) * self.logic_spec().spec_backend_len() <= self.words().len(),
            self.words().len() <= usize::MAX,
    {
        assert(self.backend.len() == self.backend@.len());
        lemma_slot(index, self.len_spec() as int, self.logic_spec().spec_backend_len() as int);
        self.logic_spec().lemma_valid_backend(self.slot(index));
    }

    /// Returns the whole buffer.
    pub fn as_ref(&self) -> (words: &[W])
        ensures
            words@ == self.words(),
    {
        self.backend.as_slice()
    }

    /// Returns the whole buffer, for writing. The buffer keeps its length,
    /// and the logic stays.
    pub fn as_mut(&mut self) -> (words: &mut [W])
        ensures
            words@ == old(self).words(),
            final(self).words() == final(words)@,
            final(words)@.len() == words@.len(),
            final(self).logic_spec() == old(self).logic_spec(),
    {
        let len = self.backend.len();
        let whole = self.backend.as_mut_slice();
        let part = slice_range_mut(whole, 0, len);
        proof {
            let before = old(self).words();
            assert(part@ =~= before);
            assert(before.subrange(0, 0) + final(part)@ + before.subrange(
                len as int,
                before.len() as int,
            ) =~= final(part)@);
        }
        part
    }
}

impl<'a, L: SliceEstimationLogic<W> + Clone + 'a, W: Copy + 'a> EstimatorArray<
    'a,
    L,
> for SliceEstimatorArray<L, W, Vec<W>> {
    type Estimator = DefaultEstimator<L, &'a L, &'a [W]>;

    open spec fn wf(&self) -> bool {
        self.well_formed()
    }

    open spec fn spec_logic(&self) -> &L {
        self.logic_spec()
    }

    open spec fn spec_len(&self) -> nat {
        self.len_spec()
    }

    open spec fn spec_backend(&self, index: int) -> Seq<W> {
        self.slot(index)
    }

    fn logic(&self) -> (logic: &L) {
        &self.logic
    }

    fn get_estimator(&'a self, index: usize) -> (estimator: DefaultEstimator<L, &'a L, &'a [W]>) {
        DefaultEstimator::new(&self.logic, self.get_backend(index))
    }

    fn get_backend(&self, index: usize) -> (backend: &[W]) {
        proof {
            self.lemma_slot_is_valid(index as int);
        }
        let backend_len = self.logic.backend_len();
        let offset = index * backend_len;
        vstd::slice::slice_subrange(self.backend.as_slice(), offset, offset + backend_len)
    }

    fn len(&self) -> (len: usize) {
        let backend_len = self.logic.backend_len();
        self.backend.len() / backend_len
    }
}

impl<'a, L: SliceEstimationLogic<W> + Clone + 'a, W: Copy + 'a> EstimatorArrayMut<
    'a,
    L,
> for SliceEstimatorArray<L, W, Vec<W>> {
    type EstimatorMut = DefaultEstimator<L, &'a L, &'a mut [W]>;

    /// The estimator is a view of the array: what is done through it is done
    /// to the backend at `index`, and to no other.
    fn get_estimator_mut(&'a mut self, index: usize) -> (estimator: DefaultEstimator<
        L,
        &'a L,
        &'a mut [W],
    >)
        ensures
            final(estimator.backend)@.len() == estimator.backend@.len(),
            final(self).well_formed(),
            final(self).logic_spec() == old(self).logic_spec(),
            final(self).len_spec() == old(self).len_spec(),
            final(self).slot(index as int) == final(estimator.backend)@,
            forall|i: int|
                0 <= i < old(self).len_spec() && i != index
                    ==> #[trigger] final(self).slot(i) == old(self).slot(i),
    {
        proof {
            self.lemma_slot_is_valid(index as int);
        }
        let backend_len = self.logic.backend_len();
        let offset = index * backend_len;
        let whole = self.backend.as_mut_slice();
        let backend = slice_range_mut(whole, offset, offset + backend_len);
        proof {
            let before = old(self).words();
            lemma_replaced_slot(
                before,
                before.subrange(0, offset as int) + final(backend)@ + before.subrange(
                    offset + backend_len,
                    before.len() as int,
                ),
                final(backend)@,
                index as int,
                old(self).len_spec() as int,
                backend_len as int,
            );
        }
        DefaultEstimator::new(&self.logic, backend)
    }

    fn get_backend_mut(&mut self, index: usize) -> (backend: &mut [W])
        ensures
            final(backend)@.len() == backend@.len(),
    {
        proof {
            self.lemma_slot_is_valid(index as int);
        }
        let backend_len = self.logic.backend_len();
        let offset = index * backend_len;
        let whole = self.backend.as_mut_slice();
        let backend = slice_range_mut(whole, offset, offset + backend_len);
        proof {
            let before = old(self).words();
            lemma_replaced_slot(
                before,
                before.subrange(0, offset as int) + final(backend)@ + before.subrange(
                    offset + backend_len,
                    before.len() as int,
                ),
                final(backend)@,
                index as int,
                old(self).len_spec() as int,
                backend_len as int,
            );
        }
        backend
    }

    /// Fills the buffer with the empty element of the logic.
    fn clear(&mut self)
        ensures
            final(self).words() == Seq::new(
                old(self).words().len(),
                |i: int| old(self).logic_spec().spec_empty_element(),
            ),
    {
        let element = self.logic.empty_element();
        let len = self.backend.len();
        let mut i: usize = 0;
        while i < len
            invariant
                i <= len,
                len == self.backend@.len(),
                self.backend@.len() == old(self).backend@.len(),
                self.logic == old(self).logic,
                element == self.logic.spec_empty_element(),
                forall|k: int| 0 <= k < i ==> self.backend@[k] == element,
            decreases len - i,
        {
            self.backend[i] = element;
            i += 1;
        }
        proof {
            assert(self.words() =~= Seq::new(
                old(self).words().len(),
                |i: int| old(self).logic_spec().spec_empty_element(),
            ));
            assert forall|i: int| 0 <= i < self.len_spec() implies self.logic_spec().counters(
                #[trigger] self.slot(i),
            ) == Seq::new(self.logic_spec().counters(self.slot(i)).len(), |j: int| 0nat) by {
                self.lemma_slot_is_valid(i);
                self.logic_spec().lemma_empty_backend(self.slot(i));
            }
        }
    }
}

impl<'a, L: SliceEstimationLogic<W>, W> SyncSliceEstimatorArray<&'a L, W, &'a [SyncCell<W>]> {
    /// The cells of the buffer.
    pub closed spec fn cells(&self) -> Seq<SyncCell<W>> {
        self.backend@
    }

    /// The logic of the array.
    pub closed spec fn logic_spec(&self) -> &L {
        self.logic
    }

    /// The number of estimators: the number of whole backends in the buffer.
    pub open spec fn len_spec(&self) -> nat {
        self.cells().len() / self.logic_spec().spec_backend_len()
    }

    /// Whether the buffer is made of whole backends.
    pub open spec fn well_formed(&self) -> bool {
        &&& self.logic_spec().spec_backend_len() > 0
        &&& self.cells().len() == self.len_spec() * self.logic_spec().spec_backend_len()
    }

    /// Returns the cells of the backend of the estimator at `index`: the
    /// `backend_len` cells that start at cell `index * backend_len`.
    pub fn get_cells(&self, index: usize) -> (cells: &'a [SyncCell<W>])
        requires
            self.well_formed(),
            index < self.len_spec(),
        ensures
            cells@.len() == self.logic_spec().spec_backend_len(),
            cells@ == self.cells().subrange(
                index * self.logic_spec().spec_backend_len(),
                (index + 1) * self.logic_spec().spec_backend_len(),
            ),
    {
        proof {
            lemma_slot(
                index as int,
                self.len_spec() as int,
                self.logic_spec().spec_backend_len() as int,
            );
            assert(self.backend.len() == self.backend@.len());
        }
        let backend_len = self.logic.backend_len();
        let offset = index * backend_len;
        vstd::slice::slice_subrange(self.backend, offset, offset + backend_len)
    }

    /// Returns all the cells of the buffer.
    pub fn all_cells(&self) -> (cells: &'a [SyncCell<W>])
        ensures
            cells@ == self.cells(),
    {
        self.backend
    }

    /// Whether `index` is the index of an estimator of the array.
    pub fn check_index(&self, index: usize) -> (result: Result<(), Error>)
        requires
            self.well_formed(),
        ensures
            result is Ok <==> index < self.len_spec(),
            result matches Err(e) ==> e == Error::IndexOutOfRange,
    {
        let backend_len = self.logic.backend_len();
        if index < self.backend.len() / backend_len {
            Ok(())
        } else {
            Err(Error::IndexOutOfRange)
        }
    }
}

impl<'a, L: SliceEstimationLogic<W> + Sync, W: Sync> SyncEstimatorArray<
    L,
> for SyncSliceEstimatorArray<&'a L, W, &'a [SyncCell<W>]> {
    open spec fn wf(&self) -> bool {
        self.well_formed()
    }

    open spec fn spec_logic(&self) -> &L {
        self.logic_spec()
    }

    open spec fn spec_len(&self) -> nat {
        self.len_spec()
    }

    fn logic(&self) -> (logic: &L) {
        self.logic
    }

    fn len(&self) -> (len: usize) {
        let backend_len = self.logic.backend_len();
        self.backend.len() / backend_len
    }
}

impl<'a, L: SliceEstimationLogic<W> + Clone + Sync + 'a, W: Copy + Sync + 'a> AsSyncArray<
    'a,
    L,
> for SliceEstimatorArray<L, W, Vec<W>> {
    type SyncEstimatorArray = SyncSliceEstimatorArray<&'a L, W, &'a [SyncCell<W>]>;

    /// The view shares the logic of the array and has one cell for each
    /// word of its buffer. When the view is gone, the array has as many
    /// estimators as before, with the same logic.
    fn as_sync_array(&'a mut self) -> (view: SyncSliceEstimatorArray<
        &'a L,
        W,
        &'a [SyncCell<W>],
    >)
        ensures
            view.cells().len() == old(self).words().len(),
            final(self).well_formed(),
            final(self).logic_spec() == old(self).logic_spec(),
            final(self).len_spec() == old(self).len_spec(),
    {
        let cells = as_sync_slice(self.backend.as_mut_slice());
        SyncSliceEstimatorArray { logic: &self.logic, backend: cells, _marker: PhantomData }
    }
}

/// Replacing the words of one slot of a buffer changes that slot and no
/// other, and the buffer keeps its length.
pub proof fn lemma_replaced_slot<W>(
    before: Seq<W>,
    after: Seq<W>,
    part: Seq<W>,
    index: int,
    len: int,
    backend_len: int,
)
    requires
        0 <= index < len,
        0 < backend_len,
        before.len() == len * backend_len,
        part.len() == backend_len,
        after == before.subrange(0, index * backend_len) + part + before.subrange(
            (index + 1) * backend_len,
            before.len() as int,
        ),
    ensures
        after.len() == before.len(),
        after.len() / (backend_len as nat) == before.len() / (backend_len as nat),
        after.subrange(index * backend_len, (index + 1) * backend_len) == part,
        forall|i: int|
            0 <= i < len && i != index ==> #[trigger] after.subrange(
                i * backend_len,
                (i + 1) * backend_len,
            ) == before.subrange(i * backend_len, (i + 1) * backend_len),
{
    lemma_slot(index, len, backend_len);
    assert(after.subrange(index * backend_len, (index + 1) * backend_len) =~= part);
    assert forall|i: int| 0 <= i < len && i != index implies #[trigger] after.subrange(
        i * backend_len,
        (i + 1) * backend_len,
    ) == before.subrange(i * backend_len, (i + 1) * backend_len) by {
        lemma_slot(i, len, backend_len);
        if i < index {
            lemma_slots_apart(i, index, backend_len);
        } else {
            lemma_slots_apart(index, i, backend_len);
        }
        assert(after.subrange(i * backend_len, (i + 1) * backend_len) =~= before.subrange(
            i * backend_len,
            (i + 1) * backend_len,
        ));
    }
}

} // verus!
