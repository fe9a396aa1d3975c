//! Element access without run-time bounds checks.
//!
//! [`UncheckedSliceExt`] turns a sequence into a view whose accessors carry
//! the bounds obligation `index < length` as a precondition. The obligation
//! is discharged once, by proof, at the call site — typically from a loop
//! bound that has already been established — instead of being re-validated on
//! every access. Within bounds, the result is element-for-element identical
//! to ordinary checked indexing.

use vstd::prelude::*;
use vstd::slice::slice_index_get;

verus! {

/// A read-only indexable view of a borrowed sequence.
pub struct UncheckedView<'a, T> {
    data: &'a [T],
}

impl<'a, T> View for UncheckedView<'a, T> {
    type V = Seq<T>;

    closed spec fn view(&self) -> Seq<T> {
        self.data@
    }
}

impl<'a, T> UncheckedView<'a, T> {
    /// The number of elements in the viewed sequence.
    pub fn len(&self) -> (n: usize)
        ensures
            n == self@.len(),
    {
        self.data.len()
    }

    /// The element at `index`; the bound is owed by the caller's proof, not
    /// checked here.
    pub fn get(&self, index: usize) -> (element: &T)
        requires
            index < self@.len(),
        ensures
            *element == self@[index as int],
    {
        slice_index_get(self.data, index)
    }
}

/// An exclusive indexable view of an owned sequence.
///
/// A mutable borrow cannot be held inside a datatype, so the view takes the
/// sequence over for the duration of the edits; [`UncheckedViewMut::into_vec`]
/// hands it back.
pub struct UncheckedViewMut<T> {
    data: Vec<T>,
}

impl<T> View for UncheckedViewMut<T> {
    type V = Seq<T>;

    closed spec fn view(&self) -> Seq<T> {
        self.data@
    }
}

impl<T> UncheckedViewMut<T> {
    /// The number of elements in the viewed sequence.
    pub fn len(&self) -> (n: usize)
        ensures
            n == self@.len(),
    {
        self.data.len()
    }

    /// The element at `index`; the bound is owed by the caller's proof, not
    /// checked here.
    pub fn get(&self, index: usize) -> (element: &T)
        requires
            index < self@.len(),
        ensures
            *element == self@[index as int],
    {
        slice_index_get(self.data.as_slice(), index)
    }

    /// Replaces the element at `index`; the bound is owed by the caller's
    /// proof, not checked here.
    pub fn set(&mut self, index: usize, element: T)
        requires
            index < old(self)@.len(),
        ensures
            final(self)@ == old(self)@.update(index as int, element),
    {
        self.data[index] = element;
    }

    /// Releases the view and returns the edited sequence.
    pub fn into_vec(self) -> (sequence: Vec<T>)
        ensures
            sequence@ == self@,
    {
        self.data
    }
}

/// Turns a sequence into an unchecked-access view of itself.
pub trait UncheckedSliceExt<T>: View<V = Seq<T>> + Sized {
    /// A read-only view; elements and length are those of `self`.
    fn nc(&self) -> (view_ro: UncheckedView<'_, T>)
        ensures
            view_ro@ == self@,
    ;

    /// An exclusive view; elements and length are those of `self`, which the
    /// view owns until [`UncheckedViewMut::into_vec`] releases it.
    fn nc_mut(self) -> (view_rw: UncheckedViewMut<T>)
        ensures
            view_rw@ == self@,
    ;
}

impl<T> UncheckedSliceExt<T> for Vec<T> {
    fn nc(&self) -> (view_ro: UncheckedView<'_, T>) {
        UncheckedView { data: self.as_slice() }
    }

    fn nc_mut(self) -> (view_rw: UncheckedViewMut<T>) {
        UncheckedViewMut { data: self }
    }
}

} // verus!
