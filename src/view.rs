//! Checked views: descriptors that have been certified by their maker as
//! addressing valid, aligned elements for the lifetime `'a`.
use crate::layout::RawLayout;
use core::marker::PhantomData;
use vstd::prelude::*;

verus! {

/// A read-only view of elements of type `A` that live for `'a`.
pub struct ArrayView<'a, A> {
    ptr: usize,
    dim: Vec<usize>,
    strides: Vec<isize>,
    marker: PhantomData<&'a A>,
}

impl<'a, A> View for ArrayView<'a, A> {
    type V = RawLayout;

    closed spec fn view(&self) -> RawLayout {
        RawLayout { ptr: self.ptr, dim: self.dim@, strides: self.strides@ }
    }
}

impl<'a, A> ArrayView<'a, A> {
    pub(crate) fn new(ptr: usize, dim: Vec<usize>, strides: Vec<isize>) -> (r: Self)
        ensures
            r@ == (RawLayout { ptr, dim: dim@, strides: strides@ }),
    {
        ArrayView { ptr, dim, strides, marker: PhantomData }
    }

    /// The address of the first element.
    pub fn as_ptr(&self) -> (r: usize)
        ensures
            r == self@.ptr,
    {
        self.ptr
    }

    /// The extent of each axis.
    pub fn shape(&self) -> (r: &[usize])
        ensures
            r@ == self@.dim,
    {
        self.dim.as_slice()
    }

    /// The stride of each axis, in elements.
    pub fn strides(&self) -> (r: &[isize])
        ensures
            r@ == self@.strides,
    {
        self.strides.as_slice()
    }
}

/// A mutable view of elements of type `A` that live for `'a`.
pub struct ArrayViewMut<'a, A> {
    ptr: usize,
    dim: Vec<usize>,
    strides: Vec<isize>,
    marker: PhantomData<&'a mut A>,
}

impl<'a, A> View for ArrayViewMut<'a, A> {
    type V = RawLayout;

    closed spec fn view(&self) -> RawLayout {
        RawLayout { ptr: self.ptr, dim: self.dim@, strides: self.strides@ }
    }
}

impl<'a, A> ArrayViewMut<'a, A> {
    pub(crate) fn new(ptr: usize, dim: Vec<usize>, strides: Vec<isize>) -> (r: Self)
        ensures
            r@ == (RawLayout { ptr, dim: dim@, strides: strides@ }),
    {
        ArrayViewMut { ptr, dim, strides, marker: PhantomData }
    }

    /// The address of the first element.
    pub fn as_ptr(&self) -> (r: usize)
        ensures
            r == self@.ptr,
    {
        self.ptr
    }

    /// The extent of each axis.
    pub fn shape(&self) -> (r: &[usize])
        ensures
            r@ == self@.dim,
    {
        self.dim.as_slice()
    }

    /// The stride of each axis, in elements.
    pub fn strides(&self) -> (r: &[isize])
        ensures
            r@ == self@.strides,
    {
        self.strides.as_slice()
    }
}

} // verus!
