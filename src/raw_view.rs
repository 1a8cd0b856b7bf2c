//! Raw views: non-owning descriptors of strided elements that are never
//! dereferenced, and the ways to derive one from another.
use crate::dimension::has_empty_axis;
use crate::layout::{RawLayout, complex_strides, lemma_complex_valid, lemma_split_valid};
use crate::shape::StrideShape;
use crate::view::{ArrayView, ArrayViewMut};
use core::marker::PhantomData;
use num_complex::Complex;
use vstd::prelude::*;

verus! {

/// Relies on num_complex::Complex: a `#[repr(C)]` struct whose only fields
/// are the public `re: T` and `im: T`.
#[verifier::external_type_specification]
#[verifier::reject_recursive_types(T)]
pub struct ExComplex<T>(Complex<T>);

/// Relies on num_complex::Complex being `#[repr(C)]` with exactly the two
/// fields `re: T` and `im: T`: a pair takes twice the size of a component.
#[verifier::external_body]
fn complex_size<T>() -> (r: usize)
    ensures
        r == vstd::layout::size_of::<Complex<T>>(),
        r == 2 * vstd::layout::size_of::<T>(),
{
    core::mem::size_of::<Complex<T>>()
}

/// An axis, by its number.
#[derive(Clone, Copy, Debug, PartialEq, Eq, Structural)]
pub struct Axis(pub usize);

/// A read-only raw view of elements of type `A`: a base address with an
/// extent and a stride per axis. It owns nothing and reads nothing.
pub struct RawArrayView<A> {
    ptr: usize,
    dim: Vec<usize>,
    strides: Vec<isize>,
    marker: PhantomData<A>,
}

/// A raw view through which the elements may also be written once it is
/// promoted.
pub struct RawArrayViewMut<A> {
    ptr: usize,
    dim: Vec<usize>,
    strides: Vec<isize>,
    marker: PhantomData<A>,
}

impl<A> View for RawArrayView<A> {
    type V = RawLayout;

    closed spec fn view(&self) -> RawLayout {
        RawLayout { ptr: self.ptr, dim: self.dim@, strides: self.strides@ }
    }
}

impl<A> View for RawArrayViewMut<A> {
    type V = RawLayout;

    closed spec fn view(&self) -> RawLayout {
        RawLayout { ptr: self.ptr, dim: self.dim@, strides: self.strides@ }
    }
}

/// Whether some extent is zero.
fn any_axis_empty(dim: &Vec<usize>) -> (r: bool)
    ensures
        r == has_empty_axis(dim@),
{
    let mut i: usize = 0;
    while i < dim.len()
        invariant
            i <= dim@.len(),
            forall|a: int| 0 <= a < i ==> dim@[a] != 0,
        decreases dim@.len() - i,
    {
        if dim[i] == 0 {
            return true;
        }
        i = i + 1;
    }
    false
}

/// The layout that `shape` gives to elements at `ptr`.
pub open spec fn shape_layout(shape: StrideShape, ptr: usize) -> RawLayout {
    RawLayout { ptr, dim: shape.dim@, strides: shape.spec_strides() }
}

impl<A> RawArrayView<A> {
    /// The view describes elements of type `A` as the safety conditions ask.
    pub open spec fn wf(&self) -> bool {
        self@.valid_for(vstd::layout::size_of::<A>() as int)
    }

    pub(crate) fn new(ptr: usize, dim: Vec<usize>, strides: Vec<isize>) -> (r: Self)
        requires
            (RawLayout { ptr, dim: dim@, strides: strides@ }).valid_for(
                vstd::layout::size_of::<A>() as int,
            ),
        ensures
            r@ == (RawLayout { ptr, dim: dim@, strides: strides@ }),
            r.wf(),
    {
        RawArrayView { ptr, dim, strides, marker: PhantomData }
    }

    /// Creates a raw view of the elements at `ptr` with the given shape. The
    /// caller vouches that the resulting layout is valid for `A`.
    pub fn from_shape_ptr(shape: StrideShape, ptr: usize) -> (r: Self)
        requires
            shape_layout(shape, ptr).valid_for(vstd::layout::size_of::<A>() as int),
        ensures
            r@ == shape_layout(shape, ptr),
            r.wf(),
    {
        let StrideShape { dim, strides } = shape;
        let strides = strides.strides_for_dim(&dim);
        RawArrayView::new(ptr, dim, strides)
    }

    /// Promotes the view to a checked one. The caller vouches that every
    /// element is initialized and valid for `'a`; the base must be aligned.
    pub fn deref_into_view<'a>(self) -> (r: ArrayView<'a, A>)
        requires
            self@.ptr as int % vstd::layout::align_of::<A>() as int == 0,
        ensures
            r@ == self@,
    {
        ArrayView::new(self.ptr, self.dim, self.strides)
    }

    /// Splits the view along `axis` into the part before `index` and the
    /// part from `index` on.
    pub fn split_at(self, axis: Axis, index: usize) -> (r: (Self, Self))
        requires
            self.wf(),
            axis.0 < self@.dim.len(),
            index <= self@.dim[axis.0 as int],
        ensures
            (r.0@, r.1@) == self@.split_parts(
                axis.0 as int,
                index as int,
                vstd::layout::size_of::<A>() as int,
            ),
            r.0.wf(),
            r.1.wf(),
    {
        let a = axis.0;
        let len = self.dim[a];
        let elem = core::mem::size_of::<A>();
        proof {
            lemma_split_valid(self@, a as int, index as int, elem as int);
        }
        let right_ptr = if index == len {
            self.ptr
        } else {
            let offset = index * (self.strides[a] as usize);
            self.ptr + offset * elem
        };
        let mut dim_left = self.dim.clone();
        dim_left.set(a, index);
        let left = RawArrayView::new(self.ptr, dim_left, self.strides.clone());
        let mut dim_right = self.dim;
        dim_right.set(a, len - index);
        let right = RawArrayView::new(right_ptr, dim_right, self.strides);
        (left, right)
    }

    /// Reinterprets the elements as elements of type `B`, of the same size.
    pub fn cast<B>(self) -> (r: RawArrayView<B>)
        requires
            self.wf(),
            vstd::layout::size_of::<B>() == vstd::layout::size_of::<A>(),
        ensures
            r@ == self@,
            r.wf(),
    {
        RawArrayView::new(self.ptr, self.dim, self.strides)
    }

    /// Reinterprets the elements as elements of type `B` where `B` has the
    /// size of `A`; gives `None` otherwise.
    pub fn try_cast<B>(self) -> (r: Option<RawArrayView<B>>)
        requires
            self.wf(),
        ensures
            r is Some <==> vstd::layout::size_of::<B>() == vstd::layout::size_of::<A>(),
            r matches Some(v) ==> v@ == self@ && v.wf(),
    {
        if core::mem::size_of::<B>() == core::mem::size_of::<A>() {
            Some(self.cast())
        } else {
            None
        }
    }

    /// The address of the first element.
    pub fn as_ptr(&self) -> (r: usize)
        ensures
            r == self@.ptr,
    {
        self.ptr
    }

    /// The extent of each axis.
    pub fn shape(&self) -> (r: &[usize])
        ensures
            r@ == self@.dim,
    {
        self.dim.as_slice()
    }

    /// The stride of each axis, in elements.
    pub fn strides(&self) -> (r: &[isize])
        ensures
            r@ == self@.strides,
    {
        self.strides.as_slice()
    }

    /// The number of axes.
    pub fn ndim(&self) -> (r: usize)
        ensures
            r == self@.dim.len(),
    {
        self.dim.len()
    }

    /// The extent of `axis`.
    pub fn len_of(&self, axis: Axis) -> (r: usize)
        requires
            axis.0 < self@.dim.len(),
        ensures
            r == self@.dim[axis.0 as int],
    {
        self.dim[axis.0]
    }

    /// Whether the view addresses no element.
    pub fn is_empty(&self) -> (r: bool)
        ensures
            r == self@.is_empty(),
    {
        any_axis_empty(&self.dim)
    }
}

impl<T> RawArrayView<Complex<T>> {
    /// Splits a view of complex pairs into a view of their real components
    /// and a view of their imaginary components.
    pub fn split_complex(self) -> (r: Complex<RawArrayView<T>>)
        requires
            self.wf(),
        ensures
            (r.re@, r.im@) == self@.complex_parts(vstd::layout::size_of::<T>() as int),
            r.re.wf(),
            r.im.wf(),
    {
        let pair_size = complex_size::<T>();
        let elem = core::mem::size_of::<T>();
        proof {
            assert(pair_size == 2 * elem);
            lemma_complex_valid(self@, elem as int);
        }
        let empty = self.is_empty();
        let ptr_re = self.ptr;
        let ptr_im = if empty {
            ptr_re
        } else {
            ptr_re + elem
        };
        let ghost old_strides = self.strides@;
        let dim = self.dim;
        let mut strides = self.strides;
        if elem != 0 {
            let n = strides.len();
            let mut ax: usize = 0;
            while ax < n
                invariant
                    ax <= n == strides@.len() == dim@.len() == old_strides.len(),
                    elem != 0,
                    forall|a: int|
                        0 <= a < dim@.len() && dim@[a] > 1 ==> 2 * old_strides[a] <= isize::MAX,
                    forall|a: int| 0 <= a < dim@.len() ==> old_strides[a] >= 0,
                    forall|a: int|
                        0 <= a < ax ==> strides@[a] == complex_strides(dim@, old_strides, elem as int)[a],
                    forall|a: int| ax <= a < n ==> strides@[a] == old_strides[a],
                decreases n - ax,
            {
                if dim[ax] > 1 {
                    let s = strides[ax];
                    assert(dim@[ax as int] > 1 && s == old_strides[ax as int]);
                    strides.set(ax, s * 2);
                }
                ax = ax + 1;
            }
        }
        assert(strides@ =~= complex_strides(dim@, old_strides, elem as int));
        Complex {
            re: RawArrayView::new(ptr_re, dim.clone(), strides.clone()),
            im: RawArrayView::new(ptr_im, dim, strides),
        }
    }
}

impl<A> RawArrayViewMut<A> {
    /// The view describes elements of type `A` as the safety conditions ask.
    pub open spec fn wf(&self) -> bool {
        self@.valid_for(vstd::layout::size_of::<A>() as int)
    }

    pub(crate) fn new(ptr: usize, dim: Vec<usize>, strides: Vec<isize>) -> (r: Self)
        requires
            (RawLayout { ptr, dim: dim@, strides: strides@ }).valid_for(
                vstd::layout::size_of::<A>() as int,
            ),
        ensures
            r@ == (RawLayout { ptr, dim: dim@, strides: strides@ }),
            r.wf(),
    {
        RawArrayViewMut { ptr, dim, strides, marker: PhantomData }
    }

    /// Creates a raw view of the elements at `ptr` with the given shape. The
    /// caller vouches that the resulting layout is valid for `A`.
    pub fn from_shape_ptr(shape: StrideShape, ptr: usize) -> (r: Self)
        requires
            shape_layout(shape, ptr).valid_for(vstd::layout::size_of::<A>() as int),
        ensures
            r@ == shape_layout(shape, ptr),
            r.wf(),
    {
        let StrideShape { dim, strides } = shape;
        let strides = strides.strides_for_dim(&dim);
        RawArrayViewMut::new(ptr, dim, strides)
    }

    /// The same view, read-only.
    pub(crate) fn into_raw_view(self) -> (r: RawArrayView<A>)
        requires
            self.wf(),
        ensures
            r@ == self@,
            r.wf(),
    {
        RawArrayView::new(self.ptr, self.dim, self.strides)
    }

    /// Promotes the view to a checked read-only one. The caller vouches that
    /// every element is initialized and valid for `'a`; the base must be
    /// aligned.
    pub fn deref_into_view<'a>(self) -> (r: ArrayView<'a, A>)
        requires
            self@.ptr as int % vstd::layout::align_of::<A>() as int == 0,
        ensures
            r@ == self@,
    {
        ArrayView::new(self.ptr, self.dim, self.strides)
    }

    /// Promotes the view to a checked mutable one. The caller vouches that
    /// every element is initialized, valid and not otherwise accessed for
    /// `'a`; the base must be aligned.
    pub fn deref_into_view_mut<'a>(self) -> (r: ArrayViewMut<'a, A>)
        requires
            self@.ptr as int % vstd::layout::align_of::<A>() as int == 0,
        ensures
            r@ == self@,
    {
        ArrayViewMut::new(self.ptr, self.dim, self.strides)
    }

    /// Splits the view along `axis` into the part before `index` and the
    /// part from `index` on.
    pub fn split_at(self, axis: Axis, index: usize) -> (r: (Self, Self))
        requires
            self.wf(),
            axis.0 < self@.dim.len(),
            index <= self@.dim[axis.0 as int],
        ensures
            (r.0@, r.1@) == self@.split_parts(
                axis.0 as int,
                index as int,
                vstd::layout::size_of::<A>() as int,
            ),
            r.0.wf(),
            r.1.wf(),
    {
        let (left, right) = self.into_raw_view().split_at(axis, index);
        (
            RawArrayViewMut::new(left.ptr, left.dim, left.strides),
            RawArrayViewMut::new(right.ptr, right.dim, right.strides),
        )
    }

    /// Reinterprets the elements as elements of type `B`, of the same size.
    pub fn cast<B>(self) -> (r: RawArrayViewMut<B>)
        requires
            self.wf(),
            vstd::layout::size_of::<B>() == vstd::layout::size_of::<A>(),
        ensures
            r@ == self@,
            r.wf(),
    {
        RawArrayViewMut::new(self.ptr, self.dim, self.strides)
    }

    /// The address of the first element.
    pub fn as_ptr(&self) -> (r: usize)
        ensures
            r == self@.ptr,
    {
        self.ptr
    }

    /// The extent of each axis.
    pub fn shape(&self) -> (r: &[usize])
        ensures
            r@ == self@.dim,
    {
        self.dim.as_slice()
    }

    /// The stride of each axis, in elements.
    pub fn strides(&self) -> (r: &[isize])
        ensures
            r@ == self@.strides,
    {
        self.strides.as_slice()
    }
}

impl<T> RawArrayViewMut<Complex<T>> {
    /// Splits a view of complex pairs into a view of their real components
    /// and a view of their imaginary components.
    pub fn split_complex(self) -> (r: Complex<RawArrayViewMut<T>>)
        requires
            self.wf(),
        ensures
            (r.re@, r.im@) == self@.complex_parts(vstd::layout::size_of::<T>() as int),
            r.re.wf(),
            r.im.wf(),
    {
        let Complex { re, im } = self.into_raw_view().split_complex();
        Complex {
            re: RawArrayViewMut::new(re.ptr, re.dim, re.strides),
            im: RawArrayViewMut::new(im.ptr, im.dim, im.strides),
        }
    }
}

} // verus!
