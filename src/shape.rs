//! A dimension together with the strides that go with it.
use crate::dimension::{c_strides, default_strides, f_strides, fortran_strides, shape_size_nonzero};
use vstd::prelude::*;

verus! {

/// How the strides of a view are chosen.
pub enum Strides {
    /// Row-major contiguous strides.
    C,
    /// Column-major contiguous strides.
    F,
    /// Strides given by the caller, one per axis, in elements.
    Custom(Vec<isize>),
}

impl Strides {
    /// The strides that this choice gives for `dim`.
    pub open spec fn for_dim(&self, dim: Seq<usize>) -> Seq<isize> {
        match self {
            Strides::C => c_strides(dim),
            Strides::F => f_strides(dim),
            Strides::Custom(s) => s@,
        }
    }

    pub open spec fn is_custom(&self) -> bool {
        self is Custom
    }

    /// Computes the strides for `dim`: contiguous ones when asked for, the
    /// caller's otherwise.
    pub fn strides_for_dim(self, dim: &Vec<usize>) -> (r: Vec<isize>)
        requires
            !self.is_custom() ==> shape_size_nonzero(dim@) <= isize::MAX,
        ensures
            r@ == self.for_dim(dim@),
    {
        match self {
            Strides::C => default_strides(dim),
            Strides::F => fortran_strides(dim),
            Strides::Custom(s) => s,
        }
    }
}

/// The extents of a view and the way its strides are chosen.
pub struct StrideShape {
    pub dim: Vec<usize>,
    pub strides: Strides,
}

impl StrideShape {
    /// The strides that this shape gives.
    pub open spec fn spec_strides(&self) -> Seq<isize> {
        self.strides.for_dim(self.dim@)
    }
}

} // verus!
