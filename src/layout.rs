//! The mathematical model of a view: a base address with extents and strides,
//! the conditions under which it may describe memory, and the laws of
//! splitting it and of taking its complex components apart.
use crate::dimension::{
    axis_span, has_empty_axis, lemma_axis_span_bound, lemma_max_offset_nonneg, lemma_max_offset_update,
    lemma_size_update, max_offset, offsets_fit, strides_nonneg,
};
use vstd::prelude::*;

verus! {

/// What a view describes: the address of its first element, in bytes, and
/// per-axis extents and strides, in elements.
pub struct RawLayout {
    pub ptr: usize,
    pub dim: Seq<usize>,
    pub strides: Seq<isize>,
}

/// Offset in elements of the element at `idx`.
pub open spec fn index_offset(idx: Seq<int>, strides: Seq<isize>) -> int
    decreases idx.len(),
{
    if idx.len() == 0 || strides.len() == 0 {
        0
    } else {
        idx[0] * strides[0] + index_offset(idx.drop_first(), strides.drop_first())
    }
}

/// The doubled strides of a view of complex pairs seen as a view of their
/// components: axes of extent at most one, and components of size zero, keep
/// their strides.
pub open spec fn complex_strides(dim: Seq<usize>, strides: Seq<isize>, elem_size: int) -> Seq<isize> {
    Seq::new(
        strides.len(),
        |a: int|
            if elem_size != 0 && dim[a] > 1 {
                (2 * strides[a]) as isize
            } else {
                strides[a]
            },
    )
}

impl RawLayout {
    /// The view may describe elements of `elem_size` bytes: a non-null base,
    /// one stride per axis, none negative, element count and offsets within
    /// `isize`, and every address up to one element past the furthest one
    /// representable.
    pub open spec fn valid_for(self, elem_size: int) -> bool {
        &&& self.dim.len() == self.strides.len()
        &&& self.ptr != 0
        &&& strides_nonneg(self.strides)
        &&& offsets_fit(self.dim, self.strides, elem_size)
        &&& self.ptr + (max_offset(self.dim, self.strides) + 1) * elem_size <= usize::MAX
    }

    pub open spec fn is_empty(self) -> bool {
        has_empty_axis(self.dim)
    }

    /// `idx` names an element of the view.
    pub open spec fn contains(self, idx: Seq<int>) -> bool {
        &&& idx.len() == self.dim.len()
        &&& forall|a: int| 0 <= a < idx.len() ==> 0 <= #[trigger] idx[a] < self.dim[a]
    }

    /// The address, in bytes, of the element at `idx`.
    pub open spec fn address(self, idx: Seq<int>, elem_size: int) -> int {
        self.ptr + index_offset(idx, self.strides) * elem_size
    }

    /// The two halves of the view split along `axis` before `index`.
    pub open spec fn split_parts(self, axis: int, index: int, elem_size: int) -> (RawLayout, RawLayout) {
        let len = self.dim[axis];
        (
            RawLayout { ptr: self.ptr, dim: self.dim.update(axis, index as usize), strides: self.strides },
            RawLayout {
                ptr: if index == len {
                    self.ptr
                } else {
                    (self.ptr + index * self.strides[axis] * elem_size) as usize
                },
                dim: self.dim.update(axis, (len - index) as usize),
                strides: self.strides,
            },
        )
    }

    /// The real and the imaginary components of a view of pairs whose
    /// components have `elem_size` bytes.
    pub open spec fn complex_parts(self, elem_size: int) -> (RawLayout, RawLayout) {
        let strides = complex_strides(self.dim, self.strides, elem_size);
        (
            RawLayout { ptr: self.ptr, dim: self.dim, strides },
            RawLayout {
                ptr: if self.is_empty() {
                    self.ptr
                } else {
                    (self.ptr + elem_size) as usize
                },
                dim: self.dim,
                strides,
            },
        )
    }
}

proof fn lemma_span_mono(d: usize, x: usize, s: isize)
    requires
        x <= d,
        s >= 0,
    ensures
        0 <= axis_span(x, s) <= axis_span(d, s),
{
    let a: int = if x == 0 {
        0
    } else {
        x - 1
    };
    let b: int = if d == 0 {
        0
    } else {
        d - 1
    };
    assert(0 <= a * s <= b * s) by (nonlinear_arith)
        requires
            0 <= a <= b,
            s >= 0,
    ;
}

/// Both halves of a split of a valid view are valid.
pub proof fn lemma_split_valid(v: RawLayout, axis: int, index: int, elem_size: int)
    requires
        v.valid_for(elem_size),
        elem_size >= 0,
        0 <= axis < v.dim.len(),
        0 <= index <= v.dim[axis],
    ensures
        v.split_parts(axis, index, elem_size).0.valid_for(elem_size),
        v.split_parts(axis, index, elem_size).1.valid_for(elem_size),
        index < v.dim[axis] ==> v.ptr + index * v.strides[axis] * elem_size <= usize::MAX,
        index < v.dim[axis] ==> 0 <= index * v.strides[axis] <= isize::MAX,
{
    let (l, r) = v.split_parts(axis, index, elem_size);
    let d = v.dim[axis];
    let s = v.strides[axis];
    let m = max_offset(v.dim, v.strides);
    lemma_max_offset_nonneg(v.dim, v.strides);
    lemma_axis_span_bound(v.dim, v.strides, axis);
    lemma_size_update(v.dim, axis, index as usize);
    lemma_size_update(v.dim, axis, (d - index) as usize);
    lemma_max_offset_update(v.dim, v.strides, axis, index as usize);
    lemma_max_offset_update(v.dim, v.strides, axis, (d - index) as usize);
    lemma_span_mono(d, index as usize, s);
    lemma_span_mono(d, (d - index) as usize, s);
    let ml = max_offset(l.dim, l.strides);
    let mr = max_offset(r.dim, r.strides);
    assert(ml * elem_size <= m * elem_size && (ml + 1) * elem_size <= (m + 1) * elem_size)
        by (nonlinear_arith)
        requires
            0 <= ml <= m,
            elem_size >= 0,
    ;
    assert(mr * elem_size <= m * elem_size && (mr + 1) * elem_size <= (m + 1) * elem_size)
        by (nonlinear_arith)
        requires
            0 <= mr <= m,
            elem_size >= 0,
    ;
    if index < d {
        assert(axis_span(d, s) == (d - 1) * s);
        assert(axis_span((d - index) as usize, s) == (d - index - 1) * s);
        assert((d - 1) * s == index * s + (d - index - 1) * s) by (nonlinear_arith);
        assert(0 <= index * s <= (d - 1) * s) by (nonlinear_arith)
            requires
                0 <= index <= d - 1,
                s >= 0,
        ;
        assert(mr == m - index * s);
        let o = index * s;
        assert(0 <= o * elem_size <= m * elem_size) by (nonlinear_arith)
            requires
                0 <= o <= m,
                elem_size >= 0,
        ;
        assert(o * elem_size + (mr + 1) * elem_size == (m + 1) * elem_size) by (nonlinear_arith)
            requires
                mr == m - o,
        ;
        assert(index * s * elem_size == o * elem_size);
    }
}

/// The element offset of an index after one of its coordinates changes.
pub proof fn lemma_index_offset_update(idx: Seq<int>, strides: Seq<isize>, a: int, x: int)
    requires
        idx.len() == strides.len(),
        0 <= a < idx.len(),
    ensures
        index_offset(idx.update(a, x), strides) == index_offset(idx, strides) - idx[a] * strides[a]
            + x * strides[a],
    decreases a,
{
    if a > 0 {
        lemma_index_offset_update(idx.drop_first(), strides.drop_first(), a - 1, x);
        assert(idx.update(a, x).drop_first() =~= idx.drop_first().update(a - 1, x));
    } else {
        assert(idx.update(a, x).drop_first() =~= idx.drop_first());
    }
}

/// Splitting a view at the start of an axis leaves the whole view on the
/// right and nothing along that axis on the left.
pub proof fn lemma_split_at_start(v: RawLayout, axis: int, elem_size: int)
    requires
        v.valid_for(elem_size),
        0 <= axis < v.dim.len(),
    ensures
        v.split_parts(axis, 0, elem_size).1 == v,
        v.split_parts(axis, 0, elem_size).0 == (RawLayout { dim: v.dim.update(axis, 0), ..v }),
{
    let r = v.split_parts(axis, 0, elem_size).1;
    assert(r.dim =~= v.dim);
}

/// Splitting a view at the end of an axis leaves the whole view on the left
/// and nothing along that axis, at the same address, on the right.
pub proof fn lemma_split_at_end(v: RawLayout, axis: int, elem_size: int)
    requires
        v.valid_for(elem_size),
        0 <= axis < v.dim.len(),
    ensures
        v.split_parts(axis, v.dim[axis] as int, elem_size).0 == v,
        v.split_parts(axis, v.dim[axis] as int, elem_size).1 == (RawLayout {
            dim: v.dim.update(axis, 0),
            ..v
        }),
{
    let l = v.split_parts(axis, v.dim[axis] as int, elem_size).0;
    assert(l.dim =~= v.dim);
}

/// The right half of a split starts `index` steps along the axis from the
/// view's base, or at the base itself when it is empty along that axis.
pub proof fn lemma_split_pointer(v: RawLayout, axis: int, index: int, elem_size: int)
    requires
        v.valid_for(elem_size),
        elem_size >= 0,
        0 <= axis < v.dim.len(),
        0 <= index <= v.dim[axis],
    ensures
        index < v.dim[axis] ==> v.split_parts(axis, index, elem_size).1.ptr == v.ptr + index
            * v.strides[axis] * elem_size,
        index == v.dim[axis] ==> v.split_parts(axis, index, elem_size).1.ptr == v.ptr,
        v.split_parts(axis, index, elem_size).0.ptr == v.ptr,
{
    lemma_split_valid(v, axis, index, elem_size);
}

/// The two halves of a split address exactly the elements of the view,
/// those before `index` along the axis on the left and the others on the
/// right, each at its own address: no element is lost and none is shared.
pub proof fn lemma_split_partition(v: RawLayout, axis: int, index: int, elem_size: int)
    requires
        v.valid_for(elem_size),
        elem_size >= 0,
        0 <= axis < v.dim.len(),
        0 <= index <= v.dim[axis],
    ensures
        forall|idx: Seq<int>| #[trigger]
            v.split_parts(axis, index, elem_size).0.contains(idx) <==> v.contains(idx) && idx[axis]
                < index,
        forall|idx: Seq<int>| #[trigger]
            v.split_parts(axis, index, elem_size).1.contains(idx) <==> idx.len() == v.dim.len()
                && 0 <= idx[axis] && v.contains(idx.update(axis, idx[axis] + index)),
        forall|idx: Seq<int>| #[trigger]
            v.split_parts(axis, index, elem_size).0.contains(idx) ==> v.split_parts(
                axis,
                index,
                elem_size,
            ).0.address(idx, elem_size) == v.address(idx, elem_size),
        forall|idx: Seq<int>| #[trigger]
            v.split_parts(axis, index, elem_size).1.contains(idx) ==> v.split_parts(
                axis,
                index,
                elem_size,
            ).1.address(idx, elem_size) == v.address(
                idx.update(axis, idx[axis] + index),
                elem_size,
            ),
        forall|idx: Seq<int>| #[trigger]
            v.contains(idx) ==> (idx[axis] < index && v.split_parts(axis, index, elem_size).0.contains(
                idx,
            )) || (idx[axis] >= index && v.split_parts(axis, index, elem_size).1.contains(
                idx.update(axis, idx[axis] - index),
            )),
{
    let (l, r) = v.split_parts(axis, index, elem_size);
    let d = v.dim[axis];
    let s = v.strides[axis];
    lemma_split_valid(v, axis, index, elem_size);
    assert forall|idx: Seq<int>| #[trigger] l.contains(idx) <==> v.contains(idx) && idx[axis] < index by {
        if l.contains(idx) {
            assert forall|a: int| 0 <= a < idx.len() implies 0 <= #[trigger] idx[a] < v.dim[a] by {
                assert(0 <= idx[a] < l.dim[a]);
            }
        }
        if v.contains(idx) && idx[axis] < index {
            assert forall|a: int| 0 <= a < idx.len() implies 0 <= #[trigger] idx[a] < l.dim[a] by {
                assert(0 <= idx[a] < v.dim[a]);
            }
        }
    }
    assert forall|idx: Seq<int>| #[trigger]
        r.contains(idx) <==> idx.len() == v.dim.len() && 0 <= idx[axis] && v.contains(
            idx.update(axis, idx[axis] + index),
        ) by {
        let u = idx.update(axis, idx[axis] + index);
        if r.contains(idx) {
            assert(0 <= idx[axis] < r.dim[axis]);
            assert forall|a: int| 0 <= a < u.len() implies 0 <= #[trigger] u[a] < v.dim[a] by {
                assert(0 <= idx[a] < r.dim[a]);
            }
        }
        if idx.len() == v.dim.len() && 0 <= idx[axis] && v.contains(u) {
            assert forall|a: int| 0 <= a < idx.len() implies 0 <= #[trigger] idx[a] < r.dim[a] by {
                assert(0 <= u[a] < v.dim[a]);
            }
        }
    }
    assert forall|idx: Seq<int>| #[trigger] r.contains(idx) implies r.address(idx, elem_size)
        == v.address(idx.update(axis, idx[axis] + index), elem_size) by {
        assert(0 <= idx[axis] < r.dim[axis]);
        assert(index < d);
        lemma_index_offset_update(idx, v.strides, axis, idx[axis] + index);
        let o = index_offset(idx, v.strides);
        let i = idx[axis];
        assert((o - i * s + (i + index) * s) * elem_size == o * elem_size + index * s * elem_size)
            by (nonlinear_arith);
    }
    assert forall|idx: Seq<int>| #[trigger] v.contains(idx) implies (idx[axis] < index
        && l.contains(idx)) || (idx[axis] >= index && r.contains(
        idx.update(axis, idx[axis] - index),
    )) by {
        let w = idx.update(axis, idx[axis] - index);
        assert(w.update(axis, w[axis] + index) =~= idx);
        assert(l.contains(idx) <==> v.contains(idx) && idx[axis] < index);
        assert(r.contains(w) <==> w.len() == v.dim.len() && 0 <= w[axis] && v.contains(
            w.update(axis, w[axis] + index),
        ));
    }
}

proof fn lemma_max_offset_complex(dim: Seq<usize>, strides: Seq<isize>, elem_size: int)
    requires
        dim.len() == strides.len(),
        strides_nonneg(strides),
        elem_size > 0,
        2 * max_offset(dim, strides) <= isize::MAX,
    ensures
        max_offset(dim, complex_strides(dim, strides, elem_size)) == 2 * max_offset(dim, strides),
        strides_nonneg(complex_strides(dim, strides, elem_size)),
    decreases dim.len(),
{
    let c = complex_strides(dim, strides, elem_size);
    if dim.len() > 0 {
        let dt = dim.drop_first();
        let st = strides.drop_first();
        lemma_max_offset_nonneg(dt, st);
        lemma_axis_span_bound(dim, strides, 0);
        lemma_max_offset_complex(dt, st, elem_size);
        assert(c.drop_first() =~= complex_strides(dt, st, elem_size));
        let d = dim[0];
        let s = strides[0];
        assert(max_offset(dim, strides) == axis_span(d, s) + max_offset(dt, st));
        assert(max_offset(dim, c) == axis_span(d, c[0]) + max_offset(dt, c.drop_first()));
        if d > 1 {
            assert(s <= (d - 1) * s) by (nonlinear_arith)
                requires
                    d > 1,
                    s >= 0,
            ;
            assert(c[0] == 2 * s);
            assert(axis_span(d, c[0]) == 2 * axis_span(d, s)) by (nonlinear_arith)
                requires
                    c[0] == 2 * s,
                    s >= 0,
                    axis_span(d, c[0]) == (d - 1) * c[0],
                    axis_span(d, s) == (d - 1) * s,
            ;
        }
    }
    assert forall|a: int| 0 <= a < c.len() implies c[a] >= 0 by {
        if elem_size != 0 && dim[a] > 1 {
            lemma_axis_span_bound(dim, strides, a);
            let d = dim[a];
            let s = strides[a];
            assert(s <= (d - 1) * s) by (nonlinear_arith)
                requires
                    d > 1,
                    s >= 0,
            ;
        }
    }
}

/// The real and the imaginary components of a valid view of pairs are valid
/// views of components.
pub proof fn lemma_complex_valid(v: RawLayout, elem_size: int)
    requires
        v.valid_for(2 * elem_size),
        elem_size >= 0,
    ensures
        v.complex_parts(elem_size).0.valid_for(elem_size),
        v.complex_parts(elem_size).1.valid_for(elem_size),
        !v.is_empty() ==> v.ptr + elem_size <= usize::MAX,
        forall|a: int|
            0 <= a < v.dim.len() && elem_size != 0 && v.dim[a] > 1 ==> 2 * v.strides[a]
                <= isize::MAX,
{
    let (re, im) = v.complex_parts(elem_size);
    let m = max_offset(v.dim, v.strides);
    lemma_max_offset_nonneg(v.dim, v.strides);
    if elem_size == 0 {
        assert(re.strides =~= v.strides);
    } else {
        assert(2 * m <= isize::MAX) by (nonlinear_arith)
            requires
                m * (2 * elem_size) <= isize::MAX,
                elem_size >= 1,
                m >= 0,
        ;
        lemma_max_offset_complex(v.dim, v.strides, elem_size);
        assert((2 * m) * elem_size == m * (2 * elem_size)) by (nonlinear_arith);
        assert(elem_size + (2 * m + 1) * elem_size == (m + 1) * (2 * elem_size))
            by (nonlinear_arith);
        assert(0 <= (2 * m + 1) * elem_size) by (nonlinear_arith)
            requires
                m >= 0,
                elem_size >= 0,
        ;
        assert forall|a: int|
            0 <= a < v.dim.len() && elem_size != 0 && v.dim[a] > 1 implies 2 * v.strides[a]
            <= isize::MAX by {
            lemma_axis_span_bound(v.dim, v.strides, a);
            let d = v.dim[a];
            let s = v.strides[a];
            assert(s <= (d - 1) * s) by (nonlinear_arith)
                requires
                    d > 1,
                    s >= 0,
            ;
        }
    }
}

/// The real components start at the view's base and the imaginary ones one
/// component further on, or at the same base when the view is empty.
pub proof fn lemma_complex_pointer(v: RawLayout, elem_size: int)
    requires
        v.valid_for(2 * elem_size),
        elem_size >= 0,
    ensures
        v.complex_parts(elem_size).0.ptr == v.ptr,
        !v.is_empty() ==> v.complex_parts(elem_size).1.ptr == v.complex_parts(elem_size).0.ptr
            + elem_size,
        v.is_empty() ==> v.complex_parts(elem_size).1.ptr == v.complex_parts(elem_size).0.ptr,
        v.complex_parts(elem_size).0.dim == v.dim,
        v.complex_parts(elem_size).1.dim == v.dim,
{
    lemma_complex_valid(v, elem_size);
}

/// Along every axis of extent above one the components step twice as far
/// as the pairs; along the others the stride is kept.
pub proof fn lemma_complex_strides(v: RawLayout, elem_size: int)
    requires
        v.valid_for(2 * elem_size),
        elem_size > 0,
    ensures
        v.complex_parts(elem_size).0.strides == v.complex_parts(elem_size).1.strides,
        v.complex_parts(elem_size).0.strides.len() == v.strides.len(),
        forall|a: int|
            0 <= a < v.dim.len() && v.dim[a] > 1 ==> v.complex_parts(elem_size).0.strides[a] == 2
                * v.strides[a],
        forall|a: int|
            0 <= a < v.dim.len() && v.dim[a] <= 1 ==> v.complex_parts(elem_size).0.strides[a]
                == v.strides[a],
{
    lemma_complex_valid(v, elem_size);
}

} // verus!
