//! Shape descriptors: element counts, reachable offsets and default strides.
use vstd::prelude::*;

verus! {

/// Why a shape cannot describe a view.
#[derive(Clone, Copy, Debug, PartialEq, Eq, Structural)]
pub enum ShapeError {
    /// The dimension and the strides have a different number of axes.
    IncompatibleLayout,
    /// An element count or an offset does not fit in `isize`.
    Overflow,
    /// A stride is negative.
    Unsupported,
}

/// The extent of an axis as a factor of the non-zero element count.
pub open spec fn axis_factor(d: usize) -> int {
    if d == 0 {
        1
    } else {
        d as int
    }
}

/// The product of all axis extents: the number of elements addressed.
pub open spec fn shape_size(dim: Seq<usize>) -> int
    decreases dim.len(),
{
    if dim.len() == 0 {
        1
    } else {
        dim[0] * shape_size(dim.drop_first())
    }
}

/// The product of the non-zero axis extents.
pub open spec fn shape_size_nonzero(dim: Seq<usize>) -> int
    decreases dim.len(),
{
    if dim.len() == 0 {
        1
    } else {
        axis_factor(dim[0]) * shape_size_nonzero(dim.drop_first())
    }
}

/// Some axis has extent zero, so no element is addressed.
pub open spec fn has_empty_axis(dim: Seq<usize>) -> bool {
    exists|a: int| 0 <= a < dim.len() && dim[a] == 0
}

/// The size of a step along an axis, whichever way it goes.
pub open spec fn abs_stride(s: isize) -> int {
    if s < 0 {
        -s
    } else {
        s as int
    }
}

/// How far, in elements, the last index along an axis lies from the first.
pub open spec fn axis_span(d: usize, s: isize) -> int {
    (if d == 0 {
        0
    } else {
        d - 1
    }) * abs_stride(s)
}

/// The distance, in elements, between the least and the greatest address
/// reached by moving along all axes.
pub open spec fn max_offset(dim: Seq<usize>, strides: Seq<isize>) -> int
    decreases dim.len(),
{
    if dim.len() == 0 || strides.len() == 0 {
        0
    } else {
        axis_span(dim[0], strides[0]) + max_offset(dim.drop_first(), strides.drop_first())
    }
}

/// No stride is negative.
pub open spec fn strides_nonneg(strides: Seq<isize>) -> bool {
    forall|a: int| 0 <= a < strides.len() ==> strides[a] >= 0
}

/// Element count and reachable offsets, in elements and in bytes, all fit in `isize`.
pub open spec fn offsets_fit(dim: Seq<usize>, strides: Seq<isize>, elem_size: int) -> bool {
    &&& shape_size_nonzero(dim) <= isize::MAX
    &&& max_offset(dim, strides) <= isize::MAX
    &&& max_offset(dim, strides) * elem_size <= isize::MAX
}

/// Row-major contiguous strides: the last axis varies fastest. All zero when
/// some axis is empty.
pub open spec fn c_strides(dim: Seq<usize>) -> Seq<isize> {
    Seq::new(
        dim.len(),
        |i: int|
            if has_empty_axis(dim) {
                0isize
            } else {
                shape_size(dim.subrange(i + 1, dim.len() as int)) as isize
            },
    )
}

/// Column-major contiguous strides: the first axis varies fastest. All zero
/// when some axis is empty.
pub open spec fn f_strides(dim: Seq<usize>) -> Seq<isize> {
    Seq::new(
        dim.len(),
        |i: int|
            if has_empty_axis(dim) {
                0isize
            } else {
                shape_size(dim.subrange(0, i)) as isize
            },
    )
}

pub proof fn lemma_size_concat(s: Seq<usize>, t: Seq<usize>)
    ensures
        shape_size(s + t) == shape_size(s) * shape_size(t),
        shape_size_nonzero(s + t) == shape_size_nonzero(s) * shape_size_nonzero(t),
    decreases s.len(),
{
    if s.len() == 0 {
        assert(s + t =~= t);
    } else {
        assert((s + t).drop_first() =~= s.drop_first() + t);
        lemma_size_concat(s.drop_first(), t);
        let a = shape_size(s.drop_first());
        let b = shape_size(t);
        let c = shape_size_nonzero(s.drop_first());
        let d = shape_size_nonzero(t);
        let x = s[0] as int;
        let y = axis_factor(s[0]);
        assert(x * (a * b) == (x * a) * b) by (nonlinear_arith);
        assert(y * (c * d) == (y * c) * d) by (nonlinear_arith);
    }
}

pub proof fn lemma_size_bounds(s: Seq<usize>)
    ensures
        0 <= shape_size(s) <= shape_size_nonzero(s),
        1 <= shape_size_nonzero(s),
        has_empty_axis(s) <==> shape_size(s) == 0,
        !has_empty_axis(s) ==> shape_size(s) == shape_size_nonzero(s),
    decreases s.len(),
{
    if s.len() > 0 {
        let t = s.drop_first();
        lemma_size_bounds(t);
        let a = shape_size(t);
        let c = shape_size_nonzero(t);
        let x = s[0] as int;
        let y = axis_factor(s[0]);
        assert(0 <= x * a <= y * c) by (nonlinear_arith)
            requires
                0 <= x <= y,
                0 <= a <= c,
        ;
        assert(1 <= y * c) by (nonlinear_arith)
            requires
                1 <= y,
                1 <= c,
        ;
        assert(x * a == 0 <==> x == 0 || a == 0) by (nonlinear_arith);
        if has_empty_axis(s) {
            let w = choose|w: int| 0 <= w < s.len() && s[w] == 0;
            if w > 0 {
                assert(t[w - 1] == 0);
            }
        }
        if has_empty_axis(t) {
            let w = choose|w: int| 0 <= w < t.len() && t[w] == 0;
            assert(s[w + 1] == 0);
        }
    }
}

/// Any part of a shape has no more non-zero elements than the whole.
pub proof fn lemma_part_size(dim: Seq<usize>, i: int, j: int)
    requires
        0 <= i <= j <= dim.len(),
    ensures
        0 <= shape_size(dim.subrange(i, j)) <= shape_size_nonzero(dim.subrange(i, j)),
        shape_size_nonzero(dim.subrange(i, j)) <= shape_size_nonzero(dim),
{
    let p = dim.subrange(0, i);
    let m = dim.subrange(i, j);
    let q = dim.subrange(j, dim.len() as int);
    assert(dim =~= p + (m + q));
    lemma_size_concat(m, q);
    lemma_size_concat(p, m + q);
    lemma_size_bounds(p);
    lemma_size_bounds(m);
    lemma_size_bounds(q);
    let a = shape_size_nonzero(p);
    let b = shape_size_nonzero(m);
    let c = shape_size_nonzero(q);
    assert(b <= a * (b * c)) by (nonlinear_arith)
        requires
            1 <= a,
            1 <= b,
            1 <= c,
    ;
}

pub proof fn lemma_max_offset_nonneg(dim: Seq<usize>, strides: Seq<isize>)
    ensures
        max_offset(dim, strides) >= 0,
    decreases dim.len(),
{
    if dim.len() > 0 && strides.len() > 0 {
        lemma_max_offset_nonneg(dim.drop_first(), strides.drop_first());
        let d = dim[0];
        let s = strides[0];
        assert(axis_span(d, s) >= 0) by (nonlinear_arith)
            requires
                d >= 0,
                abs_stride(s) >= 0,
                axis_span(d, s) == (if d == 0 {
                    0
                } else {
                    d - 1
                }) * abs_stride(s),
        ;
    }
}

/// The reachable offset splits into the part of the leading axes and that of
/// the trailing ones.
pub proof fn lemma_max_offset_split(dim: Seq<usize>, strides: Seq<isize>, i: int)
    requires
        dim.len() == strides.len(),
        0 <= i <= dim.len(),
    ensures
        max_offset(dim, strides) == max_offset(dim.subrange(0, i), strides.subrange(0, i))
            + max_offset(
            dim.subrange(i, dim.len() as int),
            strides.subrange(i, strides.len() as int),
        ),
    decreases i,
{
    if i == 0 {
        assert(dim.subrange(0, dim.len() as int) =~= dim);
        assert(strides.subrange(0, strides.len() as int) =~= strides);
    } else {
        let dt = dim.drop_first();
        let st = strides.drop_first();
        lemma_max_offset_split(dt, st, i - 1);
        assert(dim.subrange(0, i).drop_first() =~= dt.subrange(0, i - 1));
        assert(strides.subrange(0, i).drop_first() =~= st.subrange(0, i - 1));
        assert(dim.subrange(i, dim.len() as int) =~= dt.subrange(i - 1, dt.len() as int));
        assert(strides.subrange(i, strides.len() as int) =~= st.subrange(i - 1, st.len() as int));
    }
}

/// One axis's span is part of the whole reachable offset.
pub proof fn lemma_axis_span_bound(dim: Seq<usize>, strides: Seq<isize>, a: int)
    requires
        dim.len() == strides.len(),
        0 <= a < dim.len(),
    ensures
        0 <= axis_span(dim[a], strides[a]) <= max_offset(dim, strides),
    decreases a,
{
    lemma_max_offset_nonneg(dim.drop_first(), strides.drop_first());
    lemma_max_offset_nonneg(dim, strides);
    let d = dim[a];
    let s = strides[a];
    assert(axis_span(d, s) >= 0) by (nonlinear_arith)
        requires
            d >= 0,
            abs_stride(s) >= 0,
            axis_span(d, s) == (if d == 0 {
                0
            } else {
                d - 1
            }) * abs_stride(s),
    ;
    if a > 0 {
        lemma_axis_span_bound(dim.drop_first(), strides.drop_first(), a - 1);
        let d0 = dim[0];
        let s0 = strides[0];
        assert(axis_span(d0, s0) >= 0) by (nonlinear_arith)
            requires
                d0 >= 0,
                abs_stride(s0) >= 0,
                axis_span(d0, s0) == (if d0 == 0 {
                    0
                } else {
                    d0 - 1
                }) * abs_stride(s0),
        ;
    }
}

/// Changing one axis's extent changes the reachable offset by the difference
/// of that axis's spans.
pub proof fn lemma_max_offset_update(dim: Seq<usize>, strides: Seq<isize>, a: int, x: usize)
    requires
        dim.len() == strides.len(),
        0 <= a < dim.len(),
    ensures
        max_offset(dim.update(a, x), strides) == max_offset(dim, strides) - axis_span(
            dim[a],
            strides[a],
        ) + axis_span(x, strides[a]),
    decreases a,
{
    if a > 0 {
        lemma_max_offset_update(dim.drop_first(), strides.drop_first(), a - 1, x);
        assert(dim.update(a, x).drop_first() =~= dim.drop_first().update(a - 1, x));
    } else {
        assert(dim.update(a, x).drop_first() =~= dim.drop_first());
    }
}

/// Changing one axis's extent to a smaller one does not raise the non-zero
/// element count.
pub proof fn lemma_size_update(dim: Seq<usize>, a: int, x: usize)
    requires
        0 <= a < dim.len(),
        x <= dim[a],
    ensures
        shape_size_nonzero(dim.update(a, x)) <= shape_size_nonzero(dim),
    decreases a,
{
    let u = dim.update(a, x);
    lemma_size_bounds(dim.drop_first());
    lemma_size_bounds(u.drop_first());
    if a > 0 {
        lemma_size_update(dim.drop_first(), a - 1, x);
        assert(u.drop_first() =~= dim.drop_first().update(a - 1, x));
        let f = axis_factor(dim[0]);
        let p = shape_size_nonzero(u.drop_first());
        let q = shape_size_nonzero(dim.drop_first());
        assert(f * p <= f * q) by (nonlinear_arith)
            requires
                1 <= f,
                p <= q,
        ;
    } else {
        assert(u.drop_first() =~= dim.drop_first());
        let q = shape_size_nonzero(dim.drop_first());
        assert(axis_factor(x) * q <= axis_factor(dim[0]) * q) by (nonlinear_arith)
            requires
                axis_factor(x) <= axis_factor(dim[0]),
                1 <= q,
        ;
    }
}

/// Checks that the number of non-zero elements of `dim` fits in `isize`, and
/// returns the number of elements.
pub fn size_of_shape_checked(dim: &Vec<usize>) -> (r: Result<usize, ShapeError>)
    ensures
        r is Ok <==> shape_size_nonzero(dim@) <= isize::MAX,
        r matches Ok(n) ==> n == shape_size(dim@),
        r matches Err(e) ==> e == ShapeError::Overflow,
{
    let n = dim.len();
    let mut i: usize = n;
    let mut size_nonzero: usize = 1;
    let mut size: usize = 1;
    while i > 0
        invariant
            i <= n == dim@.len(),
            size_nonzero == shape_size_nonzero(dim@.subrange(i as int, n as int)),
            size == shape_size(dim@.subrange(i as int, n as int)),
        decreases i,
    {
        let d = dim[i - 1];
        proof {
            let t = dim@.subrange(i as int, n as int);
            assert(dim@.subrange(i - 1, n as int).drop_first() =~= t);
            lemma_size_bounds(t);
            lemma_part_size(dim@, i - 1, n as int);
            let s2 = dim@.subrange(i - 1, n as int);
            assert(s2[0] == d);
            assert(shape_size_nonzero(s2) == axis_factor(d) * shape_size_nonzero(t));
            assert(shape_size(s2) == d * shape_size(t));
        }
        let f: usize = if d == 0 {
            1
        } else {
            d
        };
        match f.checked_mul(size_nonzero) {
            Some(p) => {
                proof {
                    let x = d as int;
                    let y = f as int;
                    let a = size as int;
                    let c = size_nonzero as int;
                    assert(0 <= x * a <= y * c) by (nonlinear_arith)
                        requires
                            0 <= x <= y,
                            0 <= a <= c,
                    ;
                    assert(y == axis_factor(d));
                }
                size_nonzero = p;
                size = d * size;
            },
            None => {
                return Err(ShapeError::Overflow);
            },
        }
        i = i - 1;
    }
    assert(dim@.subrange(0, n as int) =~= dim@);
    if size_nonzero > isize::MAX as usize {
        Err(ShapeError::Overflow)
    } else {
        Ok(size)
    }
}

/// Checks that no stride is negative.
pub fn strides_non_negative(strides: &Vec<isize>) -> (r: Result<(), ShapeError>)
    ensures
        r is Ok <==> strides_nonneg(strides@),
        r matches Err(e) ==> e == ShapeError::Unsupported,
{
    let mut i: usize = 0;
    while i < strides.len()
        invariant
            i <= strides@.len(),
            forall|a: int| 0 <= a < i ==> strides@[a] >= 0,
        decreases strides@.len() - i,
    {
        if strides[i] < 0 {
            return Err(ShapeError::Unsupported);
        }
        i = i + 1;
    }
    Ok(())
}

/// Checks that the element count and the offsets reachable along the axes,
/// in elements and in bytes for elements of `elem_size` bytes, fit in
/// `isize`; returns the greatest offset in elements.
pub fn max_abs_offset_check_overflow(elem_size: usize, dim: &Vec<usize>, strides: &Vec<isize>) -> (r:
    Result<usize, ShapeError>)
    ensures
        r is Ok <==> dim@.len() == strides@.len() && offsets_fit(dim@, strides@, elem_size as int),
        r matches Ok(m) ==> m == max_offset(dim@, strides@),
        r == Err::<usize, ShapeError>(ShapeError::IncompatibleLayout) <==> dim@.len()
            != strides@.len(),
        r matches Err(e) ==> e != ShapeError::Unsupported,
{
    if dim.len() != strides.len() {
        return Err(ShapeError::IncompatibleLayout);
    }
    if size_of_shape_checked(dim).is_err() {
        return Err(ShapeError::Overflow);
    }
    let n = dim.len();
    let mut i: usize = n;
    let mut acc: usize = 0;
    while i > 0
        invariant
            i <= n == dim@.len() == strides@.len(),
            acc == max_offset(dim@.subrange(i as int, n as int), strides@.subrange(i as int, n as int)),
        decreases i,
    {
        let d = dim[i - 1];
        let s = strides[i - 1];
        proof {
            let dt = dim@.subrange(i as int, n as int);
            let st = strides@.subrange(i as int, n as int);
            assert(dim@.subrange(i - 1, n as int).drop_first() =~= dt);
            assert(strides@.subrange(i - 1, n as int).drop_first() =~= st);
            lemma_max_offset_split(dim@, strides@, i - 1);
            lemma_max_offset_nonneg(dim@.subrange(0, i - 1), strides@.subrange(0, i - 1));
            lemma_max_offset_nonneg(dt, st);
            assert(axis_span(d, s) >= 0) by (nonlinear_arith)
                requires
                    d >= 0,
                    abs_stride(s) >= 0,
                    axis_span(d, s) == (if d == 0 {
                        0
                    } else {
                        d - 1
                    }) * abs_stride(s),
            ;
        }
        let reach: usize = if d == 0 {
            0
        } else {
            d - 1
        };
        let step: usize = if s >= 0 {
            s as usize
        } else {
            (-(s + 1)) as usize + 1
        };
        let off = match reach.checked_mul(step) {
            Some(v) => v,
            None => {
                return Err(ShapeError::Overflow);
            },
        };
        acc = match acc.checked_add(off) {
            Some(v) => v,
            None => {
                return Err(ShapeError::Overflow);
            },
        };
        i = i - 1;
    }
    assert(dim@.subrange(0, n as int) =~= dim@);
    assert(strides@.subrange(0, n as int) =~= strides@);
    if acc > isize::MAX as usize {
        return Err(ShapeError::Overflow);
    }
    let bytes = match acc.checked_mul(elem_size) {
        Some(v) => v,
        None => {
            return Err(ShapeError::Overflow);
        },
    };
    if bytes > isize::MAX as usize {
        return Err(ShapeError::Overflow);
    }
    Ok(acc)
}

/// A vector of `n` zero strides, and whether some axis of `dim` is empty.
fn zero_strides(dim: &Vec<usize>) -> (r: (Vec<isize>, bool))
    ensures
        r.0@.len() == dim@.len(),
        forall|j: int| 0 <= j < dim@.len() ==> r.0@[j] == 0,
        r.1 == has_empty_axis(dim@),
{
    let n = dim.len();
    let mut strides: Vec<isize> = Vec::new();
    let mut empty = false;
    let mut i: usize = 0;
    while i < n
        invariant
            i <= n == dim@.len(),
            strides@.len() == i,
            forall|j: int| 0 <= j < i ==> strides@[j] == 0,
            empty <==> exists|a: int| 0 <= a < i && dim@[a] == 0,
        decreases n - i,
    {
        if dim[i] == 0 {
            empty = true;
        }
        strides.push(0);
        i = i + 1;
    }
    (strides, empty)
}

/// Row-major contiguous strides for `dim`.
pub fn default_strides(dim: &Vec<usize>) -> (r: Vec<isize>)
    requires
        shape_size_nonzero(dim@) <= isize::MAX,
    ensures
        r@ == c_strides(dim@),
{
    let n = dim.len();
    let (mut strides, empty) = zero_strides(dim);
    if empty || n == 0 {
        assert(strides@ =~= c_strides(dim@));
        return strides;
    }
    let mut k: usize = n - 1;
    let mut cum: usize = 1;
    strides.set(k, 1);
    assert(dim@.subrange(n as int, n as int).len() == 0);
    while k > 0
        invariant
            k < n == dim@.len() == strides@.len(),
            !has_empty_axis(dim@),
            shape_size_nonzero(dim@) <= isize::MAX,
            cum == shape_size(dim@.subrange(k + 1, n as int)),
            forall|j: int| k <= j < n ==> strides@[j] == c_strides(dim@)[j],
        decreases k,
    {
        proof {
            let t = dim@.subrange(k + 1, n as int);
            assert(dim@.subrange(k as int, n as int).drop_first() =~= t);
            lemma_part_size(dim@, k as int, n as int);
        }
        cum = dim[k] * cum;
        strides.set(k - 1, cum as isize);
        k = k - 1;
    }
    assert(strides@ =~= c_strides(dim@));
    strides
}

/// Column-major contiguous strides for `dim`.
pub fn fortran_strides(dim: &Vec<usize>) -> (r: Vec<isize>)
    requires
        shape_size_nonzero(dim@) <= isize::MAX,
    ensures
        r@ == f_strides(dim@),
{
    let n = dim.len();
    let (mut strides, empty) = zero_strides(dim);
    if empty || n == 0 {
        assert(strides@ =~= f_strides(dim@));
        return strides;
    }
    let mut k: usize = 0;
    let mut cum: usize = 1;
    strides.set(0, 1);
    assert(dim@.subrange(0, 0).len() == 0);
    while k + 1 < n
        invariant
            k < n == dim@.len() == strides@.len(),
            !has_empty_axis(dim@),
            shape_size_nonzero(dim@) <= isize::MAX,
            cum == shape_size(dim@.subrange(0, k as int)),
            forall|j: int| 0 <= j <= k ==> strides@[j] == f_strides(dim@)[j],
        decreases n - k,
    {
        proof {
            let p = dim@.subrange(0, k as int);
            let one = seq![dim@[k as int]];
            assert(dim@.subrange(0, k + 1) =~= p + one);
            assert(one.drop_first().len() == 0);
            assert(shape_size(one.drop_first()) == 1);
            assert(shape_size(one) == dim@[k as int]);
            lemma_size_concat(p, one);
            lemma_part_size(dim@, 0, k + 1);
            assert(shape_size(dim@.subrange(0, k + 1)) == cum * dim@[k as int]);
        }
        cum = cum * dim[k];
        strides.set(k + 1, cum as isize);
        k = k + 1;
    }
    assert(strides@ =~= f_strides(dim@));
    strides
}

} // verus!
