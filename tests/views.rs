use num_complex::Complex;
use rawview::{Axis, RawArrayView, RawArrayViewMut, StrideShape, Strides};

const BASE: usize = 0x1000;

fn c_shape(dim: Vec<usize>) -> StrideShape {
    StrideShape { dim, strides: Strides::C }
}

fn custom_shape(dim: Vec<usize>, strides: Vec<isize>) -> StrideShape {
    StrideShape { dim, strides: Strides::Custom(strides) }
}

#[test]
fn split_two_by_three_rows() {
    let v = RawArrayView::<u32>::from_shape_ptr(c_shape(vec![2, 3]), BASE);
    assert_eq!(v.strides(), &[3, 1]);
    let (left, right) = v.split_at(Axis(0), 1);
    assert_eq!(left.shape(), &[1, 3]);
    assert_eq!(left.strides(), &[3, 1]);
    assert_eq!(left.as_ptr(), BASE);
    assert_eq!(right.shape(), &[1, 3]);
    assert_eq!(right.strides(), &[3, 1]);
    assert_eq!(right.as_ptr(), BASE + 3 * 4);
}

#[test]
fn split_at_zero_keeps_whole_view_on_right() {
    let v = RawArrayView::<u16>::from_shape_ptr(c_shape(vec![4, 5]), BASE);
    let (left, right) = v.split_at(Axis(1), 0);
    assert_eq!(left.shape(), &[4, 0]);
    assert_eq!(left.as_ptr(), BASE);
    assert_eq!(right.shape(), &[4, 5]);
    assert_eq!(right.strides(), &[5, 1]);
    assert_eq!(right.as_ptr(), BASE);
}

#[test]
fn split_at_end_keeps_whole_view_on_left() {
    let v = RawArrayView::<u16>::from_shape_ptr(c_shape(vec![4, 5]), BASE);
    let (left, right) = v.split_at(Axis(0), 4);
    assert_eq!(left.shape(), &[4, 5]);
    assert_eq!(left.as_ptr(), BASE);
    assert_eq!(right.shape(), &[0, 5]);
    assert_eq!(right.strides(), &[5, 1]);
    assert_eq!(right.as_ptr(), BASE);
}

#[test]
fn split_middle_pointer_follows_stride() {
    let v = RawArrayView::<u64>::from_shape_ptr(custom_shape(vec![3, 6], vec![1, 3]), BASE);
    let (left, right) = v.split_at(Axis(1), 4);
    assert_eq!(left.shape(), &[3, 4]);
    assert_eq!(right.shape(), &[3, 2]);
    assert_eq!(right.as_ptr(), BASE + 4 * 3 * 8);
    assert_eq!(left.len_of(Axis(1)) + right.len_of(Axis(1)), 6);
}

#[test]
fn split_mut_matches_read_only_split() {
    let v = RawArrayViewMut::<u32>::from_shape_ptr(c_shape(vec![2, 3]), BASE);
    let (left, right) = v.split_at(Axis(1), 2);
    assert_eq!(left.shape(), &[2, 2]);
    assert_eq!(left.as_ptr(), BASE);
    assert_eq!(right.shape(), &[2, 1]);
    assert_eq!(right.as_ptr(), BASE + 2 * 4);
    assert_eq!(right.strides(), &[3, 1]);
}

#[test]
fn cast_between_same_sized_types() {
    let v = RawArrayView::<i32>::from_shape_ptr(c_shape(vec![2, 3]), BASE);
    let w: RawArrayView<f32> = v.cast();
    assert_eq!(w.as_ptr(), BASE);
    assert_eq!(w.shape(), &[2, 3]);
    assert_eq!(w.strides(), &[3, 1]);
}

#[test]
fn try_cast_refuses_other_size() {
    let v = RawArrayView::<i32>::from_shape_ptr(c_shape(vec![2, 3]), BASE);
    assert!(v.try_cast::<f64>().is_none());
    let v = RawArrayView::<i32>::from_shape_ptr(c_shape(vec![2, 3]), BASE);
    let w = v.try_cast::<u32>().unwrap();
    assert_eq!(w.shape(), &[2, 3]);
    assert_eq!(w.as_ptr(), BASE);
}

#[test]
fn cast_mut_keeps_layout() {
    let v = RawArrayViewMut::<u64>::from_shape_ptr(custom_shape(vec![4], vec![2]), BASE);
    let w: RawArrayViewMut<i64> = v.cast();
    assert_eq!(w.as_ptr(), BASE);
    assert_eq!(w.shape(), &[4]);
    assert_eq!(w.strides(), &[2]);
}

#[test]
fn split_complex_interleaved_floats() {
    let v = RawArrayView::<Complex<f32>>::from_shape_ptr(c_shape(vec![4]), BASE);
    let Complex { re, im } = v.split_complex();
    assert_eq!(re.shape(), &[4]);
    assert_eq!(im.shape(), &[4]);
    assert_eq!(re.strides(), &[2]);
    assert_eq!(im.strides(), &[2]);
    assert_eq!(re.as_ptr(), BASE);
    assert_eq!(im.as_ptr(), BASE + 4);
}

#[test]
fn split_complex_empty_reuses_pointer() {
    let v = RawArrayView::<Complex<f64>>::from_shape_ptr(c_shape(vec![0, 3]), BASE);
    assert!(v.is_empty());
    let Complex { re, im } = v.split_complex();
    assert_eq!(re.as_ptr(), BASE);
    assert_eq!(im.as_ptr(), re.as_ptr());
    assert_eq!(im.shape(), &[0, 3]);
}

#[test]
fn split_complex_keeps_strides_of_short_axes() {
    let v = RawArrayView::<Complex<u16>>::from_shape_ptr(
        custom_shape(vec![3, 1, 0, 2], vec![5, 7, 9, 1]),
        BASE,
    );
    let Complex { re, im } = v.split_complex();
    assert_eq!(re.strides(), &[10, 7, 9, 2]);
    assert_eq!(im.strides(), &[10, 7, 9, 2]);
    assert_eq!(im.as_ptr(), BASE);
}

#[test]
fn split_complex_zero_sized_components_keep_strides() {
    let v = RawArrayView::<Complex<()>>::from_shape_ptr(custom_shape(vec![3, 2], vec![2, 1]), BASE);
    let Complex { re, im } = v.split_complex();
    assert_eq!(re.strides(), &[2, 1]);
    assert_eq!(im.as_ptr(), BASE);
}

#[test]
fn split_complex_mut_interleaved() {
    let v = RawArrayViewMut::<Complex<f64>>::from_shape_ptr(c_shape(vec![2, 3]), BASE);
    let Complex { re, im } = v.split_complex();
    assert_eq!(re.strides(), &[6, 2]);
    assert_eq!(im.as_ptr(), BASE + 8);
    assert_eq!(im.shape(), &[2, 3]);
}

#[test]
fn fortran_shape_strides() {
    let v = RawArrayView::<u8>::from_shape_ptr(
        StrideShape { dim: vec![2, 3, 4], strides: Strides::F },
        BASE,
    );
    assert_eq!(v.strides(), &[1, 2, 6]);
    assert_eq!(v.ndim(), 3);
}

#[test]
fn promotion_keeps_descriptor() {
    let v = RawArrayView::<u32>::from_shape_ptr(c_shape(vec![2, 2]), BASE);
    let checked = v.deref_into_view();
    assert_eq!(checked.as_ptr(), BASE);
    assert_eq!(checked.shape(), &[2, 2]);
    assert_eq!(checked.strides(), &[2, 1]);
    let m = RawArrayViewMut::<u32>::from_shape_ptr(c_shape(vec![3]), BASE);
    let checked = m.deref_into_view_mut();
    assert_eq!(checked.shape(), &[3]);
    assert_eq!(checked.strides(), &[1]);
    let m = RawArrayViewMut::<u32>::from_shape_ptr(c_shape(vec![3]), BASE);
    assert_eq!(m.deref_into_view().as_ptr(), BASE);
}
