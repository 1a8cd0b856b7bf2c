use rawview::dimension::{
    default_strides, fortran_strides, max_abs_offset_check_overflow, size_of_shape_checked,
    strides_non_negative,
};
use rawview::ShapeError;

#[test]
fn size_counts_elements() {
    assert_eq!(size_of_shape_checked(&vec![2, 3, 4]), Ok(24));
    assert_eq!(size_of_shape_checked(&vec![]), Ok(1));
}

#[test]
fn size_with_empty_axis_is_zero() {
    assert_eq!(size_of_shape_checked(&vec![2, 0, 3]), Ok(0));
}

#[test]
fn size_overflow_is_reported() {
    assert_eq!(size_of_shape_checked(&vec![usize::MAX / 2, 3]), Err(ShapeError::Overflow));
    assert_eq!(
        size_of_shape_checked(&vec![isize::MAX as usize + 1, 0]),
        Err(ShapeError::Overflow)
    );
    assert_eq!(size_of_shape_checked(&vec![isize::MAX as usize, 0]), Ok(0));
}

#[test]
fn negative_strides_are_refused() {
    assert_eq!(strides_non_negative(&vec![3, 1]), Ok(()));
    assert_eq!(strides_non_negative(&vec![3, -1]), Err(ShapeError::Unsupported));
}

#[test]
fn max_offset_of_row_major() {
    assert_eq!(max_abs_offset_check_overflow(4, &vec![2, 3], &vec![3, 1]), Ok(5));
    assert_eq!(max_abs_offset_check_overflow(4, &vec![2, 3], &vec![-3, 1]), Ok(5));
    assert_eq!(max_abs_offset_check_overflow(4, &vec![0, 3], &vec![3, 1]), Ok(2));
}

#[test]
fn max_offset_errors() {
    assert_eq!(
        max_abs_offset_check_overflow(4, &vec![2, 3], &vec![1]),
        Err(ShapeError::IncompatibleLayout)
    );
    assert_eq!(
        max_abs_offset_check_overflow(8, &vec![2], &vec![isize::MAX / 4]),
        Err(ShapeError::Overflow)
    );
    assert_eq!(
        max_abs_offset_check_overflow(1, &vec![3], &vec![isize::MAX]),
        Err(ShapeError::Overflow)
    );
    assert_eq!(max_abs_offset_check_overflow(1, &vec![2], &vec![isize::MAX]), Ok(isize::MAX as usize));
}

#[test]
fn contiguous_strides() {
    assert_eq!(default_strides(&vec![2, 3, 4]), vec![12, 4, 1]);
    assert_eq!(fortran_strides(&vec![2, 3, 4]), vec![1, 2, 6]);
    assert_eq!(default_strides(&vec![2, 0, 4]), vec![0, 0, 0]);
    assert_eq!(fortran_strides(&vec![0, 5]), vec![0, 0]);
    assert_eq!(default_strides(&vec![]), Vec::<isize>::new());
}
