//! Raw strided array views: a base address with per-axis extents and strides,
//! split along an axis, reinterpreted as another element type, decomposed
//! into real and imaginary components, and promoted to checked views.
//!
//! Addresses are plain integers: a raw view never dereferences anything.
pub mod dimension;
pub mod layout;
pub mod raw_view;
pub mod shape;
pub mod view;

pub use dimension::ShapeError;
pub use layout::RawLayout;
pub use raw_view::{Axis, RawArrayView, RawArrayViewMut};
pub use shape::{StrideShape, Strides};
pub use view::{ArrayView, ArrayViewMut};
