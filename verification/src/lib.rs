//! A region-growing selection engine for raster images.
//!
//! An [`Image`] holds one hue/saturation/value triple per pixel, a [`Mask`]
//! holds one state byte per pixel, and [`flood`] grows a mask outward from a
//! seed rectangle over pixels whose colour is close to that of the already
//! selected neighbour that reached them.

pub mod color;
pub mod geometry;
pub mod image;
pub mod mask;
pub mod flood;
pub mod spread;

pub use crate::color::{rgb2hsv, HSV};
pub use crate::flood::flood;
pub use crate::geometry::{point2index, Dimensions, Point, Scale, Vector, VectorError};
pub use crate::image::Image;
pub use crate::mask::{Mask, NodeState};
