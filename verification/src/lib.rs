//! Gradient overlays for raster images.
//!
//! A color is chosen for an image (a caller-supplied one, or the dominant
//! color of all pixels or of the bottom row), and is then blended over every
//! pixel with a strength that depends on the pixel's row: nothing at 40 % of
//! the height, growing quadratically towards the top and the bottom edge.
//!
//! Blending and the strength of each row are computed in exact integer
//! arithmetic, so that each function's contract can say which byte it
//! produces. What makes a color dominant is left to a function that the
//! caller hands in; this crate says which samples that function is given.

pub mod rounding;
pub mod blend;
pub mod fade;
pub mod curve;
pub mod raster;
pub mod color;
pub mod overlay;
pub mod query;
