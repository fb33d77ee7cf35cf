//! A software 2D raster engine: packed RGBA pixel buffers with clipped
//! blits, per-pixel compositing and a handful of image filters.

pub mod blend;
pub mod blit;
pub mod blur;
pub mod buffer;
pub mod copy;
pub mod draw;
pub mod filter;
pub mod fixed;
pub mod flood;
pub mod image;
pub mod ops;
pub mod pixel;
pub mod placement;
pub mod rand;
pub mod rect;
pub mod shape;
pub mod upright;
pub mod warp;
