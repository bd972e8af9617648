//! Paint resolution and tile-level occlusion culling for a tile-based
//! vector rasterizer: gradient stops, the paint palette with its texture
//! atlas, and the per-tile depth buffer.

mod color;
pub mod allocator;
pub mod gradient;
pub mod geometry;
pub mod paint;
pub mod z_buffer;
