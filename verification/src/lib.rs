//! A software rasterizer over exact fixed-point arithmetic: homogeneous
//! transforms, a camera/projection/viewport world, flat and Gouraud shading,
//! and a z-buffered triangle-fill loop, all with verified contracts.

pub mod fixed;
pub mod math;
pub mod draw;
pub mod wavefront;
pub mod shader;
pub mod color;
