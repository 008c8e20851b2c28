//! Procedural terrain on a toroidal heightfield: diamond-square generation,
//! rolling-particle erosion and colour banding, all in fixed-point arithmetic.

pub mod elevation;
pub mod erosion;
pub mod fractal;
pub mod random;
pub mod render;
pub mod util;
pub mod world;
