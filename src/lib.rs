//! A fixed-point raycasting renderer: a tile grid, a viewer pose, a ray
//! marcher, a column projector and a frame composer that fills an RGB
//! framebuffer with a minimap and a pseudo-3D view.

pub mod framebuffer;
pub mod map;
pub mod pose;
pub mod projection;
pub mod ray;
pub mod render;
