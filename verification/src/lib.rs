//! A software 3D rendering core: fixed-point vector/matrix algebra, triangle
//! meshes, a chainable transform pipeline (rotate, translate, scale, backface
//! cull, flat shading, perspective projection) and a column-sweep scanline
//! rasterizer writing packed 24-bit RGB pixels into a screen buffer.
//!
//! Every geometric quantity is a fixed-point number: an `i64` carrying 16
//! fractional bits (see [`fixed`]). Angles enter the pipeline as the cosine
//! and sine of the rotation, already in fixed point, so the whole pipeline is
//! exact integer arithmetic with stated truncation behaviour.

pub mod color;
pub mod fixed;
pub mod fps;
pub mod screen;
pub mod matrix;
pub mod mesh;
pub mod raster;
pub mod transform;
pub mod triangle;
pub mod vector;
