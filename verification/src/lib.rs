//! The integer core of a Mandelbrot renderer.
//!
//! An image is rendered band by band: [`bands`] splits its rows into bands,
//! [`renderer`] colours the pixels of one band with a palette from
//! [`palette`] and merges band results into the image, and [`assembly`]
//! proves that the image does not depend on how many bands there were nor on
//! the order in which their results arrived.
//!
//! Escape counts, and the logarithm and sines that two palettes use, are
//! floating-point quantities. They are evaluated by the caller and enter
//! here as plain integers.

pub mod assembly;
pub mod bands;
pub mod palette;
pub mod renderer;

pub use crate::palette::PaintMode;
pub use crate::renderer::Mandelbrot;
