//! Verified generation cores for a family of visual sketches: recursive
//! fractal curve generators (Koch curve, Sierpinski triangle, Cantor set,
//! circle packing) and a fixed-point spectral transform used by a radial
//! spectrum visualizer.
//!
//! Geometry is modelled with fixed-point integer coordinates; rendering,
//! windowing, random sampling and floating-point conversion live outside
//! the library.

pub mod geom;
pub mod koch;
pub mod sierpinski;
pub mod cantor;
pub mod circles;
pub mod spectrum;
pub mod config;
