//! Voronoi diagrams on a pixel grid.
//!
//! A diagram is rendered in stages: a grid is filled with a background
//! colour, every pixel is then painted with the palette colour of its nearest
//! seed, a filled disc is stamped on every seed, and the grid is finally
//! encoded as a binary PPM stream. Each stage is an executable function whose
//! contract states, pixel by pixel or byte by byte, what it produces.

pub mod color;
pub mod diagram;
pub mod geometry;
pub mod image;
pub mod marker;
pub mod ppm;
pub mod seeds;
pub mod voronoi;
