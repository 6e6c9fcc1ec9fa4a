//! Raster and vector chart surfaces: a pixel buffer with line rasterisation,
//! alpha blending, area filling, scatter markers and text placement, plus an
//! SVG fragment accumulator.

pub mod figure;
