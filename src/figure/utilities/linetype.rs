use vstd::prelude::*;

verus! {

/// Stroke style of a rasterised line.
#[derive(Clone, Copy, Debug, PartialEq, Eq, Structural)]
pub enum LineType {
    /// Every pixel of the path is painted.
    Solid,
    /// Every pixel of the path is painted together with the two pixels above
    /// and the two below it (a five pixel tall vertical stripe); the end point
    /// alone is painted as a single pixel.
    SolidThick,
    /// Alternating painted and skipped runs of the given number of pixels,
    /// starting with a painted run.
    Dashed(u32),
    /// Same pixel pattern as `Dashed`.
    Dotted(u32),
    /// Squares of the given side every given gap; not supported by the
    /// raster canvas, which rejects it.
    Squared(u32, u32),
}

} // verus!
