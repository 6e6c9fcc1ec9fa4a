use vstd::prelude::*;

verus! {

/// The kinds of chart that can be created.
#[derive(Clone, Copy, Debug, PartialEq, Eq, Structural)]
pub enum FigureType {
    /// Grouped bars along the vertical axis.
    GroupBarChartVertical,
    /// Grouped bars along the horizontal axis.
    GroupBarChartHorizontal,
    /// Points and lines on a coordinate grid.
    CartesianGraph,
    /// Slices of a circle.
    PieChart,
    /// Individual data points.
    ScatterGraph,
    /// Filled areas under lines.
    AreaChart,
    /// A frequency distribution.
    Histogram,
}

/// The output a chart is rendered to.
#[derive(Clone, Copy, Debug, PartialEq, Eq, Structural)]
pub enum OutputFormat {
    /// A raster `PixelCanvas`.
    PixelCanvas,
    /// An SVG document.
    Svg,
}

/// Creates charts of a given `FigureType` with default settings.
pub struct FigureFactory;

} // verus!
