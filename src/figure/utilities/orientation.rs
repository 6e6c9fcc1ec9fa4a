use vstd::prelude::*;

verus! {

/// Orientation of a chart or of one of its components.
#[derive(Clone, Copy, Debug, PartialEq, Eq, Structural)]
pub enum Orientation {
    /// Data arranged along the vertical axis.
    Vertical,
    /// Data arranged along the horizontal axis.
    Horizontal,
}

} // verus!
