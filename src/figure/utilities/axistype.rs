use vstd::prelude::*;

verus! {

/// The axis a tick label belongs to.
#[derive(Clone, Copy, Debug, PartialEq, Eq, Structural)]
pub enum AxisType {
    /// The horizontal axis.
    AxisX,
    /// The vertical axis.
    AxisY,
}

} // verus!
