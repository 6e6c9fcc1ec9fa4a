use vstd::prelude::*;

verus! {

/// Shape and size of a scatter plot marker.
#[derive(Clone, Copy, Debug, PartialEq, Eq, Structural)]
pub enum ScatterDotType {
    /// A filled disc of the given radius.
    Circle(u32),
    /// A filled square; the value is its nominal side length.
    Square(u32),
    /// A plus-shaped cross; the value is the length of each arm.
    Cross(u32),
    /// An upward-pointing filled triangle; the value is its height and half base.
    Triangle(u32),
}

} // verus!
