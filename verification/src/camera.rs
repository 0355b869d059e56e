use vstd::prelude::*;

verus! {

/// The outline of a camera's lens, from which points are drawn for depth of
/// field.
#[derive(Clone, Copy, Debug, PartialEq, Eq, Structural)]
pub enum LensShape {
    Square,
    Circle,
}

impl LensShape {
    /// Whether a point drawn from the square around the lens has to be tested
    /// against the outline, and drawn again when it lies outside. Every point
    /// of the square lies on a square lens.
    pub open spec fn rejects(self) -> bool {
        self == LensShape::Circle
    }

    pub fn needs_rejection(&self) -> (r: bool)
        ensures
            r == self.rejects(),
    {
        match self {
            LensShape::Square => false,
            LensShape::Circle => true,
        }
    }
}

} // verus!
