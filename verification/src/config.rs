use vstd::prelude::*;

verus! {

/// Width of the stratified sub-pixel grid: every pixel sample shoots
/// `SUPER_SAMPLING * SUPER_SAMPLING` camera rays.
pub const SUPER_SAMPLING: u32 = 2;

/// Upper bound on the number of surface interactions followed along one path.
pub const PATHTRACING_BOUNCE_LIMIT: u32 = 10;

/// Number of passes of the bilateral post-filter.
pub const BILATERAL_FILTER_ITERATION: u32 = 1;

/// Window diameter, in pixels, of the bilateral post-filter.
pub const BILATERAL_FILTER_DIAMETER: u32 = 3;

} // verus!
