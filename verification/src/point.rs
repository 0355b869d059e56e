use vstd::prelude::*;

verus! {

/// One of the three coordinate axes.
#[derive(Clone, Copy, Debug, PartialEq, Eq, Structural)]
pub enum Axis {
    X,
    Y,
    Z,
}

/// A point of space whose coordinates are ordinals.
///
/// An ordinal is an integer that stands for a real coordinate under a strictly
/// increasing embedding chosen by the caller. Comparing two ordinals, and
/// taking the smaller or the larger of them, therefore agrees with doing the
/// same on the coordinates they stand for. Nothing else is assumed of the
/// embedding: sums and differences of ordinals mean nothing.
#[derive(Clone, Copy, Debug, PartialEq, Eq, Structural)]
pub struct Point3 {
    pub x: i64,
    pub y: i64,
    pub z: i64,
}

/// The smaller of two ordinals.
pub open spec fn min_ordinal(a: i64, b: i64) -> i64 {
    if a <= b {
        a
    } else {
        b
    }
}

/// The larger of two ordinals.
pub open spec fn max_ordinal(a: i64, b: i64) -> i64 {
    if a >= b {
        a
    } else {
        b
    }
}

impl Point3 {
    /// The coordinate of this point along `axis`.
    pub open spec fn coordinate(self, axis: Axis) -> i64 {
        match axis {
            Axis::X => self.x,
            Axis::Y => self.y,
            Axis::Z => self.z,
        }
    }

    /// The point whose every coordinate is the smaller of the two given ones.
    pub open spec fn lower(self, other: Point3) -> Point3 {
        Point3 {
            x: min_ordinal(self.x, other.x),
            y: min_ordinal(self.y, other.y),
            z: min_ordinal(self.z, other.z),
        }
    }

    /// The point whose every coordinate is the larger of the two given ones.
    pub open spec fn upper(self, other: Point3) -> Point3 {
        Point3 {
            x: max_ordinal(self.x, other.x),
            y: max_ordinal(self.y, other.y),
            z: max_ordinal(self.z, other.z),
        }
    }

    /// Holds when no coordinate of this point exceeds that of `other`.
    pub open spec fn below(self, other: Point3) -> bool {
        self.x <= other.x && self.y <= other.y && self.z <= other.z
    }

    pub fn new(x: i64, y: i64, z: i64) -> (p: Point3)
        ensures
            p.x == x,
            p.y == y,
            p.z == z,
    {
        Point3 { x, y, z }
    }

    pub fn all_of(v: i64) -> (p: Point3)
        ensures
            p.x == v,
            p.y == v,
            p.z == v,
    {
        Point3 { x: v, y: v, z: v }
    }

    /// Reads the coordinate along `axis`.
    pub fn get(&self, axis: Axis) -> (c: i64)
        ensures
            c == self.coordinate(axis),
    {
        match axis {
            Axis::X => self.x,
            Axis::Y => self.y,
            Axis::Z => self.z,
        }
    }

    /// Componentwise minimum.
    pub fn min(&self, other: &Point3) -> (p: Point3)
        ensures
            p == self.lower(*other),
    {
        Point3 {
            x: if self.x <= other.x { self.x } else { other.x },
            y: if self.y <= other.y { self.y } else { other.y },
            z: if self.z <= other.z { self.z } else { other.z },
        }
    }

    /// Componentwise maximum.
    pub fn max(&self, other: &Point3) -> (p: Point3)
        ensures
            p == self.upper(*other),
    {
        Point3 {
            x: if self.x >= other.x { self.x } else { other.x },
            y: if self.y >= other.y { self.y } else { other.y },
            z: if self.z >= other.z { self.z } else { other.z },
        }
    }
}

/// The axis of the largest of three extents. Of equal extents the x axis is
/// taken before the y axis, and the y axis before the z axis.
pub open spec fn longest_axis(ex: i64, ey: i64, ez: i64) -> Axis {
    if ex >= ey && ex >= ez {
        Axis::X
    } else if ey >= ez {
        Axis::Y
    } else {
        Axis::Z
    }
}

/// Picks the axis of the largest of three extents.
pub fn choose_axis(ex: i64, ey: i64, ez: i64) -> (axis: Axis)
    ensures
        axis == longest_axis(ex, ey, ez),
{
    if ex >= ey && ex >= ez {
        Axis::X
    } else if ey >= ez {
        Axis::Y
    } else {
        Axis::Z
    }
}

} // verus!
