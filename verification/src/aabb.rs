use vstd::prelude::*;
use vstd::std_specs::convert::FromSpecImpl;
use crate::mesh::Triangle;
use crate::point::{max_ordinal, min_ordinal, Point3};

verus! {

/// An axis-aligned box, given by its two extreme corners.
///
/// A box is *valid* when `min` lies below `max` on every axis. The one box
/// that is used although it is not valid is [`Aabb::empty`], the neutral
/// element of [`Aabb::merged`].
#[derive(Clone, Copy, Debug, PartialEq, Eq, Structural)]
pub struct Aabb {
    pub min: Point3,
    pub max: Point3,
}

impl Aabb {
    /// `min` does not exceed `max` on any axis.
    pub open spec fn valid(self) -> bool {
        self.min.below(self.max)
    }

    /// Every point of `inner` is a point of this box.
    pub open spec fn contains(self, inner: Aabb) -> bool {
        self.min.below(inner.min) && inner.max.below(self.max)
    }

    /// The point `p` lies in this box.
    pub open spec fn contains_point(self, p: Point3) -> bool {
        self.min.below(p) && p.below(self.max)
    }

    /// The two boxes share interior points: on each axis their open
    /// intervals meet.
    pub open spec fn overlaps(self, other: Aabb) -> bool {
        &&& self.min.x < other.max.x && self.max.x > other.min.x
        &&& self.min.y < other.max.y && self.max.y > other.min.y
        &&& self.min.z < other.max.z && self.max.z > other.min.z
    }

    /// The smallest box that contains both boxes.
    pub open spec fn union(self, other: Aabb) -> Aabb {
        Aabb { min: self.min.lower(other.min), max: self.max.upper(other.max) }
    }

    /// The box that contains nothing: merging it with any box gives that box.
    pub open spec fn empty_spec() -> Aabb {
        Aabb {
            min: Point3 { x: i64::MAX, y: i64::MAX, z: i64::MAX },
            max: Point3 { x: i64::MIN, y: i64::MIN, z: i64::MIN },
        }
    }

    /// The bounding box of three points.
    pub open spec fn of_triangle(t: Triangle) -> Aabb {
        Aabb {
            min: t.v0.lower(t.v1).lower(t.v2),
            max: t.v0.upper(t.v1).upper(t.v2),
        }
    }

    pub fn empty() -> (b: Aabb)
        ensures
            b == Aabb::empty_spec(),
    {
        Aabb { min: Point3::all_of(i64::MAX), max: Point3::all_of(i64::MIN) }
    }

    pub fn intersect_with_aabb(&self, other: &Aabb) -> (hit: bool)
        ensures
            hit == self.overlaps(*other),
    {
        self.min.x < other.max.x && self.max.x > other.min.x && self.min.y < other.max.y
            && self.max.y > other.min.y && self.min.z < other.max.z && self.max.z
            > other.min.z
    }

    pub fn merged(&self, other: &Aabb) -> (b: Aabb)
        ensures
            b == self.union(*other),
    {
        Aabb { min: self.min.min(&other.min), max: self.max.max(&other.max) }
    }

    /// The merge of two boxes contains both of them.
    pub proof fn lemma_union_contains_both(a: Aabb, b: Aabb)
        ensures
            a.union(b).contains(a),
            a.union(b).contains(b),
    {
    }

    /// Merging a box with itself gives the box back.
    pub proof fn lemma_union_idempotent(a: Aabb)
        ensures
            a.union(a) == a,
    {
    }

    /// No box that contains both `a` and `b` is smaller than their merge.
    pub proof fn lemma_union_least(a: Aabb, b: Aabb, c: Aabb)
        requires
            c.contains(a),
            c.contains(b),
        ensures
            c.contains(a.union(b)),
    {
    }

    /// Merging is commutative and associative, and the empty box is its
    /// neutral element.
    pub proof fn lemma_union_monoid(a: Aabb, b: Aabb, c: Aabb)
        ensures
            a.union(b) == b.union(a),
            a.union(b).union(c) == a.union(b.union(c)),
            Aabb::empty_spec().union(a) == a,
            a.union(Aabb::empty_spec()) == a,
    {
    }

    /// A merge is valid as soon as one of its operands is.
    pub proof fn lemma_union_valid(a: Aabb, b: Aabb)
        requires
            a.valid() || b.valid(),
        ensures
            a.union(b).valid(),
    {
    }
}

impl From<Triangle> for Aabb {
    fn from(triangle: Triangle) -> (b: Aabb) {
        let Triangle { v0, v1, v2 } = triangle;
        Aabb { min: v0.min(&v1).min(&v2), max: v0.max(&v1).max(&v2) }
    }
}

impl FromSpecImpl<Triangle> for Aabb {
    open spec fn obeys_from_spec() -> bool {
        true
    }

    open spec fn from_spec(triangle: Triangle) -> Aabb {
        Aabb::of_triangle(triangle)
    }
}

/// The bounding box of a triangle is valid and holds its three corners.
pub proof fn lemma_triangle_box(t: Triangle)
    ensures
        Aabb::of_triangle(t).valid(),
        Aabb::of_triangle(t).contains_point(t.v0),
        Aabb::of_triangle(t).contains_point(t.v1),
        Aabb::of_triangle(t).contains_point(t.v2),
{
}

/// The parameters at which a ray crosses the six planes of a box, two for
/// each axis. A parameter is missing where the ray gives no number for it, as
/// it does for a plane that it lies in.
#[derive(Clone, Copy, Debug, PartialEq, Eq, Structural)]
pub struct SlabTimes {
    pub x0: Option<i64>,
    pub x1: Option<i64>,
    pub y0: Option<i64>,
    pub y1: Option<i64>,
    pub z0: Option<i64>,
    pub z1: Option<i64>,
}

/// The smaller of two parameters; the one that is there where one is missing.
pub open spec fn lesser(a: Option<i64>, b: Option<i64>) -> Option<i64> {
    match (a, b) {
        (Some(s), Some(t)) => Some(min_ordinal(s, t)),
        (Some(_), None) => a,
        _ => b,
    }
}

/// The larger of two parameters; the one that is there where one is missing.
pub open spec fn greater(a: Option<i64>, b: Option<i64>) -> Option<i64> {
    match (a, b) {
        (Some(s), Some(t)) => Some(max_ordinal(s, t)),
        (Some(_), None) => a,
        _ => b,
    }
}

impl SlabTimes {
    /// Where the ray has entered all three slabs: the last of the three
    /// entries.
    pub open spec fn entry(self) -> Option<i64> {
        greater(
            greater(lesser(self.x0, self.x1), lesser(self.y0, self.y1)),
            lesser(self.z0, self.z1),
        )
    }

    /// Where the ray leaves the first of the three slabs.
    pub open spec fn exit(self) -> Option<i64> {
        lesser(
            lesser(greater(self.x0, self.x1), greater(self.y0, self.y1)),
            greater(self.z0, self.z1),
        )
    }

    /// The ray meets the box: it has entered every slab before it leaves one,
    /// and it does not leave before its origin, whose parameter is `zero`.
    pub open spec fn hits(self, zero: i64) -> bool {
        &&& self.entry() is Some
        &&& self.exit() is Some
        &&& self.entry()->0 <= self.exit()->0
        &&& self.exit()->0 >= zero
    }

    /// The parameter of the meeting point: the entry where it lies beyond the
    /// origin, else the exit.
    pub open spec fn distance(self, zero: i64) -> Option<i64> {
        if self.entry() is Some && self.entry()->0 > zero {
            self.entry()
        } else {
            self.exit()
        }
    }

    /// The origin of the ray lies between the two planes of every slab.
    pub open spec fn starts_inside(self, zero: i64) -> bool {
        &&& self.x0 is Some && self.x1 is Some && self.y0 is Some
        &&& self.y1 is Some && self.z0 is Some && self.z1 is Some
        &&& lesser(self.x0, self.x1)->0 <= zero <= greater(self.x0, self.x1)->0
        &&& lesser(self.y0, self.y1)->0 <= zero <= greater(self.y0, self.y1)->0
        &&& lesser(self.z0, self.z1)->0 <= zero <= greater(self.z0, self.z1)->0
    }

    /// Decides whether the ray meets the box, and at which parameter.
    pub fn intersect(&self, zero: i64) -> (found: (bool, Option<i64>))
        ensures
            found.0 == self.hits(zero),
            found.1 == self.distance(zero),
    {
        let entry = later(later(sooner(self.x0, self.x1), sooner(self.y0, self.y1)), sooner(
            self.z0,
            self.z1,
        ));
        let exit = sooner(sooner(later(self.x0, self.x1), later(self.y0, self.y1)), later(
            self.z0,
            self.z1,
        ));
        let hit = match (entry, exit) {
            (Some(a), Some(b)) => a <= b && b >= zero,
            _ => false,
        };
        let distance = match entry {
            Some(a) => if a > zero {
                entry
            } else {
                exit
            },
            None => exit,
        };
        (hit, distance)
    }

    /// A ray whose origin lies between the two planes of every slab meets the
    /// box.
    pub proof fn lemma_inside_hits(self, zero: i64)
        requires
            self.starts_inside(zero),
        ensures
            self.hits(zero),
            self.distance(zero) == self.exit(),
    {
    }
}

/// The smaller of two parameters.
pub fn sooner(a: Option<i64>, b: Option<i64>) -> (r: Option<i64>)
    ensures
        r == lesser(a, b),
{
    match (a, b) {
        (Some(s), Some(t)) => Some(if s <= t { s } else { t }),
        (Some(_), None) => a,
        _ => b,
    }
}

/// The larger of two parameters.
pub fn later(a: Option<i64>, b: Option<i64>) -> (r: Option<i64>)
    ensures
        r == greater(a, b),
{
    match (a, b) {
        (Some(s), Some(t)) => Some(if s >= t { s } else { t }),
        (Some(_), None) => a,
        _ => b,
    }
}

} // verus!
