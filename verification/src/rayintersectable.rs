use vstd::prelude::*;
use crate::point::Axis;

verus! {

/// The shapes that a scene is made of.
#[derive(Clone, Copy, Debug, PartialEq, Eq, Structural)]
pub enum PrimitiveKind {
    Sphere,
    Cuboid,
    Mesh,
}

impl PrimitiveKind {
    /// Points can be drawn on the surface of a sphere, and on no other shape.
    pub open spec fn samples_surface(self) -> bool {
        self == PrimitiveKind::Sphere
    }

    /// Whether a shape of this kind can be sampled as a light source.
    pub fn nee_available(&self) -> (available: bool)
        ensures
            available == self.samples_surface(),
    {
        match self {
            PrimitiveKind::Sphere => true,
            PrimitiveKind::Cuboid => false,
            PrimitiveKind::Mesh => false,
        }
    }
}

/// The six sides of a cuboid.
#[derive(Clone, Copy, Debug, PartialEq, Eq, Structural)]
pub enum CuboidFace {
    /// The side of the largest y.
    Top,
    /// The side of the smallest y.
    Bottom,
    /// The side of the smallest x.
    Left,
    /// The side of the largest x.
    Right,
    /// The side of the smallest z.
    Back,
    /// The side of the largest z.
    Front,
}

/// For each of the six planes of a cuboid, whether a point lies on it, within
/// the tolerance of the caller.
#[derive(Clone, Copy, Debug, PartialEq, Eq, Structural)]
pub struct OnPlanes {
    pub y_max: bool,
    pub y_min: bool,
    pub x_min: bool,
    pub x_max: bool,
    pub z_min: bool,
    pub z_max: bool,
}

/// The two coordinates of a point on a side that address the texture of that
/// side, and whether the second of them runs against the texture.
#[derive(Clone, Copy, Debug, PartialEq, Eq, Structural)]
pub struct UvAxes {
    pub u: Axis,
    pub v: Axis,
    pub v_mirrored: bool,
}

impl OnPlanes {
    /// The side that a point is taken to lie on. A point on an edge or a
    /// corner lies on several planes: the top and the bottom are taken before
    /// the left and the right, and those before the back and the front. A
    /// point on no plane lies on no side.
    pub open spec fn side(self) -> Option<CuboidFace> {
        if self.y_max {
            Some(CuboidFace::Top)
        } else if self.y_min {
            Some(CuboidFace::Bottom)
        } else if self.x_min {
            Some(CuboidFace::Left)
        } else if self.x_max {
            Some(CuboidFace::Right)
        } else if self.z_min {
            Some(CuboidFace::Back)
        } else if self.z_max {
            Some(CuboidFace::Front)
        } else {
            None
        }
    }

    /// Finds the side that a point lies on.
    pub fn face(&self) -> (face: Option<CuboidFace>)
        ensures
            face == self.side(),
    {
        if self.y_max {
            Some(CuboidFace::Top)
        } else if self.y_min {
            Some(CuboidFace::Bottom)
        } else if self.x_min {
            Some(CuboidFace::Left)
        } else if self.x_max {
            Some(CuboidFace::Right)
        } else if self.z_min {
            Some(CuboidFace::Back)
        } else if self.z_max {
            Some(CuboidFace::Front)
        } else {
            None
        }
    }
}

impl CuboidFace {
    /// The axis that the side is perpendicular to.
    pub open spec fn axis(self) -> Axis {
        match self {
            CuboidFace::Top | CuboidFace::Bottom => Axis::Y,
            CuboidFace::Left | CuboidFace::Right => Axis::X,
            CuboidFace::Back | CuboidFace::Front => Axis::Z,
        }
    }

    /// Whether the side looks towards larger coordinates.
    pub open spec fn outward(self) -> bool {
        self == CuboidFace::Top || self == CuboidFace::Right || self == CuboidFace::Front
    }

    /// The outward normal of the side: 1 or -1 along its axis, 0 along the
    /// two others.
    pub open spec fn normal_of(self) -> (i8, i8, i8) {
        let n: i8 = if self.outward() {
            1i8
        } else {
            (-1i8) as i8
        };
        match self.axis() {
            Axis::X => (n, 0, 0),
            Axis::Y => (0, n, 0),
            Axis::Z => (0, 0, n),
        }
    }

    /// The coordinates that address the texture of the side.
    pub open spec fn uv_of(self) -> UvAxes {
        match self.axis() {
            Axis::Y => UvAxes { u: Axis::X, v: Axis::Z, v_mirrored: true },
            Axis::X => UvAxes { u: Axis::Z, v: Axis::Y, v_mirrored: false },
            Axis::Z => UvAxes { u: Axis::X, v: Axis::Y, v_mirrored: false },
        }
    }

    /// The outward normal of the side.
    pub fn normal(&self) -> (n: (i8, i8, i8))
        ensures
            n == self.normal_of(),
    {
        match self {
            CuboidFace::Top => (0, 1, 0),
            CuboidFace::Bottom => (0, -1, 0),
            CuboidFace::Left => (-1, 0, 0),
            CuboidFace::Right => (1, 0, 0),
            CuboidFace::Back => (0, 0, -1),
            CuboidFace::Front => (0, 0, 1),
        }
    }

    /// The coordinates that address the texture of the side.
    pub fn uv_axes(&self) -> (uv: UvAxes)
        ensures
            uv == self.uv_of(),
    {
        match self {
            CuboidFace::Top | CuboidFace::Bottom => UvAxes {
                u: Axis::X,
                v: Axis::Z,
                v_mirrored: true,
            },
            CuboidFace::Left | CuboidFace::Right => UvAxes {
                u: Axis::Z,
                v: Axis::Y,
                v_mirrored: false,
            },
            CuboidFace::Back | CuboidFace::Front => UvAxes {
                u: Axis::X,
                v: Axis::Y,
                v_mirrored: false,
            },
        }
    }

    /// The texture of a side is addressed by the two coordinates that its
    /// normal does not point along.
    pub proof fn lemma_uv_off_normal(self)
        ensures
            self.uv_of().u != self.axis(),
            self.uv_of().v != self.axis(),
            self.uv_of().u != self.uv_of().v,
    {
    }

    /// A point that lies on a plane lies on a side, and on the side of a
    /// plane that it lies on.
    pub proof fn lemma_side_on_plane(planes: OnPlanes)
        ensures
            planes.side() is None <==> !(planes.y_max || planes.y_min || planes.x_min
                || planes.x_max || planes.z_min || planes.z_max),
            planes.side() == Some(CuboidFace::Top) ==> planes.y_max,
            planes.side() == Some(CuboidFace::Bottom) ==> planes.y_min,
            planes.side() == Some(CuboidFace::Left) ==> planes.x_min,
            planes.side() == Some(CuboidFace::Right) ==> planes.x_max,
            planes.side() == Some(CuboidFace::Back) ==> planes.z_min,
            planes.side() == Some(CuboidFace::Front) ==> planes.z_max,
    {
    }
}

} // verus!
