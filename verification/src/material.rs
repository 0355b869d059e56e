use vstd::prelude::*;

verus! {

/// The surface models, without their parameters.
#[derive(Clone, Copy, Debug, PartialEq, Eq, Structural)]
pub enum SurfaceKind {
    /// Lambertian reflection.
    Diffuse,
    /// A perfect mirror.
    Specular,
    /// A smooth dielectric that reflects and refracts.
    Refraction,
    /// A rough surface of microfacets.
    GGX,
}

impl SurfaceKind {
    /// Light sources are sampled explicitly at surfaces that scatter light
    /// into a range of directions. A mirror or a smooth dielectric sends light
    /// into single directions, which no sampled light would meet.
    pub open spec fn samples_lights(self) -> bool {
        self == SurfaceKind::Diffuse || self == SurfaceKind::GGX
    }

    /// Whether light sources are sampled explicitly at such a surface.
    pub fn nee_available(&self) -> (available: bool)
        ensures
            available == self.samples_lights(),
    {
        match self {
            SurfaceKind::Specular => false,
            SurfaceKind::Refraction => false,
            SurfaceKind::Diffuse => true,
            SurfaceKind::GGX => true,
        }
    }

    /// Whether the scattering function of such a surface can be evaluated for
    /// a given pair of directions: it can where light sources are sampled, and
    /// is asked for nowhere else.
    pub fn bsdf_available(&self) -> (available: bool)
        ensures
            available == self.samples_lights(),
    {
        self.nee_available()
    }
}

} // verus!
