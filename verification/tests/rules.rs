use fulleffect::camera::LensShape;
use fulleffect::config;
use fulleffect::filter::{identity_filter, FilterMode};
use fulleffect::material::SurfaceKind;
use fulleffect::math::first_largest;
use fulleffect::mesh::{Face, Mesh};
use fulleffect::point::{Axis, Point3};
use fulleffect::rayintersectable::{CuboidFace, OnPlanes, PrimitiveKind, UvAxes};
use fulleffect::scene::{emissions, nearest, sky_face, ElementInfo, SkyFace};
use fulleffect::tonemap::{none, ToneMappingMode};

#[test]
fn constants() {
    assert_eq!(config::SUPER_SAMPLING, 2);
    assert_eq!(config::PATHTRACING_BOUNCE_LIMIT, 10);
    assert_eq!(config::BILATERAL_FILTER_ITERATION, 1);
    assert_eq!(config::BILATERAL_FILTER_DIAMETER, 3);
}

#[test]
fn lights_are_sampled_at_scattering_surfaces_only() {
    assert!(SurfaceKind::Diffuse.nee_available());
    assert!(SurfaceKind::GGX.nee_available());
    assert!(!SurfaceKind::Specular.nee_available());
    assert!(!SurfaceKind::Refraction.nee_available());
    assert!(SurfaceKind::Diffuse.bsdf_available());
    assert!(!SurfaceKind::Specular.bsdf_available());
}

#[test]
fn only_spheres_are_sampled_as_lights() {
    assert!(PrimitiveKind::Sphere.nee_available());
    assert!(!PrimitiveKind::Cuboid.nee_available());
    assert!(!PrimitiveKind::Mesh.nee_available());
}

#[test]
fn lights_of_a_scene() {
    let element = |kind, emissive| ElementInfo { kind, emissive };
    let elements = vec![
        element(PrimitiveKind::Sphere, false),
        element(PrimitiveKind::Sphere, true),
        element(PrimitiveKind::Cuboid, true),
        element(PrimitiveKind::Mesh, true),
        element(PrimitiveKind::Sphere, true),
    ];
    assert_eq!(emissions(&elements), vec![1, 4]);
    assert_eq!(emissions(&Vec::new()), Vec::<usize>::new());
}

#[test]
fn lens_outlines() {
    assert!(!LensShape::Square.needs_rejection());
    assert!(LensShape::Circle.needs_rejection());
}

#[test]
fn identity_filter_and_curve() {
    assert_eq!(identity_filter(vec![3u8, 1, 2]), vec![3u8, 1, 2]);
    assert_eq!(identity_filter(Vec::<u8>::new()), Vec::<u8>::new());
    assert_eq!(none(&(1u8, 2u8, 3u8)), (1u8, 2u8, 3u8));
    assert_eq!(FilterMode::Identity, FilterMode::Identity);
    assert_ne!(ToneMappingMode::Identity, ToneMappingMode::Reinhard);
}

#[test]
fn mesh_parts_must_fit() {
    let p = Point3::new(0, 0, 0);
    let f = Face { v0: 0, v1: 1, v2: 2 };
    assert!(Mesh::new(vec![p, p, p], vec![f], vec![p]).is_some());
    assert!(Mesh::new(vec![p, p], vec![f], vec![p]).is_none());
    assert!(Mesh::new(vec![p, p, p], vec![f], vec![]).is_none());
    assert!(Mesh::new(vec![p, p, p], vec![Face { v0: 3, v1: 0, v2: 0 }], vec![p]).is_none());
    assert!(Mesh::new(vec![p, p, p], vec![Face { v0: 0, v1: 3, v2: 0 }], vec![p]).is_none());
    assert!(Mesh::new(vec![], vec![], vec![]).is_some());
    let mesh = Mesh::new(vec![p, Point3::new(1, 2, 3), p], vec![f], vec![p]).unwrap();
    assert_eq!(mesh.triangle_at(0).v1, Point3::new(1, 2, 3));
}

#[test]
fn nearest_hit_wins() {
    assert_eq!(nearest(&vec![]), None);
    assert_eq!(nearest(&vec![None, None]), None);
    assert_eq!(nearest(&vec![None, Some(5)]), Some(1));
    assert_eq!(nearest(&vec![Some(5), Some(3), None, Some(4)]), Some(1));
    assert_eq!(nearest(&vec![Some(3), Some(5), Some(-7)]), Some(2));
    assert_eq!(nearest(&vec![Some(i64::MAX)]), Some(0));
}

#[test]
fn of_equally_near_hits_the_first_wins() {
    assert_eq!(nearest(&vec![Some(4), Some(2), Some(2), Some(9)]), Some(1));
    assert_eq!(nearest(&vec![None, Some(0), Some(0)]), Some(1));
}

#[test]
fn nearest_distance_does_not_depend_on_the_order() {
    let one = vec![Some(8), None, Some(2), Some(6)];
    let other = vec![Some(6), Some(2), Some(8), None];
    assert_eq!(one[nearest(&one).unwrap()], other[nearest(&other).unwrap()]);
}

fn planes(y_max: bool, y_min: bool, x_min: bool, x_max: bool, z_min: bool, z_max: bool) -> OnPlanes {
    OnPlanes { y_max, y_min, x_min, x_max, z_min, z_max }
}

#[test]
fn sides_of_a_cuboid() {
    assert_eq!(planes(true, false, false, false, false, false).face(), Some(CuboidFace::Top));
    assert_eq!(planes(false, true, false, false, false, false).face(), Some(CuboidFace::Bottom));
    assert_eq!(planes(false, false, true, false, false, false).face(), Some(CuboidFace::Left));
    assert_eq!(planes(false, false, false, true, false, false).face(), Some(CuboidFace::Right));
    assert_eq!(planes(false, false, false, false, true, false).face(), Some(CuboidFace::Back));
    assert_eq!(planes(false, false, false, false, false, true).face(), Some(CuboidFace::Front));
    assert_eq!(planes(false, false, false, false, false, false).face(), None);
}

#[test]
fn on_an_edge_the_first_side_is_taken() {
    assert_eq!(planes(true, true, true, true, true, true).face(), Some(CuboidFace::Top));
    assert_eq!(planes(false, true, true, false, false, true).face(), Some(CuboidFace::Bottom));
    assert_eq!(planes(false, false, true, true, true, true).face(), Some(CuboidFace::Left));
    assert_eq!(planes(false, false, false, true, true, false).face(), Some(CuboidFace::Right));
    assert_eq!(planes(false, false, false, false, true, true).face(), Some(CuboidFace::Back));
}

#[test]
fn normals_and_texture_axes_of_the_sides() {
    assert_eq!(CuboidFace::Top.normal(), (0, 1, 0));
    assert_eq!(CuboidFace::Bottom.normal(), (0, -1, 0));
    assert_eq!(CuboidFace::Left.normal(), (-1, 0, 0));
    assert_eq!(CuboidFace::Right.normal(), (1, 0, 0));
    assert_eq!(CuboidFace::Back.normal(), (0, 0, -1));
    assert_eq!(CuboidFace::Front.normal(), (0, 0, 1));
    let axes = |u, v, v_mirrored| UvAxes { u, v, v_mirrored };
    assert_eq!(CuboidFace::Top.uv_axes(), axes(Axis::X, Axis::Z, true));
    assert_eq!(CuboidFace::Bottom.uv_axes(), axes(Axis::X, Axis::Z, true));
    assert_eq!(CuboidFace::Left.uv_axes(), axes(Axis::Z, Axis::Y, false));
    assert_eq!(CuboidFace::Right.uv_axes(), axes(Axis::Z, Axis::Y, false));
    assert_eq!(CuboidFace::Back.uv_axes(), axes(Axis::X, Axis::Y, false));
    assert_eq!(CuboidFace::Front.uv_axes(), axes(Axis::X, Axis::Y, false));
}

#[test]
fn faces_of_the_surrounding_cube() {
    assert_eq!(sky_face(3, 2, 1, true, true, true), SkyFace::PositiveX);
    assert_eq!(sky_face(3, 2, 1, false, true, true), SkyFace::NegativeX);
    assert_eq!(sky_face(1, 3, 2, true, true, true), SkyFace::PositiveY);
    assert_eq!(sky_face(1, 3, 2, true, false, true), SkyFace::NegativeY);
    assert_eq!(sky_face(1, 2, 3, true, true, true), SkyFace::PositiveZ);
    assert_eq!(sky_face(1, 2, 3, true, true, false), SkyFace::NegativeZ);
    assert_eq!(sky_face(2, 2, 2, false, true, true), SkyFace::NegativeX);
    assert_eq!(sky_face(1, 2, 2, true, false, true), SkyFace::NegativeY);
}

#[test]
fn first_of_the_largest() {
    assert_eq!(first_largest(&vec![3]), 0);
    assert_eq!(first_largest(&vec![1, 5, 2]), 1);
    assert_eq!(first_largest(&vec![5, 5, 5]), 0);
    assert_eq!(first_largest(&vec![0, 2, 7, 7]), 2);
    assert_eq!(first_largest(&vec![-3, -1, -2]), 1);
    assert_eq!(first_largest(&vec![i64::MIN, i64::MAX]), 1);
}
