use fulleffect::aabb::{later, sooner, Aabb, SlabTimes};
use fulleffect::mesh::Triangle;
use fulleffect::point::{Axis, Point3};

fn boxed(min: (i64, i64, i64), max: (i64, i64, i64)) -> Aabb {
    Aabb { min: Point3::new(min.0, min.1, min.2), max: Point3::new(max.0, max.1, max.2) }
}

#[test]
fn merged_box_is_the_smallest_around_both() {
    let a = boxed((0, 0, 0), (2, 2, 2));
    let b = boxed((-1, 1, 5), (1, 3, 6));
    assert_eq!(a.merged(&b), boxed((-1, 0, 0), (2, 3, 6)));
    assert_eq!(b.merged(&a), boxed((-1, 0, 0), (2, 3, 6)));
}

#[test]
fn merging_a_box_with_itself_changes_nothing() {
    let a = boxed((-7, 2, 3), (9, 4, 5));
    assert_eq!(a.merged(&a), a);
}

#[test]
fn empty_box_is_neutral() {
    let a = boxed((-7, 2, 3), (9, 4, 5));
    assert_eq!(Aabb::empty().merged(&a), a);
    assert_eq!(a.merged(&Aabb::empty()), a);
    assert_eq!(Aabb::empty().min, Point3::all_of(i64::MAX));
    assert_eq!(Aabb::empty().max, Point3::all_of(i64::MIN));
}

#[test]
fn box_of_a_triangle() {
    let t = Triangle {
        v0: Point3::new(3, -1, 0),
        v1: Point3::new(1, 5, 2),
        v2: Point3::new(2, 0, -4),
    };
    assert_eq!(Aabb::from(t), boxed((1, -1, -4), (3, 5, 2)));
}

#[test]
fn boxes_that_only_touch_do_not_intersect() {
    let a = boxed((0, 0, 0), (2, 2, 2));
    assert!(a.intersect_with_aabb(&boxed((1, 1, 1), (3, 3, 3))));
    assert!(!a.intersect_with_aabb(&boxed((2, 0, 0), (3, 2, 2))));
    assert!(!a.intersect_with_aabb(&boxed((0, 0, 5), (2, 2, 6))));
    assert!(a.intersect_with_aabb(&a));
}

#[test]
fn coordinates_by_axis() {
    let p = Point3::new(1, 2, 3);
    assert_eq!(p.get(Axis::X), 1);
    assert_eq!(p.get(Axis::Y), 2);
    assert_eq!(p.get(Axis::Z), 3);
    let q = Point3::new(3, 0, 3);
    assert_eq!(p.min(&q), Point3::new(1, 0, 3));
    assert_eq!(p.max(&q), Point3::new(3, 2, 3));
}

fn times(x: (i64, i64), y: (i64, i64), z: (i64, i64)) -> SlabTimes {
    SlabTimes {
        x0: Some(x.0),
        x1: Some(x.1),
        y0: Some(y.0),
        y1: Some(y.1),
        z0: Some(z.0),
        z1: Some(z.1),
    }
}

#[test]
fn ray_from_inside_leaves_through_the_nearest_plane() {
    assert_eq!(times((-2, 3), (-1, 5), (-4, 1)).intersect(0), (true, Some(1)));
    assert_eq!(times((3, -2), (5, -1), (1, -4)).intersect(0), (true, Some(1)));
    assert_eq!(times((0, 0), (0, 0), (0, 0)).intersect(0), (true, Some(0)));
}

#[test]
fn ray_towards_a_box_enters_through_the_last_plane() {
    assert_eq!(times((2, 5), (1, 6), (3, 4)).intersect(0), (true, Some(3)));
    assert_eq!(times((5, 2), (6, 1), (4, 3)).intersect(0), (true, Some(3)));
    assert_eq!(times((2, 5), (1, 6), (3, 4)).intersect(3), (true, Some(4)));
}

#[test]
fn box_behind_the_ray_is_missed() {
    assert_eq!(times((-5, -2), (-6, -1), (-4, -3)).intersect(0), (false, Some(-3)));
}

#[test]
fn ray_beside_a_box_misses_it() {
    assert_eq!(times((1, 2), (3, 4), (0, 9)).intersect(0), (false, Some(3)));
    assert_eq!(times((1, 2), (3, 4), (0, 9)).intersect(5), (false, Some(2)));
}

#[test]
fn missing_parameters_are_passed_over() {
    let mut t = times((2, 5), (1, 6), (3, 4));
    t.x0 = None;
    assert_eq!(t.intersect(0), (false, Some(5)));
    t.x1 = None;
    assert_eq!(t.intersect(0), (true, Some(3)));
    let none = SlabTimes { x0: None, x1: None, y0: None, y1: None, z0: None, z1: None };
    assert_eq!(none.intersect(0), (false, None));
    assert_eq!(sooner(None, Some(4)), Some(4));
    assert_eq!(sooner(Some(4), None), Some(4));
    assert_eq!(sooner(Some(4), Some(-4)), Some(-4));
    assert_eq!(later(Some(4), Some(-4)), Some(4));
    assert_eq!(later(None, None), None);
}
