use fulleffect::aabb::{Aabb, SlabTimes};
use fulleffect::bvh::{node_from_mesh_with_indexes, BvhNode};
use fulleffect::mesh::{Face, Mesh};
use fulleffect::point::Point3;
use fulleffect::scene::nearest;

fn strip(count: usize) -> Mesh {
    let mut vertexes = Vec::new();
    let mut faces = Vec::new();
    let mut centroids = Vec::new();
    for i in 0..count {
        let x = (count - i) as i64 * 10;
        vertexes.push(Point3::new(x, 0, 0));
        vertexes.push(Point3::new(x + 1, 1, 0));
        vertexes.push(Point3::new(x + 2, 0, 1));
        faces.push(Face { v0: 3 * i, v1: 3 * i + 1, v2: 3 * i + 2 });
        centroids.push(Point3::new(3 * x + 3, 1, 1));
    }
    Mesh::new(vertexes, faces, centroids).unwrap()
}

#[test]
fn five_faces_make_one_leaf() {
    let mesh = strip(5);
    let node = BvhNode::from_mesh(&mesh, &|lo: i64, hi: i64| hi - lo);
    match node {
        BvhNode::Leaf { aabb, indexes } => {
            assert_eq!(indexes, vec![0, 1, 2, 3, 4]);
            assert_eq!(aabb, Aabb { min: Point3::new(10, 0, 0), max: Point3::new(52, 1, 1) });
        }
        BvhNode::Interior { .. } => panic!("five faces must stay in one leaf"),
    }
}

#[test]
fn six_faces_are_sorted_and_cut_in_the_middle() {
    let mesh = strip(6);
    let node = BvhNode::from_mesh(&mesh, &|lo: i64, hi: i64| hi - lo);
    match node {
        BvhNode::Interior { axis, left, right, .. } => {
            assert_eq!(axis, fulleffect::point::Axis::X);
            match (*left, *right) {
                (BvhNode::Leaf { indexes: a, .. }, BvhNode::Leaf { indexes: b, .. }) => {
                    assert_eq!(a, vec![5, 4, 3]);
                    assert_eq!(b, vec![2, 1, 0]);
                }
                _ => panic!("both children must be leaves"),
            }
        }
        BvhNode::Leaf { .. } => panic!("six faces must be split"),
    }
}

fn flat_mesh(centroids: Vec<(i64, i64, i64)>) -> Mesh {
    let mut vertexes = Vec::new();
    let mut faces = Vec::new();
    let mut keys = Vec::new();
    for (i, c) in centroids.iter().enumerate() {
        vertexes.push(Point3::new(c.0, c.1, c.2));
        faces.push(Face { v0: i, v1: i, v2: i });
        keys.push(Point3::new(c.0, c.1, c.2));
    }
    Mesh::new(vertexes, faces, keys).unwrap()
}

fn leaves(node: &BvhNode, out: &mut Vec<Vec<usize>>) {
    match node {
        BvhNode::Leaf { indexes, .. } => out.push(indexes.clone()),
        BvhNode::Interior { left, right, .. } => {
            leaves(left, out);
            leaves(right, out);
        }
    }
}

fn axis_of(node: &BvhNode) -> fulleffect::point::Axis {
    match node {
        BvhNode::Interior { axis, .. } => *axis,
        BvhNode::Leaf { .. } => panic!("an interior node was expected"),
    }
}

#[test]
fn no_face_gives_an_empty_leaf() {
    let mesh = Mesh::new(vec![], vec![], vec![]).unwrap();
    let node = BvhNode::from_mesh(&mesh, &|lo: i64, hi: i64| hi - lo);
    match node {
        BvhNode::Leaf { aabb, indexes } => {
            assert!(indexes.is_empty());
            assert_eq!(aabb, Aabb::empty());
        }
        BvhNode::Interior { .. } => panic!("a leaf was expected"),
    }
    assert!(matches!(BvhNode::empty(), BvhNode::Leaf { .. }));
    assert_eq!(BvhNode::empty().bounding_box(), Aabb::empty());
}

#[test]
fn longest_axis_is_chosen() {
    let along = |f: &dyn Fn(i64) -> (i64, i64, i64)| {
        let mesh = flat_mesh((0..6).map(|i| f(i)).collect());
        axis_of(&BvhNode::from_mesh(&mesh, &|lo: i64, hi: i64| hi - lo))
    };
    assert_eq!(along(&|i| (i * 3, i * 2, i)), fulleffect::point::Axis::X);
    assert_eq!(along(&|i| (i, i * 3, i * 2)), fulleffect::point::Axis::Y);
    assert_eq!(along(&|i| (i, i * 2, i * 3)), fulleffect::point::Axis::Z);
}

#[test]
fn of_equal_axes_the_first_is_chosen() {
    let along = |f: &dyn Fn(i64) -> (i64, i64, i64)| {
        let mesh = flat_mesh((0..6).map(|i| f(i)).collect());
        axis_of(&BvhNode::from_mesh(&mesh, &|lo: i64, hi: i64| hi - lo))
    };
    assert_eq!(along(&|i| (i, i, i)), fulleffect::point::Axis::X);
    assert_eq!(along(&|i| (i, i, 0)), fulleffect::point::Axis::X);
    assert_eq!(along(&|i| (i, 0, i)), fulleffect::point::Axis::X);
    assert_eq!(along(&|i| (0, i, i)), fulleffect::point::Axis::Y);
    assert_eq!(fulleffect::point::choose_axis(5, 5, 9), fulleffect::point::Axis::Z);
    assert_eq!(fulleffect::point::choose_axis(5, 5, 5), fulleffect::point::Axis::X);
    assert_eq!(fulleffect::point::choose_axis(4, 5, 5), fulleffect::point::Axis::Y);
}

#[test]
fn extents_are_measured_by_the_caller() {
    let mesh = flat_mesh((0..6).map(|i| (i * 3, i * 2, i)).collect());
    let reversed = BvhNode::from_mesh(&mesh, &|lo: i64, hi: i64| lo - hi);
    assert_eq!(axis_of(&reversed), fulleffect::point::Axis::Z);
}

#[test]
fn faces_of_equal_centroid_keep_their_order() {
    let mesh = flat_mesh(vec![
        (5, 0, 0),
        (1, 0, 0),
        (5, 0, 0),
        (1, 0, 0),
        (3, 0, 0),
        (5, 0, 0),
        (1, 0, 0),
    ]);
    let node = BvhNode::from_mesh(&mesh, &|lo: i64, hi: i64| hi - lo);
    let mut found = Vec::new();
    leaves(&node, &mut found);
    assert_eq!(found, vec![vec![1, 3, 6], vec![4, 0, 2, 5]]);
}

#[test]
fn deep_hierarchy_holds_every_face_once() {
    let count = 100usize;
    let mesh = flat_mesh((0..count as i64).map(|i| ((i * 37) % 101, (i * 11) % 7, i % 3)).collect());
    let node = BvhNode::from_mesh(&mesh, &|lo: i64, hi: i64| hi - lo);
    let mut found = Vec::new();
    leaves(&node, &mut found);
    let mut all: Vec<usize> = Vec::new();
    for leaf in &found {
        assert!(!leaf.is_empty() && leaf.len() <= 5);
        all.extend(leaf);
    }
    all.sort();
    assert_eq!(all, (0..count).collect::<Vec<usize>>());
    assert_eq!(node.candidates(&|_: Aabb| true).len(), count);
}

#[test]
fn walk_enters_only_the_boxes_that_are_hit() {
    let mesh = strip(12);
    let both = fulleffect::bvh::BvhMesh::new(mesh, &|lo: i64, hi: i64| hi - lo);
    assert_eq!(both.candidates(&|_: Aabb| true), vec![11, 10, 9, 8, 7, 6, 5, 4, 3, 2, 1, 0]);
    assert_eq!(both.candidates(&|_: Aabb| false), Vec::<usize>::new());
    let left_of_60 = |b: Aabb| b.min.x < 60;
    assert_eq!(both.candidates(&left_of_60), vec![11, 10, 9, 8, 7, 6]);
    let around_100 = |b: Aabb| b.min.x <= 100 && 100 <= b.max.x;
    assert_eq!(both.candidates(&around_100), vec![2, 1, 0]);
    let around_75 = |b: Aabb| b.min.x <= 75 && 75 <= b.max.x;
    assert_eq!(both.candidates(&around_75), vec![5, 4, 3]);
}

fn ordinal(v: f64) -> i64 {
    let bits = (v + 0.0).to_bits() as i64;
    if bits < 0 {
        bits ^ i64::MAX
    } else {
        bits
    }
}

fn value(k: i64) -> f64 {
    let bits = if k < 0 { k ^ i64::MAX } else { k };
    f64::from_bits(bits as u64)
}

struct Lcg(u64);

impl Lcg {
    fn next(&mut self) -> f64 {
        self.0 = self.0.wrapping_mul(6364136223846793005).wrapping_add(1442695040888963407);
        (self.0 >> 11) as f64 / (1u64 << 53) as f64
    }
}

type V3 = [f64; 3];

fn sub(a: V3, b: V3) -> V3 {
    [a[0] - b[0], a[1] - b[1], a[2] - b[2]]
}

fn det(a: V3, b: V3, c: V3) -> f64 {
    a[0] * b[1] * c[2] + a[1] * b[2] * c[0] + a[2] * b[0] * c[1]
        - a[0] * b[2] * c[1]
        - a[1] * b[0] * c[2]
        - a[2] * b[1] * c[0]
}

fn hit_triangle(t: [V3; 3], origin: V3, direction: V3, nearest: &mut f64) -> bool {
    let inv = [-direction[0], -direction[1], -direction[2]];
    let e1 = sub(t[1], t[0]);
    let e2 = sub(t[2], t[0]);
    let denominator = det(e1, e2, inv);
    if denominator == 0.0 {
        return false;
    }
    let d = sub(origin, t[0]);
    let u = det(d, e2, inv) / denominator;
    if u < 0.0 || u > 1.0 {
        return false;
    }
    let v = det(e1, d, inv) / denominator;
    if v < 0.0 || u + v > 1.0 {
        return false;
    }
    let distance = det(e1, e2, d) / denominator;
    if distance < 0.0 || distance > *nearest {
        return false;
    }
    *nearest = distance;
    true
}

fn hit_box(b: &Aabb, origin: V3, direction: V3) -> bool {
    let lo = [value(b.min.x), value(b.min.y), value(b.min.z)];
    let hi = [value(b.max.x), value(b.max.y), value(b.max.z)];
    let time = |bound: f64, k: usize| -> Option<i64> {
        let t = (bound - origin[k]) * (1.0 / direction[k]);
        if t.is_nan() {
            None
        } else {
            Some(ordinal(t))
        }
    };
    let times = SlabTimes {
        x0: time(lo[0], 0),
        x1: time(hi[0], 0),
        y0: time(lo[1], 1),
        y1: time(hi[1], 1),
        z0: time(lo[2], 2),
        z1: time(hi[2], 2),
    };
    times.intersect(ordinal(0.0)).0
}

#[test]
fn rays_along_an_axis_meet_the_box_they_point_at() {
    let unit = Aabb {
        min: Point3::new(ordinal(0.0), ordinal(0.0), ordinal(0.0)),
        max: Point3::new(ordinal(1.0), ordinal(1.0), ordinal(1.0)),
    };
    assert!(hit_box(&unit, [0.5, 0.5, -3.0], [0.0, 0.0, 1.0]));
    assert!(!hit_box(&unit, [0.5, 0.5, -3.0], [0.0, 0.0, -1.0]));
    assert!(!hit_box(&unit, [1.5, 0.5, -3.0], [0.0, 0.0, 1.0]));
    assert!(hit_box(&unit, [0.5, 0.5, 0.5], [0.0, 1.0, 0.0]));
    assert!(hit_box(&unit, [0.5, 0.5, 0.5], [-0.3, 0.2, 0.9]));
    assert!(hit_box(&unit, [-1.0, -1.0, -1.0], [1.0, 1.0, 1.0]));
    assert!(!hit_box(&unit, [-1.0, -1.0, -1.0], [1.0, 1.0, -1.0]));
}

#[test]
fn ordinals_keep_the_order_of_the_numbers() {
    let numbers = [f64::NEG_INFINITY, -1e300, -2.5, -1e-300, 0.0, 1e-300, 0.1, 3.0, 1e300, f64::INFINITY];
    for pair in numbers.windows(2) {
        assert!(ordinal(pair[0]) < ordinal(pair[1]));
    }
    for &n in &numbers {
        assert_eq!(value(ordinal(n)), n);
    }
    assert_eq!(ordinal(-0.0), ordinal(0.0));
}

#[test]
fn walk_finds_what_testing_every_triangle_finds() {
    let mut random = Lcg(20240229);
    let count = 1000usize;
    let mut triangles: Vec<[V3; 3]> = Vec::new();
    let mut vertexes = Vec::new();
    let mut faces = Vec::new();
    let mut centroids = Vec::new();
    for i in 0..count {
        let c = [random.next() * 20.0 - 10.0, random.next() * 20.0 - 10.0, random.next() * 20.0 - 10.0];
        let mut t = [[0.0; 3]; 3];
        for corner in t.iter_mut() {
            for k in 0..3 {
                corner[k] = c[k] + random.next() * 2.0 - 1.0;
            }
            vertexes.push(Point3::new(ordinal(corner[0]), ordinal(corner[1]), ordinal(corner[2])));
        }
        faces.push(Face { v0: 3 * i, v1: 3 * i + 1, v2: 3 * i + 2 });
        centroids.push(Point3::new(
            ordinal(t[0][0] + t[1][0] + t[2][0]),
            ordinal(t[0][1] + t[1][1] + t[2][1]),
            ordinal(t[0][2] + t[1][2] + t[2][2]),
        ));
        triangles.push(t);
    }
    let mesh = Mesh::new(vertexes, faces, centroids).unwrap();
    let extent = |lo: i64, hi: i64| ordinal(value(hi) - value(lo));
    let node = BvhNode::from_mesh(&mesh, &extent);

    let mut hits = 0;
    for _ in 0..10000 {
        let origin = [random.next() * 40.0 - 20.0, random.next() * 40.0 - 20.0, random.next() * 40.0 - 20.0];
        let target = [random.next() * 20.0 - 10.0, random.next() * 20.0 - 10.0, random.next() * 20.0 - 10.0];
        let d = sub(target, origin);
        let length = (d[0] * d[0] + d[1] * d[1] + d[2] * d[2]).sqrt();
        let direction = [d[0] / length, d[1] / length, d[2] / length];

        let mut brute = f64::INFINITY;
        let mut brute_hit = false;
        for t in &triangles {
            if hit_triangle(*t, origin, direction, &mut brute) {
                brute_hit = true;
            }
        }

        let candidates = node.candidates(&|b: Aabb| hit_box(&b, origin, direction));
        let times: Vec<Option<i64>> = candidates
            .iter()
            .map(|&face| {
                let mut t = f64::INFINITY;
                if hit_triangle(triangles[face], origin, direction, &mut t) {
                    Some(ordinal(t))
                } else {
                    None
                }
            })
            .collect();
        let winner = nearest(&times);
        let walked_hit = winner.is_some();
        let walked = winner.map_or(f64::INFINITY, |w| value(times[w].unwrap()));

        assert_eq!(brute_hit, walked_hit);
        if brute_hit {
            assert!((brute - walked).abs() <= 1e-10);
            hits += 1;
        }
    }
    assert!(hits > 100);
}

#[test]
fn box_around_some_faces() {
    let mesh = strip(6);
    assert_eq!(
        mesh.bounds(&vec![0, 5]),
        Aabb { min: Point3::new(10, 0, 0), max: Point3::new(62, 1, 1) }
    );
    assert_eq!(
        mesh.bounds(&vec![3]),
        Aabb { min: Point3::new(30, 0, 0), max: Point3::new(32, 1, 1) }
    );
    assert_eq!(mesh.bounds(&vec![]), Aabb::empty());
}

#[test]
fn hierarchy_over_some_faces() {
    let mesh = strip(9);
    let node = node_from_mesh_with_indexes(&mesh, vec![4, 2, 0], &|lo: i64, hi: i64| hi - lo);
    match node {
        BvhNode::Leaf { aabb, indexes } => {
            assert_eq!(indexes, vec![4, 2, 0]);
            assert_eq!(aabb, Aabb { min: Point3::new(50, 0, 0), max: Point3::new(92, 1, 1) });
        }
        BvhNode::Interior { .. } => panic!("a leaf was expected"),
    }
    let node =
        node_from_mesh_with_indexes(&mesh, vec![8, 0, 7, 1, 6, 2, 5], &|lo: i64, hi: i64| hi - lo);
    let mut found = Vec::new();
    leaves(&node, &mut found);
    assert_eq!(found, vec![vec![8, 7, 6], vec![5, 2, 1, 0]]);
}
