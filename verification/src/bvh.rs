use vstd::prelude::*;
use crate::aabb::Aabb;
use crate::mesh::Mesh;
use crate::point::{choose_axis, longest_axis, Axis};
use crate::sorting::{sort_by_centroid, stably_sorted};

verus! {

/// A face list of at most this many entries, doubled and one more, is kept
/// whole in a leaf: a list is split only when its half holds more than this.
pub const LEAF_HALF: usize = 2;

/// `ex`, `ey` and `ez` are what `extent` may return for the three sides of
/// `aabb`.
pub open spec fn extents_of<F: Fn(i64, i64) -> i64>(
    extent: &F,
    aabb: Aabb,
    ex: i64,
    ey: i64,
    ez: i64,
) -> bool {
    &&& extent.ensures((aabb.min.x, aabb.max.x), ex)
    &&& extent.ensures((aabb.min.y, aabb.max.y), ey)
    &&& extent.ensures((aabb.min.z, aabb.max.z), ez)
}

/// A node of a bounding-volume hierarchy over the faces of a mesh.
///
/// A leaf lists faces; an interior node has exactly two children and lists
/// none itself.
pub enum BvhNode {
    Leaf { aabb: Aabb, indexes: Vec<usize> },
    Interior { aabb: Aabb, axis: Axis, left: Box<BvhNode>, right: Box<BvhNode> },
}

/// What a [`BvhNode`] holds.
pub enum BvhTree {
    Leaf { aabb: Aabb, indexes: Seq<usize> },
    Interior { aabb: Aabb, axis: Axis, left: Box<BvhTree>, right: Box<BvhTree> },
}

impl View for BvhNode {
    type V = BvhTree;

    open spec fn view(&self) -> BvhTree {
        self.tree()
    }
}

/// `extent` gives one length only for each pair of ends.
pub open spec fn measures<F: Fn(i64, i64) -> i64>(extent: &F) -> bool {
    forall|lo: i64, hi: i64, a: i64, b: i64|
        #![trigger extent.ensures((lo, hi), a), extent.ensures((lo, hi), b)]
        extent.ensures((lo, hi), a) && extent.ensures((lo, hi), b) ==> a == b
}

impl BvhNode {
    /// What this node and the nodes below it hold.
    pub open spec fn tree(&self) -> BvhTree
        decreases self,
    {
        match self {
            BvhNode::Leaf { aabb, indexes } => BvhTree::Leaf { aabb: *aabb, indexes: indexes@ },
            BvhNode::Interior { aabb, axis, left, right } => BvhTree::Interior {
                aabb: *aabb,
                axis: *axis,
                left: Box::new(left.tree()),
                right: Box::new(right.tree()),
            },
        }
    }

    /// The box of this node.
    pub open spec fn aabb(&self) -> Aabb {
        match self {
            BvhNode::Leaf { aabb, .. } => *aabb,
            BvhNode::Interior { aabb, .. } => *aabb,
        }
    }

    /// The faces below this node, leaf by leaf from left to right.
    pub open spec fn faces(&self) -> Seq<usize>
        decreases self,
    {
        match self {
            BvhNode::Leaf { indexes, .. } => indexes@,
            BvhNode::Interior { left, right, .. } => left.faces() + right.faces(),
        }
    }

    /// This node is the hierarchy over the faces `indexes` of `mesh`.
    ///
    /// Its box is the smallest around those faces. A list whose half holds at
    /// most [`LEAF_HALF`] entries is a leaf. A longer one is put in the order of
    /// the centroids along the longest axis of the box, which `extent` measures,
    /// and cut in the middle: the first half makes the left child, the rest the
    /// right child.
    pub open spec fn built<F: Fn(i64, i64) -> i64>(
        &self,
        mesh: &Mesh,
        indexes: Seq<usize>,
        extent: &F,
    ) -> bool
        decreases self,
    {
        &&& self.aabb() == mesh.bounds_of(indexes)
        &&& match self {
            BvhNode::Leaf { indexes: own, .. } => indexes.len() / 2 <= LEAF_HALF && own@
                == indexes,
            BvhNode::Interior { aabb, axis, left, right } => {
                &&& indexes.len() / 2 > LEAF_HALF
                &&& exists|ex: i64, ey: i64, ez: i64| #[trigger]
                    extents_of(extent, *aabb, ex, ey, ez) && *axis == longest_axis(ex, ey, ez)
                &&& exists|sorted: Seq<usize>|
                    {
                        &&& #[trigger] stably_sorted(sorted, indexes, mesh.centroids@, *axis)
                        &&& left.built(
                            mesh,
                            sorted.subrange(0, (indexes.len() / 2) as int),
                            extent,
                        )
                        &&& right.built(
                            mesh,
                            sorted.subrange((indexes.len() / 2) as int, indexes.len() as int),
                            extent,
                        )
                    }
            },
        }
    }

    /// What holds of every hierarchy over a mesh: each listed face is a face
    /// of the mesh and lies in the box of every node above it, a leaf lists at
    /// least one face and at most five, and both children of an interior node
    /// are such hierarchies themselves.
    pub open spec fn wf(&self, mesh: &Mesh) -> bool
        decreases self,
    {
        &&& mesh.lists_faces(self.faces())
        &&& forall|i: int|
            0 <= i < self.faces().len() ==> self.aabb().contains(
                #[trigger] mesh.face_box(self.faces()[i] as int),
            )
        &&& match self {
            BvhNode::Leaf { indexes, .. } => 0 < indexes@.len() <= 2 * LEAF_HALF + 1,
            BvhNode::Interior { aabb, left, right, .. } => {
                &&& left.wf(mesh)
                &&& right.wf(mesh)
                &&& aabb.contains(left.aabb())
                &&& aabb.contains(right.aabb())
            },
        }
    }

    /// `out` lists the faces that a walk through this hierarchy may come to,
    /// when `hit` says of each box whether the walk enters it.
    ///
    /// A node whose box is not entered gives nothing. A leaf that is entered
    /// gives its faces in their order; an interior node that is entered gives
    /// what its left child gives and then what its right child gives.
    pub open spec fn visited<F: Fn(Aabb) -> bool>(&self, hit: &F, out: Seq<usize>) -> bool
        decreases self,
    {
        ||| hit.ensures((self.aabb(),), false) && out.len() == 0
        ||| hit.ensures((self.aabb(),), true) && match self {
            BvhNode::Leaf { indexes, .. } => out == indexes@,
            BvhNode::Interior { left, right, .. } => exists|first: Seq<usize>, second: Seq<usize>|
                {
                    &&& #[trigger] joined(first, second, out)
                    &&& left.visited(hit, first)
                    &&& right.visited(hit, second)
                },
        }
    }

    /// The hierarchy over no face at all: a leaf with the empty box.
    pub fn empty() -> (node: BvhNode)
        ensures
            node is Leaf,
            node.aabb() == Aabb::empty_spec(),
            node.faces().len() == 0,
    {
        BvhNode::Leaf { aabb: Aabb::empty(), indexes: Vec::new() }
    }

    /// The box of this node.
    pub fn bounding_box(&self) -> (b: Aabb)
        ensures
            b == self.aabb(),
    {
        match self {
            BvhNode::Leaf { aabb, .. } => *aabb,
            BvhNode::Interior { aabb, .. } => *aabb,
        }
    }

    /// Builds the hierarchy over all faces of `mesh`.
    ///
    /// `extent` measures a side of a box: from the ordinals of its two ends it
    /// gives the ordinal of their distance. It is asked only for ends in order.
    pub fn from_mesh<F: Fn(i64, i64) -> i64>(mesh: &Mesh, extent: &F) -> (node: BvhNode)
        requires
            mesh.wf(),
            forall|lo: i64, hi: i64| lo <= hi ==> extent.requires((lo, hi)),
        ensures
            node.built(mesh, all_faces(mesh.faces@.len()), extent),
            mesh.faces@.len() > 0 ==> node.wf(mesh),
            forall|f: usize|
                #[trigger] node.faces().to_multiset().count(f) == if f < mesh.faces@.len() {
                    1nat
                } else {
                    0nat
                },
    {
        let count: usize = mesh.faces.len();
        let mut face_indexes: Vec<usize> = Vec::new();
        let mut i: usize = 0;
        while i < count
            invariant
                i <= count,
                face_indexes@ == all_faces(i as nat),
            decreases count - i,
        {
            face_indexes.push(i);
            assert(face_indexes@ =~= all_faces((i + 1) as nat));
            i += 1;
        }
        let node = node_from_mesh_with_indexes(mesh, face_indexes, extent);
        proof {
            let all = all_faces(count as nat);
            lemma_built_faces(&node, mesh, all, extent);
            if count > 0 {
                lemma_built_wf(&node, mesh, all, extent);
            }
            assert forall|f: usize|
                #[trigger] node.faces().to_multiset().count(f) == if f < count {
                    1nat
                } else {
                    0nat
                } by {
                lemma_all_faces_count(count as nat, f);
            }
        }
        node
    }

    /// Walks through the hierarchy and lists the faces of the leaves it comes
    /// to, in the order it comes to them. `hit` decides for each box whether
    /// the walk enters it; the children of a box that is not entered are not
    /// looked at.
    pub fn candidates<F: Fn(Aabb) -> bool>(&self, hit: &F) -> (out: Vec<usize>)
        requires
            forall|b: Aabb| hit.requires((b,)),
        ensures
            self.visited(hit, out@),
        decreases self,
    {
        match self {
            BvhNode::Leaf { aabb, indexes } => {
                let entered = hit(*aabb);
                assert(hit.ensures((self.aabb(),), entered));
                if entered {
                    let out = indexes.clone();
                    assert(out@ =~= indexes@);
                    out
                } else {
                    Vec::new()
                }
            },
            BvhNode::Interior { aabb, left, right, .. } => {
                let entered = hit(*aabb);
                assert(hit.ensures((self.aabb(),), entered));
                if entered {
                    let mut out = left.candidates(hit);
                    let mut rest = right.candidates(hit);
                    let ghost first = out@;
                    let ghost second = rest@;
                    out.append(&mut rest);
                    assert(joined(first, second, out@));
                    out
                } else {
                    Vec::new()
                }
            },
        }
    }
}

/// `out` is `first` followed by `second`.
pub open spec fn joined(first: Seq<usize>, second: Seq<usize>, out: Seq<usize>) -> bool {
    out == first + second
}

/// A mesh together with the hierarchy over its faces.
pub struct BvhMesh {
    pub mesh: Mesh,
    pub bvh: BvhNode,
}

impl BvhMesh {
    /// The mesh is well formed, the hierarchy holds each of its faces once,
    /// and, unless the mesh has no face, the hierarchy is well formed.
    pub open spec fn wf(&self) -> bool {
        &&& self.mesh.wf()
        &&& self.mesh.faces@.len() > 0 ==> self.bvh.wf(&self.mesh)
        &&& forall|f: usize|
            #[trigger] self.bvh.faces().to_multiset().count(f) == if f < self.mesh.faces@.len() {
                1nat
            } else {
                0nat
            }
    }

    /// Builds the hierarchy over the faces of `mesh` and keeps both.
    pub fn new<F: Fn(i64, i64) -> i64>(mesh: Mesh, extent: &F) -> (both: BvhMesh)
        requires
            mesh.wf(),
            forall|lo: i64, hi: i64| lo <= hi ==> extent.requires((lo, hi)),
        ensures
            both.mesh == mesh,
            both.bvh.built(&mesh, all_faces(mesh.faces@.len()), extent),
            both.wf(),
    {
        let bvh = BvhNode::from_mesh(&mesh, extent);
        BvhMesh { mesh, bvh }
    }

    /// Lists the faces that a walk through the hierarchy comes to.
    pub fn candidates<F: Fn(Aabb) -> bool>(&self, hit: &F) -> (out: Vec<usize>)
        requires
            forall|b: Aabb| hit.requires((b,)),
        ensures
            self.bvh.visited(hit, out@),
    {
        self.bvh.candidates(hit)
    }
}

/// The list of the first `count` face indexes, in rising order.
pub open spec fn all_faces(count: nat) -> Seq<usize> {
    Seq::new(count, |i: int| i as usize)
}

/// In the list of the first `count` face indexes each of them stands once.
pub proof fn lemma_all_faces_count(count: nat, f: usize)
    requires
        count <= usize::MAX,
    ensures
        all_faces(count).to_multiset().count(f) == if f < count {
            1nat
        } else {
            0nat
        },
    decreases count,
{
    if count == 0 {
        assert(all_faces(0) =~= Seq::<usize>::empty());
        assert(Seq::<usize>::empty().to_multiset() =~= vstd::multiset::Multiset::<usize>::empty()) by {
            vstd::seq_lib::to_multiset_len(Seq::<usize>::empty());
        }
    } else {
        let front = all_faces((count - 1) as nat);
        lemma_all_faces_count((count - 1) as nat, f);
        assert(all_faces(count) =~= front.push((count - 1) as usize));
        vstd::seq_lib::to_multiset_build(front, (count - 1) as usize);
    }
}

/// A list with the same entries as one that lists faces lists faces too.
proof fn lemma_permutation_lists_faces(mesh: &Mesh, a: Seq<usize>, b: Seq<usize>)
    requires
        mesh.lists_faces(a),
        a.to_multiset() == b.to_multiset(),
    ensures
        mesh.lists_faces(b),
{
    assert forall|i: int| 0 <= i < b.len() implies (#[trigger] b[i]) < mesh.faces@.len() by {
        assert(b.contains(b[i]));
        vstd::seq_lib::to_multiset_contains(a, b[i]);
        vstd::seq_lib::to_multiset_contains(b, b[i]);
        assert(a.contains(b[i]));
        let j = choose|j: int| 0 <= j < a.len() && a[j] == b[i];
        assert(a[j] < mesh.faces@.len());
    }
}

/// The box around a list of faces that is not empty is valid.
proof fn lemma_bounds_valid(mesh: &Mesh, indexes: Seq<usize>)
    requires
        indexes.len() > 0,
    ensures
        mesh.bounds_of(indexes).valid(),
{
    crate::aabb::lemma_triangle_box(mesh.triangle(indexes.last() as int));
    Aabb::lemma_union_valid(
        mesh.bounds_of(indexes.drop_last()),
        mesh.face_box(indexes.last() as int),
    );
}

/// Builds the hierarchy over the listed faces of `mesh`.
///
/// `extent` measures a side of a box: from the ordinals of its two ends it
/// gives the ordinal of their distance. It is asked only for ends in order.
pub fn node_from_mesh_with_indexes<F: Fn(i64, i64) -> i64>(
    mesh: &Mesh,
    face_indexes: Vec<usize>,
    extent: &F,
) -> (node: BvhNode)
    requires
        mesh.wf(),
        mesh.lists_faces(face_indexes@),
        forall|lo: i64, hi: i64| lo <= hi ==> extent.requires((lo, hi)),
    ensures
        node.built(mesh, face_indexes@, extent),
    decreases face_indexes@.len(),
{
    let aabb = mesh.bounds(&face_indexes);
    let mid: usize = face_indexes.len() / 2;
    if mid <= LEAF_HALF {
        BvhNode::Leaf { aabb, indexes: face_indexes }
    } else {
        proof {
            lemma_bounds_valid(mesh, face_indexes@);
        }
        let ex: i64 = extent(aabb.min.x, aabb.max.x);
        let ey: i64 = extent(aabb.min.y, aabb.max.y);
        let ez: i64 = extent(aabb.min.z, aabb.max.z);
        let axis = choose_axis(ex, ey, ez);
        let ghost given = face_indexes@;
        let mut first = face_indexes;
        sort_by_centroid(&mut first, &mesh.centroids, axis);
        let ghost sorted = first@;
        proof {
            lemma_permutation_lists_faces(mesh, given, sorted);
            vstd::seq_lib::to_multiset_len(given);
            vstd::seq_lib::to_multiset_len(sorted);
            assert(sorted.len() == given.len());
        }
        let second = first.split_off(mid);
        let left = node_from_mesh_with_indexes(mesh, first, extent);
        let right = node_from_mesh_with_indexes(mesh, second, extent);
        let node = BvhNode::Interior { aabb, axis, left: Box::new(left), right: Box::new(right) };
        proof {
            assert(extents_of(extent, aabb, ex, ey, ez));
            assert(stably_sorted(sorted, given, mesh.centroids@, axis));
            assert(node.aabb() == mesh.bounds_of(given));
            assert(left.built(mesh, sorted.subrange(0, (given.len() / 2) as int), extent));
            assert(right.built(
                mesh,
                sorted.subrange((given.len() / 2) as int, given.len() as int),
                extent,
            ));
        }
        node
    }
}

/// The box around a list of faces contains the box of each of them.
pub proof fn lemma_bounds_contain_face(mesh: &Mesh, indexes: Seq<usize>, i: int)
    requires
        0 <= i < indexes.len(),
    ensures
        mesh.bounds_of(indexes).contains(mesh.face_box(indexes[i] as int)),
    decreases indexes.len(),
{
    if i < indexes.len() - 1 {
        lemma_bounds_contain_face(mesh, indexes.drop_last(), i);
    }
}

/// The box around a list of faces lies in every box that contains the box of
/// each of them.
pub proof fn lemma_bounds_least(mesh: &Mesh, indexes: Seq<usize>, outer: Aabb)
    requires
        forall|i: int|
            0 <= i < indexes.len() ==> outer.contains(
                #[trigger] mesh.face_box(indexes[i] as int),
            ),
        indexes.len() > 0,
    ensures
        outer.contains(mesh.bounds_of(indexes)),
    decreases indexes.len(),
{
    let front = indexes.drop_last();
    let last_box = mesh.face_box(indexes.last() as int);
    assert(outer.contains(mesh.face_box(indexes[indexes.len() - 1] as int)));
    assert(mesh.bounds_of(indexes) == mesh.bounds_of(front).union(last_box));
    if front.len() == 0 {
        assert(mesh.bounds_of(front) == Aabb::empty_spec());
        Aabb::lemma_union_monoid(last_box, last_box, last_box);
    } else {
        assert forall|i: int| 0 <= i < front.len() implies outer.contains(
            #[trigger] mesh.face_box(front[i] as int),
        ) by {
            assert(front[i] == indexes[i]);
        }
        lemma_bounds_least(mesh, front, outer);
        Aabb::lemma_union_least(mesh.bounds_of(front), last_box, outer);
    }
}

/// A hierarchy over a list of faces holds exactly the faces of that list,
/// each as often as the list does.
pub proof fn lemma_built_faces<F: Fn(i64, i64) -> i64>(
    node: &BvhNode,
    mesh: &Mesh,
    indexes: Seq<usize>,
    extent: &F,
)
    requires
        node.built(mesh, indexes, extent),
    ensures
        node.faces().to_multiset() == indexes.to_multiset(),
    decreases node,
{
    match node {
        BvhNode::Leaf { .. } => {},
        BvhNode::Interior { axis, left, right, .. } => {
            let mid = (indexes.len() / 2) as int;
            let sorted = choose|sorted: Seq<usize>|
                {
                    &&& #[trigger] stably_sorted(sorted, indexes, mesh.centroids@, *axis)
                    &&& left.built(mesh, sorted.subrange(0, mid), extent)
                    &&& right.built(mesh, sorted.subrange(mid, indexes.len() as int), extent)
                };
            vstd::seq_lib::to_multiset_len(indexes);
            vstd::seq_lib::to_multiset_len(sorted);
            let first = sorted.subrange(0, mid);
            let second = sorted.subrange(mid, indexes.len() as int);
            lemma_built_faces(&**left, mesh, first, extent);
            lemma_built_faces(&**right, mesh, second, extent);
            vstd::seq_lib::lemma_multiset_commutative(left.faces(), right.faces());
            vstd::seq_lib::lemma_multiset_commutative(first, second);
            assert(first + second =~= sorted);
        },
    }
}

/// A hierarchy over a list of faces that is not empty is well formed.
pub proof fn lemma_built_wf<F: Fn(i64, i64) -> i64>(
    node: &BvhNode,
    mesh: &Mesh,
    indexes: Seq<usize>,
    extent: &F,
)
    requires
        node.built(mesh, indexes, extent),
        mesh.lists_faces(indexes),
        indexes.len() > 0,
    ensures
        node.wf(mesh),
    decreases node,
{
    lemma_built_faces(node, mesh, indexes, extent);
    lemma_permutation_lists_faces(mesh, indexes, node.faces());
    assert forall|i: int| 0 <= i < node.faces().len() implies node.aabb().contains(
        #[trigger] mesh.face_box(node.faces()[i] as int),
    ) by {
        let f = node.faces()[i];
        assert(node.faces().contains(f));
        vstd::seq_lib::to_multiset_contains(node.faces(), f);
        vstd::seq_lib::to_multiset_contains(indexes, f);
        let j = choose|j: int| 0 <= j < indexes.len() && indexes[j] == f;
        lemma_bounds_contain_face(mesh, indexes, j);
    }
    match node {
        BvhNode::Leaf { .. } => {},
        BvhNode::Interior { aabb, axis, left, right } => {
            let mid = (indexes.len() / 2) as int;
            let sorted = choose|sorted: Seq<usize>|
                {
                    &&& #[trigger] stably_sorted(sorted, indexes, mesh.centroids@, *axis)
                    &&& left.built(mesh, sorted.subrange(0, mid), extent)
                    &&& right.built(mesh, sorted.subrange(mid, indexes.len() as int), extent)
                };
            vstd::seq_lib::to_multiset_len(indexes);
            vstd::seq_lib::to_multiset_len(sorted);
            lemma_permutation_lists_faces(mesh, indexes, sorted);
            let first = sorted.subrange(0, mid);
            let second = sorted.subrange(mid, indexes.len() as int);
            lemma_built_wf(&**left, mesh, first, extent);
            lemma_built_wf(&**right, mesh, second, extent);
            assert forall|i: int| 0 <= i < first.len() implies aabb.contains(
                #[trigger] mesh.face_box(first[i] as int),
            ) by {
                lemma_in_list_in_bounds(mesh, indexes, sorted, i);
            }
            assert forall|i: int| 0 <= i < second.len() implies aabb.contains(
                #[trigger] mesh.face_box(second[i] as int),
            ) by {
                lemma_in_list_in_bounds(mesh, indexes, sorted, mid + i);
            }
            lemma_bounds_least(mesh, first, *aabb);
            lemma_bounds_least(mesh, second, *aabb);
        },
    }
}

/// The box around a list contains the box of every entry of a list with the
/// same entries.
proof fn lemma_in_list_in_bounds(mesh: &Mesh, indexes: Seq<usize>, other: Seq<usize>, i: int)
    requires
        other.to_multiset() == indexes.to_multiset(),
        0 <= i < other.len(),
    ensures
        mesh.bounds_of(indexes).contains(mesh.face_box(other[i] as int)),
{
    let f = other[i];
    assert(other.contains(f));
    vstd::seq_lib::to_multiset_contains(other, f);
    vstd::seq_lib::to_multiset_contains(indexes, f);
    let j = choose|j: int| 0 <= j < indexes.len() && indexes[j] == f;
    lemma_bounds_contain_face(mesh, indexes, j);
}

/// A walk lists no face that the hierarchy does not hold, and none more often
/// than the hierarchy holds it.
pub proof fn lemma_visited_within<F: Fn(Aabb) -> bool>(node: &BvhNode, hit: &F, out: Seq<usize>)
    requires
        node.visited(hit, out),
    ensures
        out.to_multiset().subset_of(node.faces().to_multiset()),
    decreases node,
{
    if out.len() == 0 {
        assert(out.to_multiset() =~= vstd::multiset::Multiset::<usize>::empty()) by {
            vstd::seq_lib::to_multiset_len(out);
        }
    } else {
        match node {
            BvhNode::Leaf { .. } => {},
            BvhNode::Interior { left, right, .. } => {
                let (first, second) = choose|first: Seq<usize>, second: Seq<usize>|
                    {
                        &&& #[trigger] joined(first, second, out)
                        &&& left.visited(hit, first)
                        &&& right.visited(hit, second)
                    };
                lemma_visited_within(&**left, hit, first);
                lemma_visited_within(&**right, hit, second);
                vstd::seq_lib::lemma_multiset_commutative(first, second);
                vstd::seq_lib::lemma_multiset_commutative(left.faces(), right.faces());
            },
        }
    }
}

/// A walk that enters every box lists all faces of the hierarchy, in their
/// order.
pub proof fn lemma_visited_all<F: Fn(Aabb) -> bool>(node: &BvhNode, hit: &F, out: Seq<usize>)
    requires
        node.visited(hit, out),
        forall|b: Aabb| !hit.ensures((b,), false),
    ensures
        out == node.faces(),
    decreases node,
{
    match node {
        BvhNode::Leaf { .. } => {},
        BvhNode::Interior { left, right, .. } => {
            let (first, second) = choose|first: Seq<usize>, second: Seq<usize>|
                {
                    &&& #[trigger] joined(first, second, out)
                    &&& left.visited(hit, first)
                    &&& right.visited(hit, second)
                };
            lemma_visited_all(&**left, hit, first);
            lemma_visited_all(&**right, hit, second);
        },
    }
}

/// A walk misses no face that it could reach: if `hit` lets the walk into
/// every box that contains the box of a face of a well-formed hierarchy,
/// the walk lists that face.
pub proof fn lemma_visited_complete<F: Fn(Aabb) -> bool>(
    node: &BvhNode,
    mesh: &Mesh,
    hit: &F,
    out: Seq<usize>,
    face: usize,
)
    requires
        node.wf(mesh),
        node.visited(hit, out),
        node.faces().contains(face),
        forall|b: Aabb| b.contains(mesh.face_box(face as int)) ==> !hit.ensures((b,), false),
    ensures
        out.contains(face),
    decreases node,
{
    let at = choose|at: int| 0 <= at < node.faces().len() && node.faces()[at] == face;
    assert(node.aabb().contains(mesh.face_box(node.faces()[at] as int)));
    assert(!hit.ensures((node.aabb(),), false));
    match node {
        BvhNode::Leaf { .. } => {},
        BvhNode::Interior { left, right, .. } => {
            let (first, second) = choose|first: Seq<usize>, second: Seq<usize>|
                {
                    &&& #[trigger] joined(first, second, out)
                    &&& left.visited(hit, first)
                    &&& right.visited(hit, second)
                };
            if at < left.faces().len() {
                assert(left.faces()[at] == face);
                lemma_visited_complete(&**left, mesh, hit, first, face);
                let k = choose|k: int| 0 <= k < first.len() && first[k] == face;
                assert(out[k] == face);
            } else {
                assert(right.faces()[at - left.faces().len()] == face);
                lemma_visited_complete(&**right, mesh, hit, second, face);
                let k = choose|k: int| 0 <= k < second.len() && second[k] == face;
                assert(out[first.len() + k] == face);
            }
        },
    }
}

/// The hierarchy over a list of faces is determined by the mesh and the list:
/// two hierarchies over the same list, built with a measure that gives one
/// length only for each side, hold the same.
pub proof fn lemma_built_unique<F: Fn(i64, i64) -> i64>(
    one: &BvhNode,
    other: &BvhNode,
    mesh: &Mesh,
    indexes: Seq<usize>,
    extent: &F,
)
    requires
        one.built(mesh, indexes, extent),
        other.built(mesh, indexes, extent),
        measures(extent),
    ensures
        one@ == other@,
    decreases one,
{
    match (one, other) {
        (
            BvhNode::Interior { aabb, axis, left, right },
            BvhNode::Interior { aabb: aabb2, axis: axis2, left: left2, right: right2 },
        ) => {
            let mid = (indexes.len() / 2) as int;
            let (ex, ey, ez) = choose|ex: i64, ey: i64, ez: i64| #[trigger]
                extents_of(extent, *aabb, ex, ey, ez) && *axis == longest_axis(ex, ey, ez);
            let (fx, fy, fz) = choose|fx: i64, fy: i64, fz: i64| #[trigger]
                extents_of(extent, *aabb2, fx, fy, fz) && *axis2 == longest_axis(fx, fy, fz);
            assert(ex == fx && ey == fy && ez == fz);
            let sorted = choose|sorted: Seq<usize>|
                {
                    &&& #[trigger] stably_sorted(sorted, indexes, mesh.centroids@, *axis)
                    &&& left.built(mesh, sorted.subrange(0, mid), extent)
                    &&& right.built(mesh, sorted.subrange(mid, indexes.len() as int), extent)
                };
            let sorted2 = choose|sorted: Seq<usize>|
                {
                    &&& #[trigger] stably_sorted(sorted, indexes, mesh.centroids@, *axis2)
                    &&& left2.built(mesh, sorted.subrange(0, mid), extent)
                    &&& right2.built(mesh, sorted.subrange(mid, indexes.len() as int), extent)
                };
            crate::sorting::lemma_stable_sort_unique(
                sorted,
                sorted2,
                indexes,
                mesh.centroids@,
                *axis,
            );
            lemma_built_unique(&**left, &**left2, mesh, sorted.subrange(0, mid), extent);
            lemma_built_unique(
                &**right,
                &**right2,
                mesh,
                sorted.subrange(mid, indexes.len() as int),
                extent,
            );
        },
        _ => {},
    }
}

/// `best` is the least of the parameters at which a ray meets the faces of
/// `list`, and none where it meets none of them. `time` gives for each face
/// the parameter at which the ray meets it, if it does.
pub open spec fn is_least_time(
    list: Seq<usize>,
    time: spec_fn(usize) -> Option<i64>,
    best: Option<i64>,
) -> bool {
    match best {
        None => forall|i: int| 0 <= i < list.len() ==> time(#[trigger] list[i]) is None,
        Some(t) => {
            &&& exists|i: int| 0 <= i < list.len() && time(#[trigger] list[i]) == Some(t)
            &&& forall|i: int|
                0 <= i < list.len() && time(#[trigger] list[i]) is Some ==> t <= time(
                    list[i],
                )->0
        },
    }
}

/// `hit` lets a walk into every box around a face that the ray meets.
pub open spec fn enters_where_met<F: Fn(Aabb) -> bool>(
    hit: &F,
    mesh: &Mesh,
    time: spec_fn(usize) -> Option<i64>,
) -> bool {
    forall|f: usize, b: Aabb|
        #![trigger time(f), b.contains(mesh.face_box(f as int))]
        time(f) is Some && b.contains(mesh.face_box(f as int)) ==> !hit.ensures((b,), false)
}

/// Two lists that hold the same faces among those that a ray meets have the
/// same least parameter.
proof fn lemma_least_time_same(
    one: Seq<usize>,
    other: Seq<usize>,
    time: spec_fn(usize) -> Option<i64>,
    best: Option<i64>,
)
    requires
        forall|i: int|
            0 <= i < one.len() && time(#[trigger] one[i]) is Some ==> other.contains(one[i]),
        forall|i: int|
            0 <= i < other.len() && time(#[trigger] other[i]) is Some ==> one.contains(other[i]),
        is_least_time(one, time, best),
    ensures
        is_least_time(other, time, best),
{
    match best {
        None => {
            assert forall|i: int| 0 <= i < other.len() implies time(#[trigger] other[i])
                is None by {
                if time(other[i]) is Some {
                    let k = choose|k: int| 0 <= k < one.len() && one[k] == other[i];
                    assert(time(one[k]) is None);
                }
            }
        },
        Some(t) => {
            let w = choose|w: int| 0 <= w < one.len() && time(#[trigger] one[w]) == Some(t);
            assert(other.contains(one[w]));
            let v = choose|v: int| 0 <= v < other.len() && other[v] == one[w];
            assert(time(other[v]) == Some(t));
            assert forall|i: int|
                0 <= i < other.len() && time(#[trigger] other[i]) is Some implies t <= time(
                other[i],
            )->0 by {
                let k = choose|k: int| 0 <= k < one.len() && one[k] == other[i];
                assert(time(one[k]) is Some);
            }
        },
    }
}

/// A walk finds the nearest face: where it is let into every box around a
/// face that the ray meets, the least parameter among the faces that the walk
/// lists is the least among all faces of the hierarchy.
pub proof fn lemma_walk_finds_nearest<F: Fn(Aabb) -> bool>(
    node: &BvhNode,
    mesh: &Mesh,
    hit: &F,
    out: Seq<usize>,
    time: spec_fn(usize) -> Option<i64>,
    best: Option<i64>,
)
    requires
        node.wf(mesh),
        node.visited(hit, out),
        enters_where_met(hit, mesh, time),
    ensures
        is_least_time(out, time, best) <==> is_least_time(node.faces(), time, best),
{
    let all = node.faces();
    lemma_visited_within(node, hit, out);
    assert forall|i: int| 0 <= i < out.len() implies all.contains(#[trigger] out[i]) by {
        assert(out.contains(out[i]));
        vstd::seq_lib::to_multiset_contains(out, out[i]);
        vstd::seq_lib::to_multiset_contains(all, out[i]);
        assert(out.to_multiset().count(out[i]) <= all.to_multiset().count(out[i]));
    }
    assert forall|i: int| 0 <= i < all.len() && time(#[trigger] all[i]) is Some implies out.contains(
        all[i],
    ) by {
        let face = all[i];
        assert(all.contains(face));
        assert forall|b: Aabb| b.contains(mesh.face_box(face as int)) implies !hit.ensures(
            (b,),
            false,
        ) by {
            assert(time(face) is Some && b.contains(mesh.face_box(face as int)));
        }
        lemma_visited_complete(node, mesh, hit, out, face);
    }
    if is_least_time(out, time, best) {
        lemma_least_time_same(out, all, time, best);
    }
    if is_least_time(all, time, best) {
        lemma_least_time_same(all, out, time, best);
    }
}

/// A walk through the hierarchy of a mesh finds what testing every face of
/// the mesh finds: where it is let into every box around a face that the ray
/// meets, the least parameter among the faces that the walk lists is the
/// least among all faces of the mesh, taken one after the other.
pub proof fn lemma_walk_equals_brute_force<F: Fn(Aabb) -> bool>(
    both: &BvhMesh,
    hit: &F,
    out: Seq<usize>,
    time: spec_fn(usize) -> Option<i64>,
    best: Option<i64>,
)
    requires
        both.wf(),
        both.bvh.visited(hit, out),
        enters_where_met(hit, &both.mesh, time),
    ensures
        is_least_time(out, time, best) <==> is_least_time(
            all_faces(both.mesh.faces@.len()),
            time,
            best,
        ),
{
    let count = both.mesh.faces@.len();
    let every = all_faces(count);
    let held = both.bvh.faces();
    assert forall|i: int| 0 <= i < held.len() implies every.contains(#[trigger] held[i]) by {
        let f = held[i];
        assert(held.contains(f));
        vstd::seq_lib::to_multiset_contains(held, f);
        assert(held.to_multiset().count(f) > 0);
        assert(f < count);
        assert(every[f as int] == f);
    }
    assert forall|i: int| 0 <= i < every.len() implies held.contains(#[trigger] every[i]) by {
        let f = every[i];
        assert(held.to_multiset().count(f) == 1);
        vstd::seq_lib::to_multiset_contains(held, f);
    }
    if count > 0 {
        lemma_walk_finds_nearest(&both.bvh, &both.mesh, hit, out, time, best);
        if is_least_time(held, time, best) {
            lemma_least_time_same(held, every, time, best);
        }
        if is_least_time(every, time, best) {
            lemma_least_time_same(every, held, time, best);
        }
    } else {
        vstd::seq_lib::to_multiset_len(held);
        assert(held.len() == 0) by {
            if held.len() > 0 {
                assert(held.contains(held[0]));
                vstd::seq_lib::to_multiset_contains(held, held[0]);
            }
        }
        lemma_visited_within(&both.bvh, hit, out);
        assert(out.len() == 0) by {
            if out.len() > 0 {
                assert(out.contains(out[0]));
                vstd::seq_lib::to_multiset_contains(out, out[0]);
                vstd::seq_lib::to_multiset_contains(held, out[0]);
                assert(out.to_multiset().count(out[0]) <= held.to_multiset().count(out[0]));
            }
        }
        assert(every.len() == 0);
    }
}

/// The distance of the winner that [`nearest`](crate::scene::nearest) picks
/// among the faces of a list is the least parameter of the list: `distances`
/// holds for each entry of `list` the parameter at which the ray meets it.
pub proof fn lemma_nearest_is_least(
    list: Seq<usize>,
    time: spec_fn(usize) -> Option<i64>,
    distances: Seq<Option<i64>>,
    winner: Option<usize>,
)
    requires
        distances.len() == list.len(),
        forall|i: int| 0 <= i < list.len() ==> #[trigger] distances[i] == time(list[i]),
        match winner {
            Some(w) => crate::scene::is_nearest(distances, w as int),
            None => crate::scene::all_missed(distances),
        },
    ensures
        is_least_time(
            list,
            time,
            match winner {
                Some(w) => distances[w as int],
                None => None,
            },
        ),
{
    match winner {
        Some(w) => {
            let t = distances[w as int]->0;
            assert(time(list[w as int]) == Some(t));
            assert forall|i: int|
                0 <= i < list.len() && time(#[trigger] list[i]) is Some implies t <= time(
                list[i],
            )->0 by {
                assert(distances[i] == time(list[i]));
            }
        },
        None => {
            assert forall|i: int| 0 <= i < list.len() implies time(#[trigger] list[i])
                is None by {
                assert(distances[i] == time(list[i]));
            }
        },
    }
}

} // verus!
