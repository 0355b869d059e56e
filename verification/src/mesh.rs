use vstd::prelude::*;
use crate::aabb::Aabb;
use crate::point::Point3;

verus! {

/// Three points of space.
#[derive(Clone, Copy, Debug, PartialEq, Eq, Structural)]
pub struct Triangle {
    pub v0: Point3,
    pub v1: Point3,
    pub v2: Point3,
}

/// A triangle of a mesh, given by the positions of its corners in the mesh's
/// vertex array.
#[derive(Clone, Copy, Debug, PartialEq, Eq, Structural)]
pub struct Face {
    pub v0: usize,
    pub v1: usize,
    pub v2: usize,
}

impl Face {
    /// All three corners name a vertex of an array of `vertex_count` vertices.
    pub open spec fn in_bounds(self, vertex_count: nat) -> bool {
        self.v0 < vertex_count && self.v1 < vertex_count && self.v2 < vertex_count
    }
}

/// The geometry of a triangle mesh.
///
/// `centroids` holds one point per face: along each axis, the ordinal of the
/// sum of that coordinate over the face's three corners. Faces are ordered by
/// it when a bounding-volume hierarchy is built.
pub struct Mesh {
    pub vertexes: Vec<Point3>,
    pub faces: Vec<Face>,
    pub centroids: Vec<Point3>,
}

impl Mesh {
    /// Every face names three vertices of the mesh, and every face has its
    /// centroid.
    pub open spec fn wf(&self) -> bool {
        &&& self.centroids@.len() == self.faces@.len()
        &&& forall|i: int|
            0 <= i < self.faces@.len() ==> (#[trigger] self.faces@[i]).in_bounds(
                self.vertexes@.len(),
            )
    }

    /// The corners of face `i`.
    pub open spec fn triangle(&self, i: int) -> Triangle {
        Triangle {
            v0: self.vertexes@[self.faces@[i].v0 as int],
            v1: self.vertexes@[self.faces@[i].v1 as int],
            v2: self.vertexes@[self.faces@[i].v2 as int],
        }
    }

    /// The bounding box of face `i`.
    pub open spec fn face_box(&self, i: int) -> Aabb {
        Aabb::of_triangle(self.triangle(i))
    }

    /// The smallest box that contains the faces listed in `indexes`; the empty
    /// box when none is listed.
    pub open spec fn bounds_of(&self, indexes: Seq<usize>) -> Aabb
        decreases indexes.len(),
    {
        if indexes.len() == 0 {
            Aabb::empty_spec()
        } else {
            self.bounds_of(indexes.drop_last()).union(self.face_box(indexes.last() as int))
        }
    }

    /// Every entry of `indexes` names a face of the mesh.
    pub open spec fn lists_faces(&self, indexes: Seq<usize>) -> bool {
        forall|i: int| 0 <= i < indexes.len() ==> (#[trigger] indexes[i]) < self.faces@.len()
    }

    /// Builds a mesh from its parts when they fit together, and gives `None`
    /// when a face names a missing vertex or the centroids do not match the
    /// faces in number.
    pub fn new(vertexes: Vec<Point3>, faces: Vec<Face>, centroids: Vec<Point3>) -> (mesh: Option<
        Mesh,
    >)
        ensures
            mesh is Some <==> (Mesh { vertexes, faces, centroids }).wf(),
            mesh is Some ==> mesh->0.vertexes == vertexes && mesh->0.faces == faces
                && mesh->0.centroids == centroids,
    {
        if centroids.len() != faces.len() {
            return None;
        }
        let count: usize = vertexes.len();
        let mut i: usize = 0;
        while i < faces.len()
            invariant
                i <= faces@.len(),
                count == vertexes@.len(),
                forall|k: int| 0 <= k < i ==> (#[trigger] faces@[k]).in_bounds(count as nat),
            decreases faces@.len() - i,
        {
            let face = &faces[i];
            if face.v0 >= count || face.v1 >= count || face.v2 >= count {
                assert(!faces@[i as int].in_bounds(count as nat));
                return None;
            }
            i += 1;
        }
        Some(Mesh { vertexes, faces, centroids })
    }

    /// The corners of one face.
    pub fn triangle_at(&self, face_index: usize) -> (t: Triangle)
        requires
            self.wf(),
            face_index < self.faces@.len(),
        ensures
            t == self.triangle(face_index as int),
    {
        let face = &self.faces[face_index];
        assert(self.faces@[face_index as int].in_bounds(self.vertexes@.len()));
        Triangle {
            v0: self.vertexes[face.v0],
            v1: self.vertexes[face.v1],
            v2: self.vertexes[face.v2],
        }
    }

    /// The smallest box around the listed faces.
    pub fn bounds(&self, face_indexes: &Vec<usize>) -> (b: Aabb)
        requires
            self.wf(),
            self.lists_faces(face_indexes@),
        ensures
            b == self.bounds_of(face_indexes@),
    {
        let mut b = Aabb::empty();
        let mut i: usize = 0;
        while i < face_indexes.len()
            invariant
                self.wf(),
                self.lists_faces(face_indexes@),
                i <= face_indexes@.len(),
                b == self.bounds_of(face_indexes@.subrange(0, i as int)),
            decreases face_indexes@.len() - i,
        {
            let face_index = face_indexes[i];
            let face_box = Aabb::from(self.triangle_at(face_index));
            proof {
                let next = face_indexes@.subrange(0, i + 1);
                assert(next.drop_last() =~= face_indexes@.subrange(0, i as int));
                assert(next.last() == face_index);
            }
            b = b.merged(&face_box);
            i += 1;
        }
        assert(face_indexes@.subrange(0, i as int) =~= face_indexes@);
        b
    }
}

} // verus!
