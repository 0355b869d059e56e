use vstd::prelude::*;
use crate::point::{choose_axis, longest_axis, Axis};
use crate::rayintersectable::PrimitiveKind;

verus! {

/// What the choice of light sources reads of one element of a scene.
#[derive(Clone, Copy, Debug, PartialEq, Eq, Structural)]
pub struct ElementInfo {
    pub kind: PrimitiveKind,
    /// Whether the element gives off light anywhere.
    pub emissive: bool,
}

impl ElementInfo {
    /// The element is sampled as a light source: it gives off light, and
    /// points can be drawn on its surface.
    pub open spec fn is_light(self) -> bool {
        self.emissive && self.kind.samples_surface()
    }
}

/// `lights` lists, in rising order, the positions of exactly those of the
/// first `count` elements that are light sources.
pub open spec fn lists_lights(lights: Seq<usize>, elements: Seq<ElementInfo>, count: int) -> bool {
    &&& forall|k: int|
        0 <= k < lights.len() ==> (#[trigger] lights[k]) < count && elements[lights[k] as int].is_light()
    &&& forall|j: int, k: int| 0 <= j < k < lights.len() ==> lights[j] < lights[k]
    &&& forall|i: int|
        0 <= i < count && (#[trigger] elements[i]).is_light() ==> lights.contains(i as usize)
}

/// Picks the elements of a scene that are sampled as light sources.
pub fn emissions(elements: &Vec<ElementInfo>) -> (lights: Vec<usize>)
    ensures
        lists_lights(lights@, elements@, elements@.len() as int),
{
    let mut lights: Vec<usize> = Vec::new();
    let mut i: usize = 0;
    while i < elements.len()
        invariant
            i <= elements@.len(),
            lists_lights(lights@, elements@, i as int),
        decreases elements@.len() - i,
    {
        let ghost before = lights@;
        if elements[i].emissive && elements[i].kind.nee_available() {
            lights.push(i);
            proof {
                assert(lights@[before.len() as int] == i);
                assert forall|j: int|
                    0 <= j < i + 1 && (#[trigger] elements@[j]).is_light() implies lights@.contains(
                    j as usize,
                ) by {
                    if j < i {
                        let at = choose|at: int| 0 <= at < before.len() && before[at] == j as usize;
                        assert(lights@[at] == j as usize);
                    }
                }
            }
        }
        i += 1;
    }
    lights
}

/// `winner` is the nearest of the hits: the first element, in the order of
/// the scene, whose distance no other element's distance is smaller than.
/// An element that is not hit has no distance. Distances are ordinals.
pub open spec fn is_nearest(distances: Seq<Option<i64>>, winner: int) -> bool {
    &&& 0 <= winner < distances.len()
    &&& distances[winner] is Some
    &&& forall|i: int|
        0 <= i < distances.len() && (#[trigger] distances[i]) is Some ==> distances[winner]->0
            <= distances[i]->0
    &&& forall|i: int|
        0 <= i < winner && (#[trigger] distances[i]) is Some ==> distances[winner]->0
            < distances[i]->0
}

/// No element is hit.
pub open spec fn all_missed(distances: Seq<Option<i64>>) -> bool {
    forall|i: int| 0 <= i < distances.len() ==> (#[trigger] distances[i]) is None
}

/// Picks the element of a scene that a ray meets first, given for each element
/// the distance at which the ray meets it. An element takes over only where it
/// is strictly nearer than what was found before it.
pub fn nearest(distances: &Vec<Option<i64>>) -> (winner: Option<usize>)
    ensures
        match winner {
            Some(w) => is_nearest(distances@, w as int),
            None => all_missed(distances@),
        },
{
    let mut winner: Option<usize> = None;
    let mut best: i64 = 0;
    let mut i: usize = 0;
    while i < distances.len()
        invariant
            i <= distances@.len(),
            match winner {
                Some(w) => is_nearest(distances@.subrange(0, i as int), w as int) && best
                    == distances@[w as int]->0,
                None => all_missed(distances@.subrange(0, i as int)),
            },
        decreases distances@.len() - i,
    {
        let ghost seen = distances@.subrange(0, i as int);
        let ghost next = distances@.subrange(0, i + 1);
        proof {
            assert forall|k: int| 0 <= k < i implies next[k] == seen[k] by {}
            assert(next[i as int] == distances@[i as int]);
        }
        match distances[i] {
            Some(d) => {
                let takes_over = match winner {
                    Some(_) => d < best,
                    None => true,
                };
                if takes_over {
                    winner = Some(i);
                    best = d;
                }
            },
            None => {},
        }
        i += 1;
    }
    proof {
        assert(distances@.subrange(0, i as int) =~= distances@);
    }
    winner
}

/// The distance of the nearest hit does not depend on the order of the
/// elements: in whatever order two scenes list the same hits, their winners
/// are equally far.
pub proof fn lemma_nearest_distance(
    one: Seq<Option<i64>>,
    other: Seq<Option<i64>>,
    w1: int,
    w2: int,
)
    requires
        is_nearest(one, w1),
        is_nearest(other, w2),
        one.to_multiset() == other.to_multiset(),
    ensures
        one[w1] == other[w2],
{
    vstd::seq_lib::to_multiset_contains(one, one[w1]);
    vstd::seq_lib::to_multiset_contains(other, one[w1]);
    vstd::seq_lib::to_multiset_contains(one, other[w2]);
    vstd::seq_lib::to_multiset_contains(other, other[w2]);
    assert(one.contains(one[w1]));
    assert(other.contains(other[w2]));
    let j = choose|j: int| 0 <= j < other.len() && other[j] == one[w1];
    let k = choose|k: int| 0 <= k < one.len() && one[k] == other[w2];
    assert(other[j] is Some);
    assert(one[k] is Some);
}

/// The six faces of the cube of textures that surrounds a scene, named by
/// the direction in which each is seen from the middle.
#[derive(Clone, Copy, Debug, PartialEq, Eq, Structural)]
pub enum SkyFace {
    PositiveX,
    NegativeX,
    PositiveY,
    NegativeY,
    PositiveZ,
    NegativeZ,
}

/// The face that a direction looks at: the one across the axis of its largest
/// component, on the side that the component points to. `ax`, `ay` and `az`
/// are the ordinals of the sizes of the three components.
pub open spec fn sky_face_of(
    ax: i64,
    ay: i64,
    az: i64,
    x_positive: bool,
    y_positive: bool,
    z_positive: bool,
) -> SkyFace {
    match longest_axis(ax, ay, az) {
        Axis::X => if x_positive {
            SkyFace::PositiveX
        } else {
            SkyFace::NegativeX
        },
        Axis::Y => if y_positive {
            SkyFace::PositiveY
        } else {
            SkyFace::NegativeY
        },
        Axis::Z => if z_positive {
            SkyFace::PositiveZ
        } else {
            SkyFace::NegativeZ
        },
    }
}

/// Finds the face of the surrounding cube that a direction looks at.
pub fn sky_face(
    ax: i64,
    ay: i64,
    az: i64,
    x_positive: bool,
    y_positive: bool,
    z_positive: bool,
) -> (face: SkyFace)
    ensures
        face == sky_face_of(ax, ay, az, x_positive, y_positive, z_positive),
{
    match choose_axis(ax, ay, az) {
        Axis::X => if x_positive {
            SkyFace::PositiveX
        } else {
            SkyFace::NegativeX
        },
        Axis::Y => if y_positive {
            SkyFace::PositiveY
        } else {
            SkyFace::NegativeY
        },
        Axis::Z => if z_positive {
            SkyFace::PositiveZ
        } else {
            SkyFace::NegativeZ
        },
    }
}

} // verus!
