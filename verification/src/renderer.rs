use vstd::prelude::*;
use crate::config::{PATHTRACING_BOUNCE_LIMIT, SUPER_SAMPLING};

verus! {

/// What the debug renderer shows.
#[derive(Clone, Copy, Debug, PartialEq, Eq, Structural)]
pub enum DebugRenderMode {
    Shading,
    Normal,
    Depth,
    FocalPlane,
}

/// The first word of every pixel's seed.
pub const SEED_TAG: u64 = 8700304;

/// Factor of the horizontal coordinate in a pixel's seed.
pub const SEED_SCALE_X: i64 = 100870;

/// Factor of the vertical coordinate in a pixel's seed.
pub const SEED_SCALE_Y: i64 = 100304;

/// What is added to a coordinate before it is scaled for the seed.
pub const SEED_SHIFT: i64 = 4;

/// The number of pixels of an image.
pub open spec fn pixels(width: u32, height: u32) -> nat {
    (width as nat) * (height as nat)
}

/// The number of pixels of an image, where a `usize` can hold it.
pub fn pixel_count(width: u32, height: u32) -> (count: Option<usize>)
    ensures
        count == if pixels(width, height) <= usize::MAX {
            Some(pixels(width, height) as usize)
        } else {
            None::<usize>
        },
{
    assert(pixels(width, height) <= 0xffff_ffff * 0xffff_ffff) by (nonlinear_arith)
        requires
            pixels(width, height) == (width as nat) * (height as nat),
            width <= 0xffff_ffff,
            height <= 0xffff_ffff,
    ;
    let n: u64 = (width as u64) * (height as u64);
    if n > usize::MAX as u64 {
        None
    } else {
        Some(n as usize)
    }
}

/// The place of a pixel on the image plane: its column, counted from the left
/// edge, and its height, counted from the lower edge, so that the first row of
/// the buffer is the highest.
#[derive(Clone, Copy, Debug, PartialEq, Eq, Structural)]
pub struct FragCoord {
    pub x: u32,
    pub y: u32,
}

/// The place of the pixel that stands at `index` in a buffer that holds the
/// image row by row.
pub open spec fn frag_of(index: nat, width: u32, height: u32) -> FragCoord {
    FragCoord { x: (index % width as nat) as u32, y: (height - index / width as nat) as u32 }
}

/// Finds the place of the pixel at `index`.
pub fn frag_coord(index: usize, width: u32, height: u32) -> (frag: FragCoord)
    requires
        index < pixels(width, height),
    ensures
        frag == frag_of(index as nat, width, height),
        frag.x < width,
        1 <= frag.y <= height,
{
    assert(width > 0) by (nonlinear_arith)
        requires
            index < (width as nat) * (height as nat),
    ;
    let w: usize = width as usize;
    let row: usize = index / w;
    let x: usize = index % w;
    assert(row < height) by (nonlinear_arith)
        requires
            index < (width as nat) * (height as nat),
            row == index / w,
            w == width,
            w > 0,
    ;
    FragCoord { x: x as u32, y: height - row as u32 }
}

/// Two pixels of a buffer never share a place: every slot of the buffer
/// belongs to one pixel alone.
pub proof fn lemma_frag_injective(i: nat, j: nat, width: u32, height: u32)
    requires
        i < pixels(width, height),
        j < pixels(width, height),
        frag_of(i, width, height) == frag_of(j, width, height),
    ensures
        i == j,
{
    let w = width as nat;
    assert(w > 0) by (nonlinear_arith)
        requires
            i < w * (height as nat),
    ;
    assert(i / w < height && j / w < height) by (nonlinear_arith)
        requires
            i < w * (height as nat),
            j < w * (height as nat),
            w > 0,
    ;
    assert(i % w < w && j % w < w) by (nonlinear_arith)
        requires
            w > 0,
    ;
    assert(i == w * (i / w) + i % w && j == w * (j / w) + j % w) by (nonlinear_arith)
        requires
            w > 0,
    ;
}

/// A point of the image plane, as two fractions of one denominator. The
/// shorter side of the image reaches from -1 to 1.
#[derive(Clone, Copy, Debug, PartialEq, Eq, Structural)]
pub struct NormalizedCoord {
    pub x: i64,
    pub y: i64,
    pub denominator: i64,
}

impl NormalizedCoord {
    /// The point belongs to the grid of some pixel of an image: its
    /// denominator is positive and all three numbers are small enough for the
    /// arithmetic that is done on them.
    pub open spec fn bounded(self) -> bool {
        &&& 0 < self.denominator <= 0x2_0000_0000
        &&& -0x8_0000_0000 <= self.x <= 0x8_0000_0000
        &&& -0x8_0000_0000 <= self.y <= 0x8_0000_0000
    }
}

/// The shorter side of an image.
pub open spec fn short_side(width: u32, height: u32) -> int {
    if width <= height {
        width as int
    } else {
        height as int
    }
}

/// The point through which the camera ray of one cell of the sub-pixel grid
/// goes. Cell `(sx, sy)` of pixel `frag` lies at `frag + (sx, sy) / n - 1/2`,
/// `n` being the width of the grid; the point is twice that, less the size of
/// the image, over the shorter side of the image.
pub open spec fn normalized_of(frag: FragCoord, sx: u32, sy: u32, width: u32, height: u32)
    -> NormalizedCoord {
    let n = SUPER_SAMPLING as int;
    NormalizedCoord {
        x: (2 * n * frag.x + 2 * sx - n - n * width) as i64,
        y: (2 * n * frag.y + 2 * sy - n - n * height) as i64,
        denominator: (n * short_side(width, height)) as i64,
    }
}

/// Computes the point of one cell of the sub-pixel grid.
pub fn normalized_coord(frag: FragCoord, sx: u32, sy: u32, width: u32, height: u32) -> (nc:
    NormalizedCoord)
    requires
        sx < SUPER_SAMPLING,
        sy < SUPER_SAMPLING,
    ensures
        nc == normalized_of(frag, sx, sy, width, height),
        nc.x == 4 * frag.x + 2 * sx - 2 - 2 * width,
        nc.y == 4 * frag.y + 2 * sy - 2 - 2 * height,
        nc.denominator == 2 * short_side(width, height),
        frag.x < width && 1 <= frag.y <= height ==> nc.bounded(),
{
    let n: i64 = SUPER_SAMPLING as i64;
    let side: i64 = if width <= height {
        width as i64
    } else {
        height as i64
    };
    NormalizedCoord {
        x: 2 * n * (frag.x as i64) + 2 * (sx as i64) - n - n * (width as i64),
        y: 2 * n * (frag.y as i64) + 2 * (sy as i64) - n - n * (height as i64),
        denominator: n * side,
    }
}

/// The whole part of `(SEED_SHIFT + numerator / denominator) * scale`, and 0
/// where that is negative.
pub open spec fn seed_word(numerator: int, denominator: int, scale: int) -> int {
    let scaled = (SEED_SHIFT * denominator + numerator) * scale;
    if scaled < 0 {
        0
    } else {
        scaled / denominator
    }
}

/// Computes one coordinate's word of a pixel's seed.
pub fn seed_component(numerator: i64, denominator: i64, scale: i64) -> (word: u64)
    requires
        0 < denominator <= 0x2_0000_0000,
        -0x8_0000_0000 <= numerator <= 0x8_0000_0000,
        0 < scale <= 0x2_0000,
    ensures
        word == seed_word(numerator as int, denominator as int, scale as int),
{
    let shifted: i64 = SEED_SHIFT * denominator + numerator;
    assert(-0x10_0000_0000_0000 <= shifted * scale <= 0x20_0000_0000_0000) by (nonlinear_arith)
        requires
            -0x8_0000_0000 <= shifted <= 0x10_0000_0000,
            0 < scale <= 0x2_0000,
    ;
    let scaled: i64 = shifted * scale;
    if scaled < 0 {
        0
    } else {
        (scaled / denominator) as u64
    }
}

/// `word` as a word of the machine: the largest such word where it does not
/// fit.
pub open spec fn machine_word(word: int) -> usize {
    if word > usize::MAX {
        usize::MAX
    } else {
        word as usize
    }
}

/// The seed of the random numbers of one camera ray: it depends on the pass
/// and on the point of the image plane, and on nothing else.
pub open spec fn seed_of(sampling: u32, nc: NormalizedCoord) -> Seq<usize> {
    seq![
        SEED_TAG as usize,
        sampling as usize,
        machine_word(seed_word(nc.x as int, nc.denominator as int, SEED_SCALE_X as int)),
        machine_word(seed_word(nc.y as int, nc.denominator as int, SEED_SCALE_Y as int)),
    ]
}

/// Brings a word of a seed into the range of the words of the machine.
fn to_machine_word(word: u64) -> (w: usize)
    ensures
        w == machine_word(word as int),
{
    if word > usize::MAX as u64 {
        usize::MAX
    } else {
        word as usize
    }
}

/// Computes the seed of one camera ray.
pub fn pixel_seed(sampling: u32, nc: NormalizedCoord) -> (seed: Vec<usize>)
    requires
        nc.bounded(),
    ensures
        seed@ == seed_of(sampling, nc),
{
    let s = seed_component(nc.x, nc.denominator, SEED_SCALE_X);
    let t = seed_component(nc.y, nc.denominator, SEED_SCALE_Y);
    let mut seed: Vec<usize> = Vec::new();
    seed.push(SEED_TAG as usize);
    seed.push(sampling as usize);
    seed.push(to_machine_word(s));
    seed.push(to_machine_word(t));
    assert(seed@ =~= seed_of(sampling, nc));
    seed
}

/// The number by which a pixel's sum is divided after `sampling` passes: the
/// number of camera rays that went into it.
pub open spec fn rays_after(sampling: u32) -> nat {
    (sampling as nat) * (SUPER_SAMPLING as nat) * (SUPER_SAMPLING as nat)
}

/// Computes the divisor of the pixel sums after `sampling` passes.
pub fn sample_divisor(sampling: u32) -> (rays: u64)
    ensures
        rays == rays_after(sampling),
        rays == 4 * sampling,
{
    let per_pass: u64 = (SUPER_SAMPLING as u64) * (SUPER_SAMPLING as u64);
    assert(rays_after(sampling) == sampling * 4) by (nonlinear_arith)
        requires
            rays_after(sampling) == (sampling as nat) * 2 * 2,
    ;
    (sampling as u64) * per_pass
}

/// The cell of the sub-pixel grid that is shot as number `k`: the grid is
/// gone through row by row.
pub open spec fn cell_of(k: int) -> (u32, u32) {
    ((k % SUPER_SAMPLING as int) as u32, (k / SUPER_SAMPLING as int) as u32)
}

/// The cells of the sub-pixel grid, in the order in which they are shot.
pub fn subsample_cells() -> (cells: Vec<(u32, u32)>)
    ensures
        cells@.len() == SUPER_SAMPLING * SUPER_SAMPLING,
        forall|k: int| 0 <= k < cells@.len() ==> #[trigger] cells@[k] == cell_of(k),
        forall|k: int|
            0 <= k < cells@.len() ==> (#[trigger] cells@[k]).0 < SUPER_SAMPLING && cells@[k].1
                < SUPER_SAMPLING,
{
    let mut cells: Vec<(u32, u32)> = Vec::new();
    let mut sy: u32 = 0;
    while sy < SUPER_SAMPLING
        invariant
            sy <= SUPER_SAMPLING,
            cells@.len() == sy * SUPER_SAMPLING,
            forall|k: int| 0 <= k < cells@.len() ==> #[trigger] cells@[k] == cell_of(k),
        decreases SUPER_SAMPLING - sy,
    {
        let mut sx: u32 = 0;
        while sx < SUPER_SAMPLING
            invariant
                sy < SUPER_SAMPLING,
                sx <= SUPER_SAMPLING,
                cells@.len() == sy * SUPER_SAMPLING + sx,
                forall|k: int| 0 <= k < cells@.len() ==> #[trigger] cells@[k] == cell_of(k),
            decreases SUPER_SAMPLING - sx,
        {
            cells.push((sx, sy));
            sx += 1;
        }
        sy += 1;
    }
    cells
}

/// The seed of the camera ray that goes through cell `(sx, sy)` of the pixel at
/// `index`, in pass `sampling`.
pub fn subsample_seed(index: usize, sx: u32, sy: u32, width: u32, height: u32, sampling: u32)
    -> (seed: Vec<usize>)
    requires
        index < pixels(width, height),
        sx < SUPER_SAMPLING,
        sy < SUPER_SAMPLING,
    ensures
        seed@ == seed_of(
            sampling,
            normalized_of(frag_of(index as nat, width, height), sx, sy, width, height),
        ),
{
    let frag = frag_coord(index, width, height);
    let nc = normalized_coord(frag, sx, sy, width, height);
    pixel_seed(sampling, nc)
}

/// What the render driver does next.
#[derive(Clone, Copy, Debug, PartialEq, Eq, Structural)]
pub enum RenderStep {
    /// Run the pass of this number over all pixels, then ask the progress
    /// hook.
    Pass(u32),
    /// Stop: this many passes were run.
    Finished(u32),
}

/// How a render of at most `max_sampling` passes begins.
pub open spec fn first_step(max_sampling: u32) -> RenderStep {
    if max_sampling == 0 {
        RenderStep::Finished(0)
    } else {
        RenderStep::Pass(1)
    }
}

/// How a render goes on after pass `sampling`, `stop` being what the progress
/// hook answered.
pub open spec fn next_step(max_sampling: u32, sampling: u32, stop: bool) -> RenderStep {
    if stop {
        RenderStep::Finished(sampling)
    } else if sampling < max_sampling {
        RenderStep::Pass((sampling + 1) as u32)
    } else {
        RenderStep::Finished(max_sampling)
    }
}

/// The number of passes of a render that is at `step`, when the progress hook
/// answers `stops(s)` after pass `s`.
pub open spec fn passes_from(step: RenderStep, max_sampling: u32, stops: spec_fn(u32) -> bool)
    -> u32
    decreases
        match step {
            RenderStep::Pass(s) => max_sampling - s + 1,
            RenderStep::Finished(_) => 0,
        },
{
    match step {
        RenderStep::Finished(n) => n,
        RenderStep::Pass(s) => if s > max_sampling {
            max_sampling
        } else {
            passes_from(next_step(max_sampling, s, stops(s)), max_sampling, stops)
        },
    }
}

/// The number of passes of a whole render.
pub open spec fn passes_taken(max_sampling: u32, stops: spec_fn(u32) -> bool) -> u32 {
    passes_from(first_step(max_sampling), max_sampling, stops)
}

/// Begins a render.
pub fn begin(max_sampling: u32) -> (step: RenderStep)
    ensures
        step == first_step(max_sampling),
{
    if max_sampling == 0 {
        RenderStep::Finished(0)
    } else {
        RenderStep::Pass(1)
    }
}

/// Goes on after a pass.
pub fn advance(max_sampling: u32, sampling: u32, stop: bool) -> (step: RenderStep)
    ensures
        step == next_step(max_sampling, sampling, stop),
{
    if stop {
        RenderStep::Finished(sampling)
    } else if sampling < max_sampling {
        RenderStep::Pass(sampling + 1)
    } else {
        RenderStep::Finished(max_sampling)
    }
}

/// A render that has come to pass `s` without being stopped runs until the
/// progress hook first says stop, and to the last pass if it never does.
proof fn lemma_passes_from(s: u32, max_sampling: u32, stops: spec_fn(u32) -> bool)
    requires
        1 <= s <= max_sampling,
    ensures
        s <= passes_from(RenderStep::Pass(s), max_sampling, stops) <= max_sampling,
        forall|k: u32|
            s <= k < passes_from(RenderStep::Pass(s), max_sampling, stops) ==> !(#[trigger] stops(
                k,
            )),
        passes_from(RenderStep::Pass(s), max_sampling, stops) < max_sampling ==> stops(
            passes_from(RenderStep::Pass(s), max_sampling, stops),
        ),
    decreases max_sampling - s,
{
    reveal_with_fuel(passes_from, 3);
    if !stops(s) && s < max_sampling {
        lemma_passes_from((s + 1) as u32, max_sampling, stops);
    }
}

/// A render runs its passes in order from the first, stops after the first
/// pass at which the progress hook says stop, and never runs more than
/// `max_sampling` passes.
pub proof fn lemma_passes_taken(max_sampling: u32, stops: spec_fn(u32) -> bool)
    ensures
        passes_taken(max_sampling, stops) <= max_sampling,
        max_sampling > 0 ==> passes_taken(max_sampling, stops) >= 1,
        forall|k: u32| 1 <= k < passes_taken(max_sampling, stops) ==> !(#[trigger] stops(k)),
        passes_taken(max_sampling, stops) < max_sampling ==> stops(
            passes_taken(max_sampling, stops),
        ),
{
    reveal_with_fuel(passes_from, 2);
    if max_sampling > 0 {
        lemma_passes_from(1, max_sampling, stops);
    }
}

/// What came of following a path to its next surface.
#[derive(Clone, Copy, Debug, PartialEq, Eq, Structural)]
pub enum PathEvent {
    /// The ray left the scene.
    Miss,
    /// The ray met a surface that gave no direction to go on in.
    Absorbed,
    /// The ray met a surface and was sent on. `extinct` says that nothing of
    /// what the path may still gather would reach the camera.
    Scattered { extinct: bool },
}

/// Whether a path is followed further after its interaction number `bounce`,
/// the first being number 1: it is when it was sent on, still carries light,
/// and has not used up its interactions.
pub open spec fn path_goes_on(bounce: u32, event: PathEvent) -> bool {
    event == (PathEvent::Scattered { extinct: false }) && bounce < PATHTRACING_BOUNCE_LIMIT
}

/// The number of the next interaction of a path, if it has one.
pub fn next_bounce(bounce: u32, event: PathEvent) -> (next: Option<u32>)
    ensures
        next == if path_goes_on(bounce, event) {
            Some((bounce + 1) as u32)
        } else {
            None::<u32>
        },
        next is Some ==> next->0 <= PATHTRACING_BOUNCE_LIMIT,
{
    match event {
        PathEvent::Scattered { extinct } => if !extinct && bounce < PATHTRACING_BOUNCE_LIMIT {
            Some(bounce + 1)
        } else {
            None
        },
        _ => None,
    }
}

} // verus!
