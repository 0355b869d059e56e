use fulleffect::config::{PATHTRACING_BOUNCE_LIMIT, SUPER_SAMPLING};
use fulleffect::renderer::{
    advance, begin, frag_coord, next_bounce, normalized_coord, pixel_count, pixel_seed,
    sample_divisor, seed_component, subsample_cells, subsample_seed, FragCoord, NormalizedCoord,
    PathEvent, RenderStep,
};

#[test]
fn pixel_places() {
    assert_eq!(frag_coord(0, 640, 480), FragCoord { x: 0, y: 480 });
    assert_eq!(frag_coord(639, 640, 480), FragCoord { x: 639, y: 480 });
    assert_eq!(frag_coord(640, 640, 480), FragCoord { x: 0, y: 479 });
    assert_eq!(frag_coord(640 * 480 - 1, 640, 480), FragCoord { x: 639, y: 1 });
    assert_eq!(frag_coord(2080, 64, 64), FragCoord { x: 32, y: 32 });
}

#[test]
fn every_pixel_has_its_own_place() {
    let (width, height) = (7u32, 5u32);
    let mut seen = Vec::new();
    for i in 0..35usize {
        let frag = frag_coord(i, width, height);
        assert!(!seen.contains(&frag));
        seen.push(frag);
    }
}

#[test]
fn pixel_counts() {
    assert_eq!(pixel_count(640, 480), Some(307200));
    assert_eq!(pixel_count(0, 480), Some(0));
    assert_eq!(pixel_count(1, 1), Some(1));
    let all = pixel_count(u32::MAX, u32::MAX);
    if usize::BITS >= 64 {
        assert_eq!(all, Some(18446744065119617025u64 as usize));
    } else {
        assert_eq!(all, None);
    }
}

#[test]
fn points_of_the_sub_pixel_grid() {
    let frag = FragCoord { x: 32, y: 32 };
    assert_eq!(
        normalized_coord(frag, 0, 0, 64, 64),
        NormalizedCoord { x: -2, y: -2, denominator: 128 }
    );
    assert_eq!(
        normalized_coord(frag, 1, 0, 64, 64),
        NormalizedCoord { x: 0, y: -2, denominator: 128 }
    );
    assert_eq!(
        normalized_coord(FragCoord { x: 0, y: 480 }, 0, 1, 640, 480),
        NormalizedCoord { x: -1282, y: 960, denominator: 960 }
    );
    assert_eq!(
        normalized_coord(FragCoord { x: 639, y: 1 }, 1, 1, 640, 480),
        NormalizedCoord { x: 1276, y: -956, denominator: 960 }
    );
}

#[test]
fn points_agree_with_the_formula_in_real_numbers() {
    let (width, height) = (640u32, 480u32);
    for &(x, y, sx, sy) in &[(0u32, 480u32, 0u32, 0u32), (17, 3, 1, 0), (639, 1, 1, 1)] {
        let nc = normalized_coord(FragCoord { x, y }, sx, sy, width, height);
        let n = SUPER_SAMPLING as f64;
        let ex = ((x as f64 + sx as f64 / n - 0.5) * 2.0 - width as f64) / 480.0;
        let ey = ((y as f64 + sy as f64 / n - 0.5) * 2.0 - height as f64) / 480.0;
        assert_eq!(nc.x as f64 / nc.denominator as f64, ex);
        assert_eq!(nc.y as f64 / nc.denominator as f64, ey);
    }
}

#[test]
fn seed_words() {
    assert_eq!(seed_component(-2, 128, 100870), 401903);
    assert_eq!(seed_component(-2, 128, 100304), 399648);
    assert_eq!(seed_component(0, 1, 100870), 403480);
    assert_eq!(seed_component(-4, 1, 100870), 0);
    assert_eq!(seed_component(-5, 1, 100870), 0);
    assert_eq!(seed_component(-9, 2, 100870), 0);
    assert_eq!(seed_component(1, 3, 3), 13);
}

#[test]
fn seeds() {
    let nc = NormalizedCoord { x: -2, y: -2, denominator: 128 };
    assert_eq!(pixel_seed(7, nc), vec![8700304, 7, 401903, 399648]);
    assert_eq!(subsample_seed(2080, 0, 0, 64, 64, 7), vec![8700304, 7, 401903, 399648]);
    assert_eq!(subsample_seed(2080, 0, 0, 64, 64, 7), subsample_seed(2080, 0, 0, 64, 64, 7));
    assert_ne!(subsample_seed(2080, 0, 0, 64, 64, 7), subsample_seed(2080, 0, 0, 64, 64, 8));
    assert_ne!(subsample_seed(2080, 0, 0, 64, 64, 7), subsample_seed(2081, 0, 0, 64, 64, 7));
    assert_ne!(subsample_seed(2080, 0, 0, 64, 64, 7), subsample_seed(2080, 1, 0, 64, 64, 7));
}

#[test]
fn divisors() {
    assert_eq!(sample_divisor(0), 0);
    assert_eq!(sample_divisor(1), 4);
    assert_eq!(sample_divisor(16), 64);
    assert_eq!(sample_divisor(u32::MAX), 17179869180);
}

#[test]
fn grid_is_gone_through_row_by_row() {
    assert_eq!(subsample_cells(), vec![(0, 0), (1, 0), (0, 1), (1, 1)]);
}

#[test]
fn render_without_passes() {
    assert_eq!(begin(0), RenderStep::Finished(0));
}

#[test]
fn render_runs_all_passes_unless_stopped() {
    assert_eq!(begin(3), RenderStep::Pass(1));
    assert_eq!(advance(3, 1, false), RenderStep::Pass(2));
    assert_eq!(advance(3, 2, false), RenderStep::Pass(3));
    assert_eq!(advance(3, 3, false), RenderStep::Finished(3));
}

#[test]
fn render_stops_when_told() {
    assert_eq!(advance(3, 2, true), RenderStep::Finished(2));
    assert_eq!(advance(1, 1, true), RenderStep::Finished(1));
    assert_eq!(advance(3, 3, true), RenderStep::Finished(3));
}

#[test]
fn driven_render_counts_its_passes() {
    let run = |max: u32, stop_at: u32| {
        let mut step = begin(max);
        let mut passes = Vec::new();
        loop {
            match step {
                RenderStep::Finished(n) => return (n, passes),
                RenderStep::Pass(s) => {
                    passes.push(s);
                    step = advance(max, s, s == stop_at);
                }
            }
        }
    };
    assert_eq!(run(4, 0), (4, vec![1, 2, 3, 4]));
    assert_eq!(run(4, 2), (2, vec![1, 2]));
    assert_eq!(run(0, 1), (0, vec![]));
    assert_eq!(run(1, 1), (1, vec![1]));
}

#[test]
fn paths_end() {
    assert_eq!(next_bounce(1, PathEvent::Miss), None);
    assert_eq!(next_bounce(1, PathEvent::Absorbed), None);
    assert_eq!(next_bounce(1, PathEvent::Scattered { extinct: true }), None);
    assert_eq!(next_bounce(1, PathEvent::Scattered { extinct: false }), Some(2));
    assert_eq!(next_bounce(9, PathEvent::Scattered { extinct: false }), Some(10));
    assert_eq!(next_bounce(10, PathEvent::Scattered { extinct: false }), None);
    assert_eq!(PATHTRACING_BOUNCE_LIMIT, 10);
    let mut bounce = 1;
    let mut interactions = 1;
    while let Some(next) = next_bounce(bounce, PathEvent::Scattered { extinct: false }) {
        bounce = next;
        interactions += 1;
    }
    assert_eq!(interactions, 10);
}
