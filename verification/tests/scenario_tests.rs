//! The march and the escape-time loop driven by a floating-point distance
//! estimator for a power fractal, as a viewer drives them.

use std::cell::Cell;

use raymarcher::orbit::{iterate, Pass};
use raymarcher::params::RenderParams;
use raymarcher::tracer::{is_hit, trace, HitResult, MAX_DISTANCE, UNIT};
use raymarcher::viewport::Viewport;

const BAILOUT: f32 = 2.0;
const TRAP_RADIUS: f32 = 0.5;
const SMALLEST_RADIUS: f32 = 1.0e-12;

#[derive(Clone, Copy, Debug, PartialEq)]
struct Iterate {
    z: [f32; 3],
    dr: f32,
    r: f32,
    trap: f32,
}

fn length(v: [f32; 3]) -> f32 {
    (v[0] * v[0] + v[1] * v[1] + v[2] * v[2]).sqrt()
}

fn one_pass(state: Iterate, point: [f32; 3], exponent: f32) -> Pass<Iterate> {
    let r = length(state.z);
    if r > BAILOUT {
        return Pass::Escaped(Iterate { r, ..state });
    }
    let theta = (state.z[2] / r).acos() * exponent;
    let phi = state.z[1].atan2(state.z[0]) * exponent;
    let dr = r.powf(exponent - 1.0) * exponent * state.dr + 1.0;
    let zr = r.powf(exponent);
    let z = [
        zr * theta.sin() * phi.cos() + point[0],
        zr * theta.sin() * phi.sin() + point[1],
        zr * theta.cos() + point[2],
    ];
    let trap = state.trap.min(length(z) - TRAP_RADIUS);
    Pass::Iterated(Iterate { z, dr, r, trap })
}

fn evaluate(point: [f32; 3], exponent: f32, iterations: u32) -> (f32, f32) {
    let start = Iterate { z: point, dr: 1.0, r: 0.0, trap: f32::INFINITY };
    let end = iterate(start, iterations, |state: Iterate| one_pass(state, point, exponent));
    let r = end.r.max(SMALLEST_RADIUS);
    (0.5 * r.ln() * r / end.dr, end.trap)
}

fn to_steps(distance: f32) -> i64 {
    if distance.is_nan() {
        i64::MAX
    } else {
        (f64::from(distance) * UNIT as f64).round() as i64
    }
}

fn along(origin: [f32; 3], direction: [f32; 3], travel: i64) -> [f32; 3] {
    let t = (travel as f64 / UNIT as f64) as f32;
    [origin[0] + t * direction[0], origin[1] + t * direction[1], origin[2] + t * direction[2]]
}

fn march(origin: [f32; 3], direction: [f32; 3], exponent: f32, params: RenderParams) -> HitResult {
    trace(
        |travel: i64| {
            let point = along(origin, direction, travel);
            to_steps(evaluate(point, exponent, params.iterations()).0)
        },
        params.detail(),
    )
}

fn towards_origin(from: [f32; 3]) -> [f32; 3] {
    let l = length(from);
    [-from[0] / l, -from[1] / l, -from[2] / l]
}

#[test]
fn camera_on_the_axis_sees_the_fractal_in_the_central_pixel() {
    // Camera at (0, 0, 5) looking down -Z, square viewport, exponent 8,
    // 12 iterations, detail 1. The ray through the middle of the screen runs
    // along the look direction.
    let viewport = Viewport::new(601, 601).unwrap();
    let (x, y) = viewport.middle();
    assert_eq!(viewport.centre(x, y), (0, 0));
    let params = RenderParams::default();
    assert_eq!((params.iterations(), params.detail()), (12, 1));
    let result = march([0.0, 0.0, 5.0], [0.0, 0.0, -1.0], 8.0, params);
    assert!(result.hit);
    // The fractal lies within a radius of about 1.2 around the origin.
    assert!(result.travel > 3 * UNIT + 8 * (UNIT / 10));
    assert!(result.travel < 5 * UNIT);
}

#[test]
fn ray_at_the_origin_hits_where_the_estimate_is_below_the_threshold() {
    let starts: [[f32; 3]; 4] =
        [[0.0, 0.0, 5.0], [3.0, 2.0, 4.0], [-2.5, 0.5, 0.25], [1.0, -4.0, 2.0]];
    for origin in starts {
        let direction = towards_origin(origin);
        let params = RenderParams::new(12, 1);
        let result = march(origin, direction, 8.0, params);
        assert!(result.hit);
        let travelled = result.travel as f64 / UNIT as f64;
        assert!(travelled < f64::from(length(origin)));
        let (distance, trap) = evaluate(along(origin, direction, result.travel), 8.0, 12);
        assert!(is_hit(to_steps(distance), 1));
        assert!(distance < 1.0 / 10_000.0);
        assert!(trap.is_finite());
    }
}

#[test]
fn ray_away_from_the_fractal_misses_at_the_cap() {
    let starts: [[f32; 3]; 3] = [[0.0, 0.0, 5.0], [3.0, 2.0, 4.0], [-2.5, 0.5, 0.25]];
    for origin in starts {
        let toward = towards_origin(origin);
        let away = [-toward[0], -toward[1], -toward[2]];
        let result = march(origin, away, 8.0, RenderParams::default());
        assert!(!result.hit);
        assert!(result.travel >= MAX_DISTANCE);
    }
}

#[test]
fn ray_past_the_fractal_misses_at_the_cap() {
    let result = march([0.0, 0.0, 5.0], [0.0, 1.0, 0.0], 8.0, RenderParams::default());
    assert!(!result.hit);
    assert!(result.travel >= MAX_DISTANCE);
}

#[test]
fn detail_moves_the_hit_closer_to_the_surface() {
    let origin = [3.0, 2.0, 4.0];
    let direction = towards_origin(origin);
    let mut previous = 0;
    for detail in [1, 10, 100] {
        let result = march(origin, direction, 8.0, RenderParams::new(12, detail));
        assert!(result.hit);
        assert!(result.travel >= previous);
        previous = result.travel;
    }
}

#[test]
fn one_iteration_is_the_closed_form() {
    let exponent: f32 = 8.0;
    let points: [[f32; 3]; 3] = [[0.5, 0.25, 0.125], [-0.3, 0.9, 0.4], [1.0, 1.0, 1.0]];
    for point in points {
        let r = length(point);
        let theta = (point[2] / r).acos() * exponent;
        let phi = point[1].atan2(point[0]) * exponent;
        let dr = r.powf(exponent - 1.0) * exponent * 1.0 + 1.0;
        let zr = r.powf(exponent);
        let z = [
            zr * theta.sin() * phi.cos() + point[0],
            zr * theta.sin() * phi.sin() + point[1],
            zr * theta.cos() + point[2],
        ];
        let trap = f32::INFINITY.min(length(z) - TRAP_RADIUS);
        // The estimate is read from the radius measured in the pass, that of
        // the point itself.
        let expected = (0.5 * r.ln() * r / dr, trap);
        assert_eq!(evaluate(point, exponent, 1), expected);
    }
}

#[test]
fn escaped_point_is_not_iterated() {
    // Beyond the bailout radius the first pass escapes: the estimate is that
    // of the point itself, whatever the iteration count.
    let points: [[f32; 3]; 3] = [[0.0, 0.0, 5.0], [2.0, 0.5, 0.0], [-1.5, -1.5, 1.5]];
    for point in points {
        let r = length(point);
        assert!(r > BAILOUT);
        let expected = (0.5 * r.ln() * r / 1.0, f32::INFINITY);
        for iterations in [1, 2, 12, 40] {
            assert_eq!(evaluate(point, 8.0, iterations), expected);
        }
    }
}

#[test]
fn estimate_settles_once_the_iterate_has_escaped() {
    // A point near the fractal escapes after a few passes; from then on more
    // iterations change nothing.
    let point = [0.9, 0.9, 0.2];
    let passes = Cell::new(0u32);
    let start = Iterate { z: point, dr: 1.0, r: 0.0, trap: f32::INFINITY };
    let end = iterate(start, 40, |state: Iterate| {
        passes.set(passes.get() + 1);
        one_pass(state, point, 8.0)
    });
    assert!(end.r > BAILOUT);
    assert!(passes.get() < 40);
    let settled = evaluate(point, 8.0, passes.get());
    for iterations in passes.get()..=40 {
        assert_eq!(evaluate(point, 8.0, iterations), settled);
    }
}

#[test]
fn exponent_zero_is_evaluated_and_marched() {
    // With exponent zero every pass sends the iterate to the point moved one
    // unit up the z axis, and the derivative stays 1.
    let point = [0.3, 0.2, 0.1];
    let moved = length([0.3, 0.2, 1.1]);
    for iterations in [2, 12, 40] {
        let (distance, trap) = evaluate(point, 0.0, iterations);
        assert!((distance - 0.5 * moved.ln() * moved).abs() < 1.0e-5);
        assert!((trap - (moved - TRAP_RADIUS)).abs() < 1.0e-5);
    }
    // The estimate vanishes where the moved point has radius one: a ray
    // down the z axis closes in on the origin and hits just before it.
    let result = march([0.0, 0.0, 5.0], [0.0, 0.0, -1.0], 0.0, RenderParams::default());
    assert!(result.hit);
    assert!(result.travel > 4 * UNIT + 99 * (UNIT / 100));
    assert!(result.travel < 5 * UNIT);
}

#[test]
fn origin_is_evaluated_without_a_logarithm_of_zero() {
    // After one pass the radius on record is zero; it is lifted before the
    // logarithm is taken, and the estimate is a small number, not an error.
    let (distance, _trap) = evaluate([0.0, 0.0, 0.0], 8.0, 1);
    assert!(distance.is_finite());
    assert!(distance <= 0.0 && distance > -1.0e-9);
    let params = RenderParams::new(1, 1);
    let inside = march([0.0, 0.0, 0.0], [0.0, 0.0, 1.0], 8.0, params);
    assert_eq!(inside, HitResult { hit: true, travel: 0 });
}

#[test]
fn estimate_that_is_no_number_ends_the_march_in_a_miss() {
    // The angles of the origin are undefined, and from the second pass on
    // so is the estimate: the march takes it for a distance beyond the cap.
    let (distance, _trap) = evaluate([0.0, 0.0, 0.0], 8.0, 12);
    assert!(distance.is_nan());
    assert_eq!(to_steps(distance), i64::MAX);
    let result = march([0.0, 0.0, 0.0], [0.0, 0.0, 1.0], 8.0, RenderParams::default());
    assert_eq!(result, HitResult { hit: false, travel: i64::MAX });
}

#[test]
fn frame_of_marches_has_the_fractal_in_the_middle_and_sky_in_the_corners() {
    // An orthographic look at the fractal from z = 5: one ray per pixel,
    // all along -Z, spread over the square from -2 to 2.
    let viewport = Viewport::new(9, 9).unwrap();
    let params = RenderParams::default();
    let frame = viewport.render(|x: u32, y: u32| {
        let (nx, ny) = viewport.centre(x, y);
        let origin = [2.0 * nx as f32 / 9.0, 2.0 * ny as f32 / 9.0, 5.0];
        march(origin, [0.0, 0.0, -1.0], 8.0, params).hit
    });
    assert_eq!(frame.len(), 81);
    assert!(frame[4 * 9 + 4]);
    assert!(!frame[0]);
    assert!(!frame[8]);
    assert!(!frame[72]);
    assert!(!frame[80]);
}
