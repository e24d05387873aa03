use pathy::geom::{isqrt, mirror};
use pathy::point::within_hit;
use pathy::sampler::steps;
use pathy::{BezPoint, Easing, Pos, Viewport, control_offset, interpolate};

fn anchor(x: i64, y: i64, cx: i64, cy: i64, id: u128) -> BezPoint {
    BezPoint::new(Pos::new(x, y), Pos::new(cx, cy), id, 0).unwrap()
}

#[test]
fn curve_starts_and_ends_at_anchors() {
    let a = anchor(1_000, 2_000, -4_000, 7_000, 1);
    let b = anchor(90_000, -30_000, 80_000, 5_000, 2);
    assert_eq!(interpolate(&a, &b, 0, 7), Pos::new(1_000, 2_000));
    assert_eq!(interpolate(&a, &b, 7, 7), Pos::new(90_000, -30_000));
    assert_eq!(interpolate(&a, &b, 0, 1), a.pos.pos());
    assert_eq!(interpolate(&a, &b, 1, 1), b.pos.pos());
}

#[test]
fn curve_midpoint_of_straight_segment() {
    // cp2 of a is (2000, 0); cp1 of b is (6000, 0).
    let a = anchor(0, 0, -2_000, 0, 1);
    let b = anchor(8_000, 0, 6_000, 0, 2);
    // (1/8) * 0 + (3/8) * 2000 + (3/8) * 6000 + (1/8) * 8000 = 4000.
    assert_eq!(interpolate(&a, &b, 1, 2), Pos::new(4_000, 0));
    // t = 1/3: (8*0 + 12*2000 + 6*6000 + 8000) / 27 = 68000 / 27 = 2518.5...
    assert_eq!(interpolate(&a, &b, 1, 3), Pos::new(2_518, 0));
}

#[test]
fn curve_rounds_down_below_zero() {
    let a = anchor(0, 0, 2_000, 1, 1);
    let b = anchor(-8_000, 0, -6_000, 0, 2);
    // t = 1/3 of the mirror image of the previous segment: -68000 / 27 = -2518.5...
    assert_eq!(interpolate(&a, &b, 1, 3).x, -2_519);
}

#[test]
fn zero_length_control_gives_zero_offset() {
    let c = Pos::new(5_000, 5_000);
    assert_eq!(control_offset(c, c, 6_000), Pos::new(0, 0));
}

#[test]
fn control_offset_points_toward_control() {
    let c = Pos::new(0, 0);
    assert_eq!(control_offset(c, Pos::new(3_000, -4_000), 5_000), Pos::new(3_000, -4_000));
    assert_eq!(control_offset(c, Pos::new(-10_000, 0), 2_500), Pos::new(-2_500, 0));
}

#[test]
fn integer_square_root() {
    assert_eq!(isqrt(0), 0);
    assert_eq!(isqrt(15), 3);
    assert_eq!(isqrt(16), 4);
    assert_eq!(isqrt(u64::MAX), 4_294_967_295);
}

#[test]
fn mirror_through_point() {
    assert_eq!(mirror(Pos::new(10, 20), Pos::new(5, 5)), Some(Pos::new(15, 35)));
    assert_eq!(mirror(Pos::new(900_000_000, 0), Pos::new(-900_000_000, 0)), None);
}

#[test]
fn hit_radius_scales_with_view() {
    let view = Viewport { scale: 720, size: 144_000 };
    // 5 display units are 1000 thousandths of a field unit here.
    assert!(within_hit(999 * 999, view));
    assert!(!within_hit(1000 * 1000, view));
}

#[test]
fn segment_steps_follow_distance() {
    let a = anchor(0, 0, -1_000, 0, 1);
    let b = anchor(30_000, 40_000, 29_000, 40_000, 2);
    assert_eq!(steps(&a, &b), 50);
    let c = anchor(0, 999, 0, 0, 3);
    assert_eq!(steps(&a, &c), 0);
}

#[test]
fn easing_runs_linearly_then_holds() {
    let e = Easing::new(100, 0, 40, 150);
    assert_eq!(e.value_at(50), 0);
    assert_eq!(e.value_at(175), 20);
    assert_eq!(e.value_at(250), 40);
    assert_eq!(e.value_at(10_000), 40);
    let down = Easing::new(0, 40, 10, 100);
    assert_eq!(down.value_at(50), 25);
}

#[test]
fn easing_retarget_restarts_from_current_value() {
    let mut e = Easing::new(0, 0, 100, 100);
    e.retarget(50, 100);
    assert_eq!(e, Easing::new(0, 0, 100, 100));
    e.retarget(50, 20);
    assert_eq!(e, Easing::new(50, 50, 20, 100));
}
