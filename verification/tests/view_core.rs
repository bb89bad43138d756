//! Tests of the projection, tick planning and step snapping.

use triview::geom::{BoundingBoxValues, Point2d};
use triview::projection::ScreenProject2d;
use triview::rat::Rat;
use triview::ticks::{find_optimal_step, TickSequence};

fn whole(n: i64) -> Rat {
    Rat::from_int(n)
}

#[test]
fn render2d_test_projection() {
    let b = BoundingBoxValues {
        min_x: whole(-10),
        min_y: whole(-30),
        max_x: whole(100),
        max_y: whole(150),
    };
    let p = ScreenProject2d::from_bounding_box(&b, whole(65), whole(90)).unwrap();
    let pt = Point2d::new(whole(42), whole(23));
    let (x, y) = p.project_point(&pt).unwrap();
    assert!(x.eq_rat(&whole(31)));
    assert!(y.eq_rat(&Rat::new(635, 10)));
}

#[test]
fn mod_test_projection() {
    let b = BoundingBoxValues {
        min_x: whole(-10),
        min_y: whole(-30),
        max_x: whole(100),
        max_y: whole(150),
    };
    let p = ScreenProject2d::from_bounding_box(&b, whole(65), whole(90)).unwrap();
    let pt = Point2d::new(whole(42), whole(23));
    let (x, y) = p.project_point(&pt).unwrap();
    assert!(x.eq_rat(&whole(31)));
    assert!(y.eq_rat(&Rat::new(635, 10)));
    // map the rounded pixel back into model space, as the pointer layer does
    let (mx, my) = p.find_origin_point(&whole(31), &whole(64)).unwrap();
    println!("{}/{},{}/{}", mx.num(), mx.den(), my.num(), my.den());
    assert!(mx.eq_rat(&whole(42)));
    assert!(my.eq_rat(&whole(22)));
}

#[test]
fn test_sequence() {
    let sequence = TickSequence::new(whole(-55), whole(45), whole(5));
    let mut iterator = sequence.iter();
    assert!(iterator.next().unwrap().eq_rat(&whole(-5)));
    assert!(iterator.next().unwrap().eq_rat(&whole(-10)));
    assert!(iterator.next().unwrap().eq_rat(&whole(-15)));
    assert!(iterator.next().unwrap().eq_rat(&whole(-20)));
    assert!(iterator.next().unwrap().eq_rat(&whole(-25)));
    assert!(iterator.next().unwrap().eq_rat(&whole(-30)));
    assert!(iterator.next().unwrap().eq_rat(&whole(-35)));
    assert!(iterator.next().unwrap().eq_rat(&whole(-40)));
    assert!(iterator.next().unwrap().eq_rat(&whole(-45)));
    assert!(iterator.next().unwrap().eq_rat(&whole(-50)));
    assert!(iterator.next().unwrap().eq_rat(&whole(-55)));
    assert!(iterator.next().unwrap().eq_rat(&whole(5)));
}

#[test]
fn tick_sequence_full_run() {
    let sequence = TickSequence::new(whole(-55), whole(45), whole(5));
    let mut iterator = sequence.iter();
    // skip the eleven negative ticks and the first positive one
    for _ in 0..12 {
        assert!(iterator.next().is_some());
    }
    // the positive side continues up to max
    for k in 2..=9 {
        assert!(iterator.next().unwrap().eq_rat(&whole(5 * k)));
    }
    assert!(iterator.next().is_none());
    assert!(iterator.next().is_none());
}

#[test]
fn tick_sequence_narrow_range() {
    // a range narrower than one step holds no multiple: the run is empty
    let sequence = TickSequence::new(whole(3), whole(4), whole(5));
    let mut iterator = sequence.iter();
    assert!(iterator.next().is_none());
}

#[test]
fn tick_sequence_positive_start_respects_max() {
    // for min >= 0 the first positive tick would be 10, which exceeds
    // max = 7: nothing is handed out
    let sequence = TickSequence::new(whole(6), whole(7), whole(5));
    let mut iterator = sequence.iter();
    assert!(iterator.next().is_none());
    // widening the range lets the walk start at 10 and stop at 14
    let sequence = TickSequence::new(whole(6), whole(14), whole(5));
    let mut iterator = sequence.iter();
    assert!(iterator.next().unwrap().eq_rat(&whole(10)));
    assert!(iterator.next().is_none());
}

#[test]
fn tick_sequence_zero_min_skips_zero() {
    // zero is the axis origin, drawn separately: with min exactly zero
    // the walk starts at the first multiple
    let sequence = TickSequence::new(whole(0), whole(10), whole(5));
    let mut iterator = sequence.iter();
    assert!(iterator.next().unwrap().eq_rat(&whole(5)));
    assert!(iterator.next().unwrap().eq_rat(&whole(10)));
    assert!(iterator.next().is_none());
}

#[test]
fn tick_sequence_all_negative_range() {
    // a range entirely below zero: the descent starts at the first
    // multiple inside it, never above max
    let sequence = TickSequence::new(whole(-10), whole(-8), whole(5));
    let mut iterator = sequence.iter();
    assert!(iterator.next().unwrap().eq_rat(&whole(-10)));
    assert!(iterator.next().is_none());
    // a negative range holding no multiple yields nothing
    let sequence = TickSequence::new(whole(-10), whole(-9), whole(4));
    let mut iterator = sequence.iter();
    assert!(iterator.next().is_none());
    // several in-range negative multiples, nearest zero first
    let sequence = TickSequence::new(whole(-22), whole(-4), whole(5));
    let mut iterator = sequence.iter();
    assert!(iterator.next().unwrap().eq_rat(&whole(-5)));
    assert!(iterator.next().unwrap().eq_rat(&whole(-10)));
    assert!(iterator.next().unwrap().eq_rat(&whole(-15)));
    assert!(iterator.next().unwrap().eq_rat(&whole(-20)));
    assert!(iterator.next().is_none());
}

#[test]
fn tick_sequence_fractional_step() {
    let sequence = TickSequence::new(Rat::new(-11, 10), whole(1), Rat::new(1, 2));
    let mut iterator = sequence.iter();
    assert!(iterator.next().unwrap().eq_rat(&Rat::new(-1, 2)));
    assert!(iterator.next().unwrap().eq_rat(&whole(-1)));
    assert!(iterator.next().unwrap().eq_rat(&Rat::new(1, 2)));
    assert!(iterator.next().unwrap().eq_rat(&whole(1)));
    assert!(iterator.next().is_none());
}

#[test]
fn optimal_step_snaps_to_decades() {
    // mantissa below the first threshold snaps to one
    assert!(find_optimal_step(&whole(13)).eq_rat(&whole(10)));
    // between the first and second thresholds, to two
    assert!(find_optimal_step(&whole(2)).eq_rat(&whole(2)));
    assert!(find_optimal_step(&whole(30)).eq_rat(&whole(20)));
    // between the second and third, to five
    assert!(find_optimal_step(&whole(37)).eq_rat(&whole(50)));
    assert!(find_optimal_step(&whole(5)).eq_rat(&whole(5)));
    // beyond the third, to the next power of ten
    assert!(find_optimal_step(&whole(80)).eq_rat(&whole(100)));
    // magnitudes below one
    assert!(find_optimal_step(&Rat::new(13, 1000)).eq_rat(&Rat::new(1, 100)));
    assert!(find_optimal_step(&Rat::new(3, 10)).eq_rat(&Rat::new(2, 10)));
}

#[test]
fn optimal_step_is_idempotent_on_outputs() {
    let snapped = find_optimal_step(&whole(37));
    assert!(snapped.eq_rat(&whole(50)));
    // re-snapping the output, scaled by powers of ten, returns it
    assert!(find_optimal_step(&snapped).eq_rat(&snapped));
    assert!(find_optimal_step(&whole(500)).eq_rat(&whole(500)));
    assert!(find_optimal_step(&Rat::new(5, 100)).eq_rat(&Rat::new(5, 100)));
    assert!(find_optimal_step(&whole(2)).eq_rat(&whole(2)));
    assert!(find_optimal_step(&whole(1)).eq_rat(&whole(1)));
}

#[test]
fn projection_round_trip_on_odd_viewport() {
    let b = BoundingBoxValues {
        min_x: Rat::new(-33, 7),
        min_y: Rat::new(1, 3),
        max_x: whole(12),
        max_y: Rat::new(29, 2),
    };
    let p = ScreenProject2d::from_bounding_box(&b, whole(641), whole(457)).unwrap();
    let pt = Point2d::new(Rat::new(22, 7), Rat::new(5, 11));
    let (sx, sy) = p.project_point(&pt).unwrap();
    let (mx, my) = p.find_origin_point(&sx, &sy).unwrap();
    assert!(mx.eq_rat(&Rat::new(22, 7)));
    assert!(my.eq_rat(&Rat::new(5, 11)));
}
