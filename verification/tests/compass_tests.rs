use ternary_compass::compass::Compass;
use ternary_compass::ternary::{Bearing, Ratio, Ternary};

fn as_f64(r: Ratio) -> f64 {
    r.num as f64 / r.den as f64
}

#[test]
fn test_compass_update() {
    let mut compass = Compass::new(5);
    compass.update(Ternary::Zero, Ternary::Positive);
    assert_eq!(compass.bearing(), Bearing::Approach);
}

#[test]
fn test_compass_smoothing() {
    let mut compass = Compass::new(3);
    compass.update(Ternary::Zero, Ternary::Positive);
    compass.update(Ternary::Positive, Ternary::Positive); // Neutral delta
    compass.update(Ternary::Positive, Ternary::Positive); // Neutral again
    // Majority neutral
    assert_eq!(compass.bearing(), Bearing::Neutral);
}

#[test]
fn test_compass_confidence() {
    let mut compass = Compass::new(3);
    compass.update(Ternary::Zero, Ternary::Positive);
    assert!(as_f64(compass.confidence()) > 0.0);
}

#[test]
fn test_compass_reset() {
    let mut compass = Compass::new(5);
    compass.update(Ternary::Zero, Ternary::Positive);
    compass.reset();
    assert_eq!(compass.bearing(), Bearing::Neutral);
}

#[test]
fn new_compass_is_neutral_and_certain() {
    let compass = Compass::new(4);
    assert_eq!(compass.bearing(), Bearing::Neutral);
    assert_eq!(compass.confidence(), Ratio { num: 1, den: 1 });
}

#[test]
fn confidence_is_share_of_majority() {
    let mut compass = Compass::new(3);
    compass.update(Ternary::Zero, Ternary::Positive);
    compass.update(Ternary::Positive, Ternary::Positive);
    compass.update(Ternary::Positive, Ternary::Positive);
    assert_eq!(compass.confidence(), Ratio { num: 2, den: 3 });
}

#[test]
fn oldest_bearing_leaves_the_window() {
    let mut compass = Compass::new(2);
    compass.update(Ternary::Positive, Ternary::Negative); // Avoid
    compass.update(Ternary::Zero, Ternary::Positive); // Approach
    assert_eq!(compass.bearing(), Bearing::Approach); // tie goes to Approach
    compass.update(Ternary::Zero, Ternary::Negative); // Avoid; first Avoid dropped
    // history: Approach, Avoid -> tie -> Approach
    assert_eq!(compass.bearing(), Bearing::Approach);
    assert_eq!(compass.confidence(), Ratio { num: 1, den: 2 });
    compass.update(Ternary::Zero, Ternary::Negative); // Avoid, Avoid
    assert_eq!(compass.bearing(), Bearing::Avoid);
    assert_eq!(compass.confidence(), Ratio { num: 2, den: 2 });
}

#[test]
fn tie_between_avoid_and_neutral_goes_to_avoid() {
    let mut compass = Compass::new(4);
    compass.update(Ternary::Zero, Ternary::Negative);
    compass.update(Ternary::Zero, Ternary::Zero);
    assert_eq!(compass.bearing(), Bearing::Avoid);
}

#[test]
fn zero_window_keeps_nothing() {
    let mut compass = Compass::new(0);
    compass.update(Ternary::Negative, Ternary::Positive);
    assert_eq!(compass.bearing(), Bearing::Approach);
    assert_eq!(compass.confidence(), Ratio { num: 0, den: 1 });
    let c = as_f64(compass.confidence());
    assert!((0.0..=1.0).contains(&c));
}

#[test]
fn majority_share_is_at_least_a_third() {
    let mut compass = Compass::new(3);
    compass.update(Ternary::Zero, Ternary::Positive);
    compass.update(Ternary::Zero, Ternary::Negative);
    compass.update(Ternary::Zero, Ternary::Zero);
    let c = compass.confidence();
    assert_eq!(c, Ratio { num: 1, den: 3 });
    assert!(3 * c.num >= c.den && c.num <= c.den);
}
