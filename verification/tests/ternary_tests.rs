use ternary_compass::ternary::{Bearing, Ternary};

#[test]
fn test_ternary_values() {
    assert_eq!(Ternary::Negative.value(), -1);
    assert_eq!(Ternary::Zero.value(), 0);
    assert_eq!(Ternary::Positive.value(), 1);
}

#[test]
fn test_bearing_from_delta() {
    assert_eq!(Bearing::from_delta(1), Bearing::Approach);
    assert_eq!(Bearing::from_delta(-1), Bearing::Avoid);
    assert_eq!(Bearing::from_delta(0), Bearing::Neutral);
}

#[test]
fn from_value_round_trips() {
    for t in [Ternary::Negative, Ternary::Zero, Ternary::Positive] {
        assert_eq!(Ternary::from_value(t.value()), Some(t));
    }
}

#[test]
fn from_value_rejects_out_of_range() {
    assert_eq!(Ternary::from_value(2), None);
    assert_eq!(Ternary::from_value(-2), None);
    assert_eq!(Ternary::from_value(i8::MIN), None);
    assert_eq!(Ternary::from_value(i8::MAX), None);
}

#[test]
fn from_delta_uses_sign_of_large_deltas() {
    assert_eq!(Bearing::from_delta(2), Bearing::Approach);
    assert_eq!(Bearing::from_delta(-2), Bearing::Avoid);
    assert_eq!(Bearing::from_delta(i8::MIN), Bearing::Avoid);
}

#[test]
fn bearing_angles_are_thirds_of_pi() {
    let a = Bearing::Approach.to_angle();
    assert_eq!((a.pi_num, a.pi_den), (1, 3));
    let n = Bearing::Neutral.to_angle();
    assert_eq!(n.pi_num, 0);
    let v = Bearing::Avoid.to_angle();
    assert_eq!((v.pi_num, v.pi_den), (-1, 3));
}
