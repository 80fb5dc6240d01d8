use ternary_compass::sextant::Sextant;
use ternary_compass::ternary::{Angle, Ratio, Ternary};

fn radians(a: Angle) -> f64 {
    a.pi_num as f64 * std::f64::consts::PI / a.pi_den as f64
}

fn as_f64(r: Ratio) -> f64 {
    r.num as f64 / r.den as f64
}

#[test]
fn test_sextant_angle_between_same() {
    let angle = radians(Sextant::angle_between(Ternary::Zero, Ternary::Zero));
    assert!((angle - 0.0).abs() < f64::EPSILON);
}

#[test]
fn test_sextant_angle_between_opposite() {
    let angle = radians(Sextant::angle_between(Ternary::Negative, Ternary::Positive));
    assert!(angle > 1.0);
}

#[test]
fn test_sextant_total_traversal() {
    let states = vec![Ternary::Zero, Ternary::Positive, Ternary::Zero];
    let traversal = radians(Sextant::total_traversal(&states));
    assert!(traversal > 0.0);
}

#[test]
fn test_sextant_straightness_perfect() {
    let states = vec![Ternary::Zero, Ternary::Positive, Ternary::Positive, Ternary::Positive];
    let s = as_f64(Sextant::straightness(&states));
    assert!(s > 0.9);
}

#[test]
fn test_sextant_straightness_chaotic() {
    let states = vec![Ternary::Positive, Ternary::Negative, Ternary::Positive, Ternary::Negative];
    let s = as_f64(Sextant::straightness(&states));
    assert!(s < 0.5);
}

#[test]
fn angle_between_is_symmetric_and_exact() {
    let a = Sextant::angle_between(Ternary::Positive, Ternary::Negative);
    let b = Sextant::angle_between(Ternary::Negative, Ternary::Positive);
    assert_eq!(a, b);
    assert_eq!((a.pi_num, a.pi_den), (2, 3));
    let c = Sextant::angle_between(Ternary::Zero, Ternary::Negative);
    assert_eq!((c.pi_num, c.pi_den), (1, 3));
}

#[test]
fn traversal_sums_consecutive_angles() {
    let states = vec![Ternary::Zero, Ternary::Positive, Ternary::Negative, Ternary::Negative];
    let t = Sextant::total_traversal(&states);
    assert_eq!((t.pi_num, t.pi_den), (3, 3));
    let avg = Sextant::average_angle(&states);
    assert_eq!((avg.pi_num, avg.pi_den), (3, 9));
}

#[test]
fn short_paths() {
    let one = vec![Ternary::Positive];
    assert_eq!(Sextant::total_traversal(&one).pi_num, 0);
    assert_eq!(radians(Sextant::average_angle(&one)), 0.0);
    assert_eq!(Sextant::straightness(&one), Ratio { num: 1, den: 1 });
    let none: Vec<Ternary> = Vec::new();
    assert_eq!(Sextant::straightness(&none), Ratio { num: 1, den: 1 });
}

#[test]
fn motionless_path_is_straight() {
    let states = vec![Ternary::Negative, Ternary::Negative, Ternary::Negative];
    assert_eq!(Sextant::straightness(&states), Ratio { num: 1, den: 1 });
}

#[test]
fn straightness_is_ends_over_traversal() {
    let states = vec![Ternary::Positive, Ternary::Negative, Ternary::Positive, Ternary::Negative];
    assert_eq!(Sextant::straightness(&states), Ratio { num: 2, den: 6 });
    let loop_back = vec![Ternary::Zero, Ternary::Positive, Ternary::Zero];
    assert_eq!(Sextant::straightness(&loop_back), Ratio { num: 0, den: 2 });
}
