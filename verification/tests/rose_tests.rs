use ternary_compass::rose::{CompassRose, TernaryDirection};
use ternary_compass::ternary::Ternary;

#[test]
fn test_compass_rose_all_directions() {
    assert_eq!(CompassRose::all_directions().len(), 8);
}

#[test]
fn test_compass_rose_direction() {
    let dir = CompassRose::direction(Ternary::Positive, Ternary::Positive);
    assert_eq!(dir, Some(TernaryDirection::NorthNorthEast));
}

#[test]
fn test_compass_rose_no_direction() {
    let dir = CompassRose::direction(Ternary::Zero, Ternary::Zero);
    assert_eq!(dir, None);
}

#[test]
fn test_compass_rose_opposite() {
    let opp = CompassRose::opposite(TernaryDirection::NorthNorthEast);
    assert_eq!(opp, TernaryDirection::SouthSouthWest);
}

#[test]
fn test_compass_rose_opposite_roundtrip() {
    for dir in CompassRose::all_directions() {
        assert_eq!(CompassRose::opposite(CompassRose::opposite(dir)), dir);
    }
}

fn negate(t: Ternary) -> Ternary {
    match t {
        Ternary::Negative => Ternary::Positive,
        Ternary::Zero => Ternary::Zero,
        Ternary::Positive => Ternary::Negative,
    }
}

const ALL: [Ternary; 3] = [Ternary::Negative, Ternary::Zero, Ternary::Positive];

#[test]
fn opposite_negates_both_components() {
    for a in ALL {
        for b in ALL {
            let d = CompassRose::direction(a, b);
            let n = CompassRose::direction(negate(a), negate(b));
            assert_eq!(n, d.map(CompassRose::opposite));
        }
    }
}

#[test]
fn directions_are_distinct_and_each_has_one_pair() {
    let all = CompassRose::all_directions();
    for i in 0..all.len() {
        for j in (i + 1)..all.len() {
            assert_ne!(all[i], all[j]);
        }
        assert_ne!(CompassRose::opposite(all[i]), all[i]);
    }
    let mut seen = Vec::new();
    for a in ALL {
        for b in ALL {
            if let Some(d) = CompassRose::direction(a, b) {
                assert!(!seen.contains(&d));
                seen.push(d);
            }
        }
    }
    assert_eq!(seen.len(), 8);
}

#[test]
fn direction_of_mixed_pairs() {
    assert_eq!(CompassRose::direction(Ternary::Positive, Ternary::Negative), Some(TernaryDirection::East));
    assert_eq!(CompassRose::direction(Ternary::Negative, Ternary::Positive), Some(TernaryDirection::West));
    assert_eq!(CompassRose::direction(Ternary::Zero, Ternary::Negative), Some(TernaryDirection::SouthEast));
}

#[test]
fn direction_angles_in_eighths_of_pi() {
    let expected = [2, 3, 4, -1, 6, -4, -3, -2];
    for (d, k) in CompassRose::all_directions().into_iter().zip(expected) {
        let a = CompassRose::to_angle(d);
        assert_eq!(a.pi_num, k);
        assert_eq!(a.pi_den, 8);
    }
    let ne = CompassRose::to_angle(TernaryDirection::NorthEast);
    let radians = ne.pi_num as f64 * std::f64::consts::PI / ne.pi_den as f64;
    assert!((radians - (std::f64::consts::PI / 4.0 + std::f64::consts::PI / 8.0)).abs() < 1e-12);
}
