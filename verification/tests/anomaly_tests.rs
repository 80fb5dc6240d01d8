use ternary_compass::anomaly::{AnomalyDetector, AnomalyKind, REPORT_FLOOR_TENTHS};
use ternary_compass::ternary::Ternary;

#[test]
fn test_anomaly_detector_reversal() {
    let mut detector = AnomalyDetector::new();
    detector.scan(&[Ternary::Positive, Ternary::Positive]);
    let anomalies = detector.scan(&[Ternary::Negative, Ternary::Negative]);
    assert!(anomalies.iter().any(|a| a.kind == AnomalyKind::Reversal));
}

#[test]
fn test_anomaly_detector_stagnation() {
    let mut detector = AnomalyDetector::new();
    detector.scan(&[Ternary::Positive, Ternary::Zero]);
    let anomalies = detector.scan(&[Ternary::Positive, Ternary::Zero]);
    assert!(anomalies.iter().any(|a| a.kind == AnomalyKind::Stagnation));
}

#[test]
fn test_anomaly_detector_unexpected_transition() {
    let mut detector = AnomalyDetector::new();
    detector.scan(&[Ternary::Negative]);
    let anomalies = detector.scan(&[Ternary::Positive]);
    assert!(anomalies.iter().any(|a| a.kind == AnomalyKind::UnexpectedTransition));
}

#[test]
fn test_anomaly_detector_reset() {
    let mut detector = AnomalyDetector::new();
    detector.scan(&[Ternary::Positive]);
    detector.reset();
    let anomalies = detector.scan(&[Ternary::Negative]);
    // No previous state to compare, should be empty
    assert!(anomalies.is_empty());
}

fn kinds(detector: &mut AnomalyDetector, state: &[Ternary]) -> Vec<AnomalyKind> {
    detector.scan(state).into_iter().map(|a| {
        assert_eq!(a.position, state.to_vec());
        a.kind
    }).collect()
}

#[test]
fn first_scan_reports_nothing() {
    let mut detector = AnomalyDetector::new();
    assert!(kinds(&mut detector, &[Ternary::Positive, Ternary::Negative]).is_empty());
}

#[test]
fn full_reversal_is_also_oscillation_and_jump() {
    let mut detector = AnomalyDetector::new();
    detector.scan(&[Ternary::Positive, Ternary::Negative]);
    assert_eq!(
        kinds(&mut detector, &[Ternary::Negative, Ternary::Positive]),
        vec![AnomalyKind::Reversal, AnomalyKind::Oscillation, AnomalyKind::UnexpectedTransition]
    );
}

#[test]
fn repeated_state_is_only_stagnation() {
    let mut detector = AnomalyDetector::new();
    detector.scan(&[Ternary::Zero, Ternary::Positive, Ternary::Negative]);
    assert_eq!(
        kinds(&mut detector, &[Ternary::Zero, Ternary::Positive, Ternary::Negative]),
        vec![AnomalyKind::Stagnation]
    );
    let mut empty = AnomalyDetector::new();
    empty.scan(&[]);
    assert_eq!(kinds(&mut empty, &[]), vec![AnomalyKind::Stagnation]);
}

#[test]
fn single_swing_among_many_is_only_a_jump() {
    let mut detector = AnomalyDetector::new();
    detector.scan(&[Ternary::Negative, Ternary::Zero, Ternary::Zero]);
    assert_eq!(
        kinds(&mut detector, &[Ternary::Positive, Ternary::Zero, Ternary::Positive]),
        vec![AnomalyKind::UnexpectedTransition]
    );
}

#[test]
fn majority_swing_is_oscillation() {
    let mut detector = AnomalyDetector::new();
    detector.scan(&[Ternary::Negative, Ternary::Positive, Ternary::Zero]);
    assert_eq!(
        kinds(&mut detector, &[Ternary::Positive, Ternary::Negative, Ternary::Zero]),
        vec![AnomalyKind::Oscillation, AnomalyKind::UnexpectedTransition]
    );
}

#[test]
fn length_change_reports_nothing_but_is_remembered() {
    let mut detector = AnomalyDetector::new();
    detector.scan(&[Ternary::Positive]);
    assert!(kinds(&mut detector, &[Ternary::Negative, Ternary::Negative]).is_empty());
    assert_eq!(
        kinds(&mut detector, &[Ternary::Positive, Ternary::Positive]),
        vec![AnomalyKind::Reversal, AnomalyKind::Oscillation, AnomalyKind::UnexpectedTransition]
    );
}

#[test]
fn strength_weights_and_gates() {
    assert_eq!(AnomalyKind::Reversal.weight_tenths(), 10);
    assert_eq!(AnomalyKind::Stagnation.weight_tenths(), 5);
    assert_eq!(AnomalyKind::Oscillation.weight_tenths(), 7);
    assert_eq!(AnomalyKind::UnexpectedTransition.weight_tenths(), 6);
    assert_eq!(AnomalyKind::Reversal.gate_hundredths(), Some(20));
    assert_eq!(AnomalyKind::Stagnation.gate_hundredths(), Some(10));
    assert_eq!(AnomalyKind::Oscillation.gate_hundredths(), None);
    assert_eq!(AnomalyKind::UnexpectedTransition.gate_hundredths(), Some(15));
    assert_eq!(REPORT_FLOOR_TENTHS, 1);
}
