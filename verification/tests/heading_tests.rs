use ternary_compass::heading::HeadingEstimator;
use ternary_compass::ternary::{Bearing, Ratio, RatioProduct, Ternary};

#[test]
fn test_heading_estimator_trend() {
    let mut estimator = HeadingEstimator::new(10);
    estimator.observe(Ternary::Negative);
    estimator.observe(Ternary::Zero);
    estimator.observe(Ternary::Positive);
    let (bearing, _conf) = estimator.estimate_heading();
    assert_eq!(bearing, Bearing::Approach);
}

#[test]
fn test_heading_estimator_predict() {
    let mut estimator = HeadingEstimator::new(10);
    estimator.observe(Ternary::Negative);
    estimator.observe(Ternary::Negative);
    estimator.observe(Ternary::Zero);
    let predicted = estimator.predict(2);
    assert_eq!(predicted, Ternary::Positive);
}

#[test]
fn test_heading_estimator_short_history() {
    let mut estimator = HeadingEstimator::new(5);
    estimator.observe(Ternary::Positive);
    let (bearing, _) = estimator.estimate_heading();
    assert_eq!(bearing, Bearing::Neutral); // insufficient data
}

fn product(a: u128, b: u128, c: u128, d: u128) -> RatioProduct {
    RatioProduct { first: Ratio { num: a, den: b }, second: Ratio { num: c, den: d } }
}

fn value(r: RatioProduct) -> f64 {
    (r.first.num as f64 / r.first.den as f64) * (r.second.num as f64 / r.second.den as f64)
}

fn estimator_with(window: usize, states: &[Ternary]) -> HeadingEstimator {
    let mut e = HeadingEstimator::new(window);
    for s in states {
        e.observe(*s);
    }
    e
}

#[test]
fn short_history_has_half_confidence() {
    let e = estimator_with(5, &[Ternary::Positive]);
    assert_eq!(e.estimate_heading(), (Bearing::Neutral, product(1, 2, 1, 1)));
    let empty = HeadingEstimator::new(5);
    assert_eq!(empty.estimate_heading(), (Bearing::Neutral, product(1, 2, 1, 1)));
    assert_eq!(value(empty.estimate_heading().1), 0.5);
}

#[test]
fn perfect_line_has_full_confidence() {
    let e = estimator_with(10, &[Ternary::Negative, Ternary::Zero, Ternary::Positive]);
    let (b, r) = e.estimate_heading();
    assert_eq!(b, Bearing::Approach);
    assert_eq!(r, product(12, 8, 4, 6));
    assert_eq!(value(r), 1.0);
    let down = estimator_with(10, &[Ternary::Positive, Ternary::Zero, Ternary::Negative]);
    assert_eq!(down.estimate_heading().0, Bearing::Avoid);
}

#[test]
fn flat_history_has_no_fit() {
    let e = estimator_with(10, &[Ternary::Positive, Ternary::Positive, Ternary::Positive]);
    assert_eq!(e.estimate_heading(), (Bearing::Neutral, product(0, 1, 1, 1)));
}

#[test]
fn peak_has_zero_slope_and_zero_fit() {
    let e = estimator_with(10, &[Ternary::Zero, Ternary::Positive, Ternary::Zero]);
    assert_eq!(e.estimate_heading(), (Bearing::Neutral, product(0, 8, 0, 2)));
}

#[test]
fn confidence_matches_coefficient_of_determination() {
    // y = 0, 0, 1, 1: slope 0.4, r^2 = 0.8
    let e = estimator_with(10, &[Ternary::Zero, Ternary::Zero, Ternary::Positive, Ternary::Positive]);
    let (b, r) = e.estimate_heading();
    assert_eq!(b, Bearing::Approach);
    assert!(r.first.num * r.second.num <= r.first.den * r.second.den);
    assert!((value(r) - 0.8).abs() < 1e-12);
}

#[test]
fn window_drops_old_states() {
    let e = estimator_with(3, &[Ternary::Positive, Ternary::Positive, Ternary::Negative, Ternary::Negative, Ternary::Negative]);
    assert_eq!(e.history_len(), 3);
    assert_eq!(e.predict(1), Ternary::Negative);
}

#[test]
fn window_is_at_least_two() {
    let e = estimator_with(0, &[Ternary::Positive, Ternary::Zero, Ternary::Negative]);
    assert_eq!(e.history_len(), 2);
    let (b, _) = e.estimate_heading();
    assert_eq!(b, Bearing::Avoid);
}

#[test]
fn prediction_of_short_histories() {
    let empty = HeadingEstimator::new(4);
    assert_eq!(empty.predict(3), Ternary::Zero);
    let one = estimator_with(4, &[Ternary::Negative]);
    assert_eq!(one.predict(100), Ternary::Negative);
}

#[test]
fn constant_history_predicts_itself() {
    for t in [Ternary::Negative, Ternary::Zero, Ternary::Positive] {
        let e = estimator_with(6, &[t, t, t, t]);
        assert_eq!(e.predict(0), t);
        assert_eq!(e.predict(1_000_000), t);
    }
}

#[test]
fn prediction_follows_trend_far_ahead() {
    // y = 0, 0, 1: slope 0.5, intercept -1/6; at x = 3 the line is 4/3
    let e = estimator_with(10, &[Ternary::Zero, Ternary::Zero, Ternary::Positive]);
    assert_eq!(e.predict(1), Ternary::Positive);
    let d = estimator_with(10, &[Ternary::Zero, Ternary::Zero, Ternary::Negative]);
    assert_eq!(d.predict(usize::MAX - 3), Ternary::Negative);
}

#[test]
fn prediction_near_threshold() {
    // y = -1, 0, 0, 0: slope 0.3, intercept -0.7; at x = 3: 0.2 -> Zero; at x = 4: 0.5 -> Positive
    let e = estimator_with(10, &[Ternary::Negative, Ternary::Zero, Ternary::Zero, Ternary::Zero]);
    assert_eq!(e.predict(0), Ternary::Zero);
    assert_eq!(e.predict(1), Ternary::Positive);
}

fn negate(t: Ternary) -> Ternary {
    match t {
        Ternary::Negative => Ternary::Positive,
        Ternary::Zero => Ternary::Zero,
        Ternary::Positive => Ternary::Negative,
    }
}

#[test]
fn prediction_commutes_with_negation() {
    let histories: [&[Ternary]; 4] = [
        &[Ternary::Negative, Ternary::Zero, Ternary::Zero, Ternary::Zero],
        &[Ternary::Zero, Ternary::Positive, Ternary::Zero],
        &[Ternary::Positive],
        &[Ternary::Positive, Ternary::Negative, Ternary::Zero, Ternary::Positive, Ternary::Positive],
    ];
    for h in histories {
        let neg: Vec<Ternary> = h.iter().map(|t| negate(*t)).collect();
        let e = estimator_with(10, h);
        let n = estimator_with(10, &neg);
        for steps in [0, 1, 2, 7, 1000] {
            assert_eq!(n.predict(steps), negate(e.predict(steps)));
        }
    }
}

#[test]
fn history_holds_the_last_window_states() {
    for ws in [0usize, 1, 2, 3, 5] {
        let mut e = HeadingEstimator::new(ws);
        for k in 1..10usize {
            e.observe(Ternary::Zero);
            assert_eq!(e.history_len(), k.min(ws.max(2)));
        }
    }
}

#[test]
fn long_history_is_handled_exactly() {
    // a saw-tooth over many states: the trend is nearly flat and the fit small
    let pattern = [Ternary::Negative, Ternary::Zero, Ternary::Positive];
    let mut e = HeadingEstimator::new(usize::MAX);
    for i in 0..300_000usize {
        e.observe(pattern[i % 3]);
    }
    let (b, r) = e.estimate_heading();
    assert_eq!(b, Bearing::Neutral);
    assert!(r.first.den > 0 && r.second.den > 0);
    let v = value(r);
    assert!((0.0..=1.0).contains(&v));
    assert!(v < 0.01);
    assert_eq!(e.predict(1), Ternary::Zero);
    // the slight upward trend dominates far enough ahead
    assert_eq!(e.predict(usize::MAX - 300_000), Ternary::Positive);
}
