# ternary_compass

Orientation and direction in ternary {-1, 0, +1} state space, verified with
Verus.

- `src/ternary.rs`: `Ternary`, `Bearing`, exact angles (`Angle`, a rational
  multiple of pi) and ratios (`Ratio`).
- `src/compass.rs`: `Compass`, majority vote over a sliding window of bearings.
- `src/heading.rs`: `HeadingEstimator`, least-squares trend of recent states,
  computed exactly; the laws on the fit (it never exceeds 1) and on constant
  histories are proved here.
- `src/sextant.rs`: angles travelled along paths and their straightness.
- `src/rose.rs`: the eight-point compass rose.
- `src/anomaly.rs`: reversal, stagnation, oscillation and jump detection.
- `app/lib.rs`: the floating-point face: radians and confidences as `f64`,
  the gyroscope's exponential smoothing, and sensitivity-scaled anomaly
  strengths.
