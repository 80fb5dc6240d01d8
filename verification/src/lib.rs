//! Orientation and direction in ternary state space: compass bearings,
//! angular measurement in exact multiples of pi, heading estimation by
//! least-squares trend, and detection of anomalous transitions.
//!
//! Every quantity here is computed exactly: angles are rational multiples
//! of pi and confidences are rational numbers.

pub mod ternary;
pub mod heading;
pub mod compass;
pub mod sextant;
pub mod rose;
pub mod anomaly;
pub mod wide;

pub use anomaly::{AnomalyDetector, AnomalyKind, MagneticAnomaly};
pub use compass::Compass;
pub use heading::HeadingEstimator;
pub use rose::{CompassRose, TernaryDirection};
pub use sextant::Sextant;
pub use ternary::{Angle, Bearing, Ratio, Ternary};
