use vstd::prelude::*;
use crate::ternary::{Angle, Ternary};

verus! {

/// The 8 principal directions of the ternary compass.
///
/// ```text
///        NNE (++)
///   NE (+0)   E (+-)
/// NW (0+)  ⬡  SE (-+)
///   W (0-)   SW (-0)
///        SSW (--)
/// ```
#[derive(Debug, Clone, Copy, PartialEq, Eq, Hash, Structural)]
pub enum TernaryDirection {
    /// +1, +1 (strong approach)
    NorthNorthEast,
    /// +1, 0 (approach-neutral)
    NorthEast,
    /// +1, -1 (approach-avoid, mixed)
    East,
    /// 0, +1 (neutral-approach)
    NorthWest,
    /// 0, -1 (neutral-avoid)
    SouthEast,
    /// -1, +1 (avoid-approach, mixed)
    West,
    /// -1, 0 (avoid-neutral)
    SouthWest,
    /// -1, -1 (strong avoid)
    SouthSouthWest,
}

/// The state with the opposite value.
pub open spec fn negate(t: Ternary) -> Ternary {
    match t {
        Ternary::Negative => Ternary::Positive,
        Ternary::Zero => Ternary::Zero,
        Ternary::Positive => Ternary::Negative,
    }
}

impl TernaryDirection {
    /// The pair of ternary values that the direction stands for.
    pub open spec fn components(self) -> (Ternary, Ternary) {
        match self {
            TernaryDirection::NorthNorthEast => (Ternary::Positive, Ternary::Positive),
            TernaryDirection::NorthEast => (Ternary::Positive, Ternary::Zero),
            TernaryDirection::East => (Ternary::Positive, Ternary::Negative),
            TernaryDirection::NorthWest => (Ternary::Zero, Ternary::Positive),
            TernaryDirection::SouthEast => (Ternary::Zero, Ternary::Negative),
            TernaryDirection::West => (Ternary::Negative, Ternary::Positive),
            TernaryDirection::SouthWest => (Ternary::Negative, Ternary::Zero),
            TernaryDirection::SouthSouthWest => (Ternary::Negative, Ternary::Negative),
        }
    }

    /// The direction's angle in eighths of pi.
    pub open spec fn eighths(self) -> int {
        match self {
            TernaryDirection::NorthNorthEast => 2,
            TernaryDirection::NorthEast => 3,
            TernaryDirection::East => 4,
            TernaryDirection::NorthWest => -1,
            TernaryDirection::SouthEast => 6,
            TernaryDirection::West => -4,
            TernaryDirection::SouthWest => -3,
            TernaryDirection::SouthSouthWest => -2,
        }
    }
}

/// The direction of the pair `(a, b)`; none for `(0, 0)`.
pub open spec fn direction_of(a: Ternary, b: Ternary) -> Option<TernaryDirection> {
    match (a, b) {
        (Ternary::Positive, Ternary::Positive) => Some(TernaryDirection::NorthNorthEast),
        (Ternary::Positive, Ternary::Zero) => Some(TernaryDirection::NorthEast),
        (Ternary::Positive, Ternary::Negative) => Some(TernaryDirection::East),
        (Ternary::Zero, Ternary::Positive) => Some(TernaryDirection::NorthWest),
        (Ternary::Zero, Ternary::Negative) => Some(TernaryDirection::SouthEast),
        (Ternary::Negative, Ternary::Positive) => Some(TernaryDirection::West),
        (Ternary::Negative, Ternary::Zero) => Some(TernaryDirection::SouthWest),
        (Ternary::Negative, Ternary::Negative) => Some(TernaryDirection::SouthSouthWest),
        (Ternary::Zero, Ternary::Zero) => None,
    }
}

/// The direction opposite to `d`.
pub open spec fn opposite_of(d: TernaryDirection) -> TernaryDirection {
    match d {
        TernaryDirection::NorthNorthEast => TernaryDirection::SouthSouthWest,
        TernaryDirection::NorthEast => TernaryDirection::SouthWest,
        TernaryDirection::East => TernaryDirection::West,
        TernaryDirection::NorthWest => TernaryDirection::SouthEast,
        TernaryDirection::SouthEast => TernaryDirection::NorthWest,
        TernaryDirection::West => TernaryDirection::East,
        TernaryDirection::SouthWest => TernaryDirection::NorthEast,
        TernaryDirection::SouthSouthWest => TernaryDirection::NorthNorthEast,
    }
}

/// The eight directions in their canonical order.
pub open spec fn canonical_directions() -> Seq<TernaryDirection> {
    seq![
        TernaryDirection::NorthNorthEast,
        TernaryDirection::NorthEast,
        TernaryDirection::East,
        TernaryDirection::NorthWest,
        TernaryDirection::SouthEast,
        TernaryDirection::West,
        TernaryDirection::SouthWest,
        TernaryDirection::SouthSouthWest,
    ]
}

/// An 8-directional ternary compass rose.
pub struct CompassRose;

impl CompassRose {
    /// The direction of a pair of ternary values (a 2D bearing); the pair
    /// (0, 0) has no direction.
    pub fn direction(a: Ternary, b: Ternary) -> (d: Option<TernaryDirection>)
        ensures
            d == direction_of(a, b),
            d is None <==> (a == Ternary::Zero && b == Ternary::Zero),
            d matches Some(dir) ==> dir.components() == (a, b),
    {
        match (a, b) {
            (Ternary::Positive, Ternary::Positive) => Some(TernaryDirection::NorthNorthEast),
            (Ternary::Positive, Ternary::Zero) => Some(TernaryDirection::NorthEast),
            (Ternary::Positive, Ternary::Negative) => Some(TernaryDirection::East),
            (Ternary::Zero, Ternary::Positive) => Some(TernaryDirection::NorthWest),
            (Ternary::Zero, Ternary::Negative) => Some(TernaryDirection::SouthEast),
            (Ternary::Negative, Ternary::Positive) => Some(TernaryDirection::West),
            (Ternary::Negative, Ternary::Zero) => Some(TernaryDirection::SouthWest),
            (Ternary::Negative, Ternary::Negative) => Some(TernaryDirection::SouthSouthWest),
            (Ternary::Zero, Ternary::Zero) => None,
        }
    }

    /// All 8 directions.
    pub fn all_directions() -> (v: Vec<TernaryDirection>)
        ensures
            v@ == canonical_directions(),
    {
        let v = vec![
            TernaryDirection::NorthNorthEast,
            TernaryDirection::NorthEast,
            TernaryDirection::East,
            TernaryDirection::NorthWest,
            TernaryDirection::SouthEast,
            TernaryDirection::West,
            TernaryDirection::SouthWest,
            TernaryDirection::SouthSouthWest,
        ];
        assert(v@ =~= canonical_directions());
        v
    }

    /// The opposite direction: both components negated.
    pub fn opposite(dir: TernaryDirection) -> (o: TernaryDirection)
        ensures
            o == opposite_of(dir),
            o.components() == (negate(dir.components().0), negate(dir.components().1)),
    {
        match dir {
            TernaryDirection::NorthNorthEast => TernaryDirection::SouthSouthWest,
            TernaryDirection::NorthEast => TernaryDirection::SouthWest,
            TernaryDirection::East => TernaryDirection::West,
            TernaryDirection::NorthWest => TernaryDirection::SouthEast,
            TernaryDirection::SouthEast => TernaryDirection::NorthWest,
            TernaryDirection::West => TernaryDirection::East,
            TernaryDirection::SouthWest => TernaryDirection::NorthEast,
            TernaryDirection::SouthSouthWest => TernaryDirection::NorthNorthEast,
        }
    }

    /// The direction's angle: a multiple of pi/8 between -pi/2 and 3pi/4.
    pub fn to_angle(dir: TernaryDirection) -> (a: Angle)
        ensures
            a.pi_num == dir.eighths(),
            a.pi_den == 8,
    {
        let k: i128 = match dir {
            TernaryDirection::NorthNorthEast => 2,
            TernaryDirection::NorthEast => 3,
            TernaryDirection::East => 4,
            TernaryDirection::NorthWest => -1,
            TernaryDirection::SouthEast => 6,
            TernaryDirection::West => -4,
            TernaryDirection::SouthWest => -3,
            TernaryDirection::SouthSouthWest => -2,
        };
        Angle { pi_num: k, pi_den: 8 }
    }
}

/// Opposite directions come in pairs: the opposite of the opposite is the
/// direction itself, and no direction is its own opposite.
pub proof fn law_opposite_involution(d: TernaryDirection)
    ensures
        opposite_of(opposite_of(d)) == d,
        opposite_of(d) != d,
{
}

/// Negating both components of a pair turns its direction into the
/// opposite direction.
pub proof fn law_opposite_negates(a: Ternary, b: Ternary)
    ensures
        direction_of(negate(a), negate(b)) == (match direction_of(a, b) {
            Some(d) => Some(opposite_of(d)),
            None => None,
        }),
{
}

/// Every direction is the direction of its components, and distinct pairs
/// other than (0, 0) have distinct directions.
pub proof fn law_direction_bijective(d: TernaryDirection, a: Ternary, b: Ternary, c: Ternary, e: Ternary)
    ensures
        direction_of(d.components().0, d.components().1) == Some(d),
        direction_of(a, b) is Some && direction_of(a, b) == direction_of(c, e) ==> a == c && b == e,
{
}

/// The canonical list holds every direction exactly once.
pub proof fn law_all_directions_complete(d: TernaryDirection)
    ensures
        canonical_directions().len() == 8,
        canonical_directions().contains(d),
        forall|i: int, j: int|
            0 <= i < j < 8 ==> canonical_directions()[i] != canonical_directions()[j],
{
    let s = canonical_directions();
    match d {
        TernaryDirection::NorthNorthEast => assert(s[0] == d),
        TernaryDirection::NorthEast => assert(s[1] == d),
        TernaryDirection::East => assert(s[2] == d),
        TernaryDirection::NorthWest => assert(s[3] == d),
        TernaryDirection::SouthEast => assert(s[4] == d),
        TernaryDirection::West => assert(s[5] == d),
        TernaryDirection::SouthWest => assert(s[6] == d),
        TernaryDirection::SouthSouthWest => assert(s[7] == d),
    }
}

} // verus!
