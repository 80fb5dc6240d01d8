use vstd::prelude::*;
use crate::ternary::{Angle, Ratio, Ternary};

verus! {

/// Number of sixths of a half turn (units of pi/3) between the states `a`
/// and `b`: `|b - a|`.
pub open spec fn gap(a: Ternary, b: Ternary) -> nat {
    let d = b.spec_value() - a.spec_value();
    if d < 0 {
        (-d) as nat
    } else {
        d as nat
    }
}

/// Sum of the gaps between consecutive states of `s`, in units of pi/3.
pub open spec fn traversal(s: Seq<Ternary>) -> nat
    decreases s.len(),
{
    if s.len() < 2 {
        0
    } else {
        traversal(s.drop_last()) + gap(s[s.len() - 2], s.last())
    }
}

/// A path never travels less than the angle between its ends, so the
/// straightness of a path is at most 1.
pub proof fn law_traversal_covers_ends(s: Seq<Ternary>)
    requires
        s.len() >= 1,
    ensures
        gap(s[0], s.last()) <= traversal(s),
    decreases s.len(),
{
    if s.len() >= 2 {
        let t = s.drop_last();
        law_traversal_covers_ends(t);
        assert(t[0] == s[0]);
        assert(t.last() == s[s.len() - 2]);
    }
}

/// The angle between two states does not depend on their order, and a
/// state is at angle zero from itself.
pub proof fn law_angle_symmetric(a: Ternary, b: Ternary)
    ensures
        gap(a, b) == gap(b, a),
        gap(a, a) == 0,
        gap(a, b) == 0 <==> a == b,
        gap(a, b) <= 2,
{
}

proof fn lemma_traversal_bounded(s: Seq<Ternary>)
    ensures
        s.len() >= 1 ==> traversal(s) <= 2 * (s.len() - 1),
    decreases s.len(),
{
    if s.len() >= 2 {
        lemma_traversal_bounded(s.drop_last());
    }
}

/// Measures angles between ternary states. States are points on a circle:
/// -1 at angle -pi/3, 0 at angle 0, +1 at angle +pi/3.
pub struct Sextant;

impl Sextant {
    /// The angle between two states: `|b - a| * pi / 3`.
    pub fn angle_between(a: Ternary, b: Ternary) -> (r: Angle)
        ensures
            r.pi_num == gap(a, b),
            r.pi_den == 3,
    {
        let d = b.value() - a.value();
        let k: i128 = if d < 0 {
            -(d as i128)
        } else {
            d as i128
        };
        Angle { pi_num: k, pi_den: 3 }
    }

    fn traversal_units(states: &[Ternary]) -> (k: u128)
        ensures
            k == traversal(states@),
    {
        let n = states.len();
        if n < 2 {
            return 0;
        }
        let mut total: u128 = 0;
        let mut i: usize = 1;
        while i < n
            invariant
                n == states@.len(),
                1 <= i <= n,
                total == traversal(states@.take(i as int)),
                total <= 2 * (i - 1),
            decreases n - i,
        {
            proof {
                let t = states@.take(i + 1);
                assert(t.drop_last() =~= states@.take(i as int));
                assert(t[t.len() - 2] == states@[i - 1]);
                assert(t.last() == states@[i as int]);
            }
            let d = states[i].value() - states[i - 1].value();
            let g: u128 = if d < 0 {
                (-d) as u128
            } else {
                d as u128
            };
            total = total + g;
            i = i + 1;
        }
        assert(states@.take(n as int) =~= states@);
        total
    }

    /// The angle travelled along a sequence of states: the sum of the
    /// angles between consecutive states.
    pub fn total_traversal(states: &[Ternary]) -> (r: Angle)
        ensures
            r.pi_num == traversal(states@),
            r.pi_den == 3,
    {
        let n = states.len();
        let k = Self::traversal_units(states);
        proof {
            lemma_traversal_bounded(states@);
        }
        assert(k <= 2 * n);
        Angle { pi_num: k as i128, pi_den: 3 }
    }

    /// The average angle between consecutive states; zero for fewer than
    /// two states.
    pub fn average_angle(states: &[Ternary]) -> (r: Angle)
        ensures
            states@.len() < 2 ==> r.pi_num == 0 && r.pi_den == 1,
            states@.len() >= 2 ==> r.pi_num == traversal(states@) && r.pi_den == 3 * (
            states@.len() - 1),
    {
        let n = states.len();
        if n < 2 {
            return Angle { pi_num: 0, pi_den: 1 };
        }
        let k = Self::traversal_units(states);
        proof {
            lemma_traversal_bounded(states@);
        }
        Angle { pi_num: k as i128, pi_den: 3 * ((n - 1) as u128) }
    }

    /// The straightness of a path: the angle between its ends over the
    /// angle travelled (1 = perfectly straight, 0 = back where it started).
    /// Paths of fewer than two states, and paths that never move, are
    /// perfectly straight.
    pub fn straightness(states: &[Ternary]) -> (r: Ratio)
        ensures
            states@.len() < 2 || traversal(states@) == 0 ==> r == (Ratio { num: 1, den: 1 }),
            states@.len() >= 2 && traversal(states@) > 0 ==> r.num == gap(states@[0], states@.last())
                && r.den == traversal(states@),
            r.num <= r.den,
    {
        let n = states.len();
        if n < 2 {
            return Ratio { num: 1, den: 1 };
        }
        let k = Self::traversal_units(states);
        if k == 0 {
            return Ratio { num: 1, den: 1 };
        }
        let d = states[n - 1].value() - states[0].value();
        let net: u128 = if d < 0 {
            (-d) as u128
        } else {
            d as u128
        };
        proof {
            law_traversal_covers_ends(states@);
        }
        Ratio { num: net, den: k }
    }
}

} // verus!
