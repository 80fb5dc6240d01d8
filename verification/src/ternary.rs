use vstd::prelude::*;

verus! {

/// A ternary value: Negative (-1), Zero (0), or Positive (+1).
#[derive(Debug, Clone, Copy, PartialEq, Eq, Hash, Structural)]
pub enum Ternary {
    Negative,
    Zero,
    Positive,
}

impl Ternary {
    /// The integer this state stands for.
    pub open spec fn spec_value(self) -> int {
        match self {
            Ternary::Negative => -1,
            Ternary::Zero => 0,
            Ternary::Positive => 1,
        }
    }

    /// The integer value of the state: -1, 0 or +1.
    pub fn value(self) -> (v: i8)
        ensures
            v == self.spec_value(),
    {
        match self {
            Ternary::Negative => -1,
            Ternary::Zero => 0,
            Ternary::Positive => 1,
        }
    }

    /// The state whose value is `v`, if there is one.
    pub open spec fn spec_from_value(v: int) -> Option<Ternary> {
        if v == -1 {
            Some(Ternary::Negative)
        } else if v == 0 {
            Some(Ternary::Zero)
        } else if v == 1 {
            Some(Ternary::Positive)
        } else {
            None
        }
    }

    /// The state whose value is `v`, if `v` is -1, 0 or +1.
    pub fn from_value(v: i8) -> (t: Option<Self>)
        ensures
            t == Ternary::spec_from_value(v as int),
            t matches Some(s) ==> s.spec_value() == v,
            t is None <==> !(-1 <= v <= 1),
    {
        match v {
            -1 => Some(Ternary::Negative),
            0 => Some(Ternary::Zero),
            1 => Some(Ternary::Positive),
            _ => None,
        }
    }
}


/// Reading a state's value back gives the state, and every value that
/// reads back as a state is that state's value.
pub proof fn law_value_roundtrip(t: Ternary, v: int)
    ensures
        Ternary::spec_from_value(t.spec_value()) == Some(t),
        -1 <= t.spec_value() <= 1,
        Ternary::spec_from_value(v) matches Some(s) ==> s.spec_value() == v,
{
}

/// Ternary bearing: the fundamental direction in ternary space.
#[derive(Debug, Clone, Copy, PartialEq, Eq, Structural)]
pub enum Bearing {
    /// Moving toward +1 (positive).
    Approach,
    /// Moving toward -1 (negative).
    Avoid,
    /// Holding at 0 (neutral).
    Neutral,
}

impl Bearing {
    /// The bearing of a change by `delta`: its sign.
    pub open spec fn of_sign(delta: int) -> Bearing {
        if delta > 0 {
            Bearing::Approach
        } else if delta < 0 {
            Bearing::Avoid
        } else {
            Bearing::Neutral
        }
    }

    /// The sign this bearing stands for: +1, -1 or 0.
    pub open spec fn spec_sign(self) -> int {
        match self {
            Bearing::Approach => 1,
            Bearing::Avoid => -1,
            Bearing::Neutral => 0,
        }
    }

    /// The bearing of a state change `delta`: Approach when it is positive,
    /// Avoid when it is negative, Neutral when it is zero.
    pub fn from_delta(delta: i8) -> (b: Self)
        ensures
            b == Bearing::of_sign(delta as int),
            b.spec_sign() == (if delta > 0 { 1int } else if delta < 0 { -1int } else { 0int }),
    {
        if delta > 0 {
            Bearing::Approach
        } else if delta < 0 {
            Bearing::Avoid
        } else {
            Bearing::Neutral
        }
    }

    /// The angle of the bearing: Neutral is 0, Approach is pi/3, Avoid is -pi/3.
    pub fn to_angle(self) -> (a: Angle)
        ensures
            a.pi_num == self.spec_sign(),
            a.pi_den == 3,
    {
        match self {
            Bearing::Approach => Angle { pi_num: 1, pi_den: 3 },
            Bearing::Neutral => Angle { pi_num: 0, pi_den: 3 },
            Bearing::Avoid => Angle { pi_num: -1, pi_den: 3 },
        }
    }
}

/// An angle in radians given exactly as the rational multiple
/// `pi_num / pi_den` of pi.
#[derive(Debug, Clone, Copy, PartialEq, Eq, Structural)]
pub struct Angle {
    pub pi_num: i128,
    pub pi_den: u128,
}

/// A non-negative rational number `num / den`; every ratio the library
/// hands out has a positive denominator.
#[derive(Debug, Clone, Copy, PartialEq, Eq, Structural)]
pub struct Ratio {
    pub num: u128,
    pub den: u128,
}


/// The non-negative rational number `first * second`, the product of two
/// ratios, for quantities whose numerator or denominator alone would not fit
/// in 128 bits.
#[derive(Debug, Clone, Copy, PartialEq, Eq, Structural)]
pub struct RatioProduct {
    pub first: Ratio,
    pub second: Ratio,
}

/// The history that results from appending `x` to `h` and then dropping the
/// oldest entry when the history has grown beyond `w` entries.
pub open spec fn slide<A>(h: Seq<A>, x: A, w: nat) -> Seq<A> {
    if h.len() + 1 > w {
        h.push(x).drop_first()
    } else {
        h.push(x)
    }
}


/// The history after sliding each of `xs`, in order, into `h`.
pub open spec fn slide_all<A>(h: Seq<A>, xs: Seq<A>, w: nat) -> Seq<A>
    decreases xs.len(),
{
    if xs.len() == 0 {
        h
    } else {
        slide(slide_all(h, xs.drop_last(), w), xs.last(), w)
    }
}

/// A window of `w` entries that starts empty holds exactly the last
/// `min(k, w)` of the `k` entries slid into it, oldest first.
pub proof fn law_window_keeps_last<A>(xs: Seq<A>, w: nat)
    ensures
        slide_all(Seq::<A>::empty(), xs, w) == xs.subrange(
            xs.len() - (if xs.len() < w { xs.len() } else { w }),
            xs.len() as int,
        ),
        slide_all(Seq::<A>::empty(), xs, w).len() == (if xs.len() < w { xs.len() } else { w }),
    decreases xs.len(),
{
    let k = xs.len() as int;
    if k > 0 {
        let ys = xs.drop_last();
        law_window_keeps_last(ys, w);
        let prev = slide_all(Seq::<A>::empty(), ys, w);
        let m = if ys.len() < w { ys.len() as int } else { w as int };
        assert(prev == xs.subrange(k - 1 - m, k - 1));
        if prev.len() + 1 > w {
            assert(prev.push(xs.last()).drop_first() =~= xs.subrange(k - w, k));
        } else {
            assert(prev.push(xs.last()) =~= xs.subrange(0, k));
        }
    } else {
        assert(xs.subrange(0, 0) =~= Seq::<A>::empty());
    }
}

} // verus!
