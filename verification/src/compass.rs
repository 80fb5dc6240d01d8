use vstd::prelude::*;
use crate::ternary::{Bearing, Ratio, Ternary, slide};

verus! {

/// How many entries of `s` equal `b`.
pub open spec fn count(s: Seq<Bearing>, b: Bearing) -> nat
    decreases s.len(),
{
    if s.len() == 0 {
        0
    } else {
        count(s.drop_last(), b) + (if s.last() == b { 1nat } else { 0nat })
    }
}

/// The majority bearing of `s`; ties go to Approach, then to Avoid.
pub open spec fn majority(s: Seq<Bearing>) -> Bearing {
    let a = count(s, Bearing::Approach);
    let v = count(s, Bearing::Avoid);
    let z = count(s, Bearing::Neutral);
    if a >= v && a >= z {
        Bearing::Approach
    } else if v >= a && v >= z {
        Bearing::Avoid
    } else {
        Bearing::Neutral
    }
}

proof fn lemma_count_bounded(s: Seq<Bearing>, b: Bearing)
    ensures
        count(s, b) <= s.len(),
    decreases s.len(),
{
    if s.len() > 0 {
        lemma_count_bounded(s.drop_last(), b);
    }
}

proof fn lemma_counts_partition(s: Seq<Bearing>)
    ensures
        count(s, Bearing::Approach) + count(s, Bearing::Avoid) + count(s, Bearing::Neutral)
            == s.len(),
    decreases s.len(),
{
    if s.len() > 0 {
        lemma_counts_partition(s.drop_last());
    }
}

/// The majority bearing holds at least a third of the history and at most
/// all of it, so the compass confidence after an update that keeps a
/// non-empty history lies between 1/3 and 1.
pub proof fn law_majority_share(s: Seq<Bearing>)
    ensures
        count(s, majority(s)) <= s.len(),
        3 * count(s, majority(s)) >= s.len(),
{
    lemma_counts_partition(s);
    lemma_count_bounded(s, majority(s));
}

/// The majority bearing is a most frequent bearing of the history, and ties
/// are broken in the order Approach, Avoid, Neutral: Approach wins whenever
/// no bearing is more frequent than it, Avoid whenever it is more frequent
/// than Approach and no less frequent than Neutral, and Neutral only when it
/// is strictly more frequent than both others.
pub proof fn law_majority_is_most_frequent(s: Seq<Bearing>, b: Bearing)
    ensures
        count(s, majority(s)) >= count(s, b),
        count(s, Bearing::Approach) >= count(s, Bearing::Avoid) && count(s, Bearing::Approach)
            >= count(s, Bearing::Neutral) ==> majority(s) == Bearing::Approach,
        count(s, Bearing::Avoid) > count(s, Bearing::Approach) && count(s, Bearing::Avoid) >= count(
            s,
            Bearing::Neutral,
        ) ==> majority(s) == Bearing::Avoid,
        majority(s) == Bearing::Neutral ==> count(s, Bearing::Neutral) > count(
            s,
            Bearing::Approach,
        ) && count(s, Bearing::Neutral) > count(s, Bearing::Avoid),
{
}

/// Navigational instrument for ternary state space.
/// Tracks current bearing and orientation based on state transitions.
#[derive(Debug)]
pub struct Compass {
    /// Current bearing.
    bearing: Bearing,
    /// Confidence in the current bearing.
    confidence: Ratio,
    /// History of recent bearings for smoothing, oldest first.
    history: Vec<Bearing>,
    /// Maximum history length.
    history_len: usize,
}

impl Clone for Compass {
    /// A compass with the same bearing, confidence, history and window.
    fn clone(&self) -> (c: Self)
        ensures
            c.current() == self.current(),
            c.certainty() == self.certainty(),
            c.history() == self.history(),
            c.window() == self.window(),
    {
        proof {
            use_type_invariant(self);
        }
        Compass {
            bearing: self.bearing,
            confidence: self.confidence,
            history: vstd::slice::slice_to_vec(self.history.as_slice()),
            history_len: self.history_len,
        }
    }
}

impl Compass {
    #[verifier::type_invariant]
    spec fn history_fits(self) -> bool {
        self.history@.len() <= self.history_len
    }

    /// The current bearing.
    pub closed spec fn current(self) -> Bearing {
        self.bearing
    }

    /// The current confidence.
    pub closed spec fn certainty(self) -> Ratio {
        self.confidence
    }

    /// The recent bearings, oldest first.
    pub closed spec fn history(self) -> Seq<Bearing> {
        self.history@
    }

    /// The number of recent bearings that are kept.
    pub closed spec fn window(self) -> nat {
        self.history_len as nat
    }

    /// A compass that keeps the last `history_len` bearings, pointing
    /// Neutral with full confidence.
    pub fn new(history_len: usize) -> (c: Self)
        ensures
            c.current() == Bearing::Neutral,
            c.certainty() == (Ratio { num: 1, den: 1 }),
            c.history() == Seq::<Bearing>::empty(),
            c.window() == history_len,
    {
        Compass {
            bearing: Bearing::Neutral,
            confidence: Ratio { num: 1, den: 1 },
            history: Vec::new(),
            history_len,
        }
    }

    /// Update the compass with the transition from `from` to `to`: the
    /// bearing of the change joins the history, and the compass points to
    /// the majority bearing of the history, with the share of that bearing
    /// in the history as confidence. A compass whose window keeps nothing
    /// has no evidence for its bearing: its confidence is 0.
    pub fn update(&mut self, from: Ternary, to: Ternary)
        ensures
            final(self).window() == old(self).window(),
            final(self).history() == slide(
                old(self).history(),
                Bearing::of_sign(to.spec_value() - from.spec_value()),
                old(self).window(),
            ),
            final(self).history().len() <= final(self).window(),
            final(self).current() == majority(final(self).history()),
            final(self).history().len() > 0 ==> final(self).certainty().num == count(
                final(self).history(),
                final(self).current(),
            ) && final(self).certainty().den == final(self).history().len(),
            final(self).history().len() == 0 ==> final(self).certainty() == (Ratio {
                num: 0,
                den: 1,
            }),
            forall|b: Bearing|
                count(final(self).history(), final(self).current()) >= #[trigger] count(
                    final(self).history(),
                    b,
                ),
            0 < final(self).certainty().den,
            final(self).certainty().num <= final(self).certainty().den,
    {
        proof {
            use_type_invariant(&*self);
        }
        let delta = to.value() - from.value();
        let new_bearing = Bearing::from_delta(delta);
        let mut h: Vec<Bearing> = Vec::new();
        std::mem::swap(&mut h, &mut self.history);
        h.push(new_bearing);
        if h.len() > self.history_len {
            h.remove(0);
        }
        let n = h.len();
        let mut approach: usize = 0;
        let mut avoid: usize = 0;
        let mut neutral: usize = 0;
        let mut i: usize = 0;
        while i < n
            invariant
                n == h@.len(),
                n <= self.history_len,
                0 <= i <= n,
                approach == count(h@.take(i as int), Bearing::Approach),
                avoid == count(h@.take(i as int), Bearing::Avoid),
                neutral == count(h@.take(i as int), Bearing::Neutral),
            decreases n - i,
        {
            proof {
                assert(h@.take(i + 1).drop_last() =~= h@.take(i as int));
                lemma_count_bounded(h@.take(i as int), Bearing::Approach);
                lemma_count_bounded(h@.take(i as int), Bearing::Avoid);
                lemma_count_bounded(h@.take(i as int), Bearing::Neutral);
            }
            match h[i] {
                Bearing::Approach => approach = approach + 1,
                Bearing::Avoid => avoid = avoid + 1,
                Bearing::Neutral => neutral = neutral + 1,
            }
            i = i + 1;
        }
        assert(h@.take(n as int) =~= h@);
        let (bearing, winner) = if approach >= avoid && approach >= neutral {
            (Bearing::Approach, approach)
        } else if avoid >= approach && avoid >= neutral {
            (Bearing::Avoid, avoid)
        } else {
            (Bearing::Neutral, neutral)
        };
        self.history = h;
        self.bearing = bearing;
        proof {
            lemma_count_bounded(h@, bearing);
        }
        self.confidence = if n == 0 {
            Ratio { num: 0, den: 1 }
        } else {
            Ratio { num: winner as u128, den: n as u128 }
        };
    }

    /// The current bearing.
    pub fn bearing(&self) -> (b: Bearing)
        ensures
            b == self.current(),
    {
        self.bearing
    }

    /// The current confidence.
    pub fn confidence(&self) -> (r: Ratio)
        ensures
            r == self.certainty(),
    {
        self.confidence
    }

    /// Reset the compass: Neutral with full confidence and no history.
    pub fn reset(&mut self)
        ensures
            final(self).current() == Bearing::Neutral,
            final(self).certainty() == (Ratio { num: 1, den: 1 }),
            final(self).history() == Seq::<Bearing>::empty(),
            final(self).window() == old(self).window(),
    {
        proof {
            use_type_invariant(&*self);
        }
        self.bearing = Bearing::Neutral;
        self.confidence = Ratio { num: 1, den: 1 };
        self.history = Vec::new();
    }
}

} // verus!
