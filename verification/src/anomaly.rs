use vstd::prelude::*;
use crate::ternary::Ternary;

verus! {

/// Classification of ternary state space anomalies.
#[derive(Debug, Clone, Copy, PartialEq, Eq, Structural)]
pub enum AnomalyKind {
    /// Sudden reversal of direction.
    Reversal,
    /// Oscillating between states.
    Oscillation,
    /// State frozen at one value.
    Stagnation,
    /// Transition that violates expected patterns.
    UnexpectedTransition,
}

/// The share of `1 - sensitivity` below which no anomaly is reported, in
/// tenths.
pub const REPORT_FLOOR_TENTHS: u8 = 1;

impl AnomalyKind {
    /// The strength of an anomaly of this kind, as a multiple of
    /// `1 - sensitivity`, in tenths.
    pub fn weight_tenths(&self) -> (w: u8)
        ensures
            w == (match *self {
                AnomalyKind::Reversal => 10u8,
                AnomalyKind::Stagnation => 5u8,
                AnomalyKind::Oscillation => 7u8,
                AnomalyKind::UnexpectedTransition => 6u8,
            }),
    {
        match self {
            AnomalyKind::Reversal => 10,
            AnomalyKind::Stagnation => 5,
            AnomalyKind::Oscillation => 7,
            AnomalyKind::UnexpectedTransition => 6,
        }
    }

    /// The strength, in hundredths, that an anomaly of this kind must
    /// exceed to be recorded when it is found; oscillations are always
    /// recorded.
    pub fn gate_hundredths(&self) -> (g: Option<u8>)
        ensures
            g == (match *self {
                AnomalyKind::Reversal => Some(20u8),
                AnomalyKind::Stagnation => Some(10u8),
                AnomalyKind::Oscillation => None,
                AnomalyKind::UnexpectedTransition => Some(15u8),
            }),
    {
        match self {
            AnomalyKind::Reversal => Some(20),
            AnomalyKind::Stagnation => Some(10),
            AnomalyKind::Oscillation => None,
            AnomalyKind::UnexpectedTransition => Some(15),
        }
    }
}

/// A distortion detected in ternary state space.
#[derive(Debug, Clone)]
pub struct MagneticAnomaly {
    /// Position in state space where the anomaly was detected.
    pub position: Vec<Ternary>,
    /// What kind of anomaly was detected.
    pub kind: AnomalyKind,
}

/// Element `i` swung across zero, from -1 to +1 or from +1 to -1.
pub open spec fn swung(prev: Seq<Ternary>, cur: Seq<Ternary>, i: int) -> bool {
    cur[i].spec_value() - prev[i].spec_value() == 2 || cur[i].spec_value() - prev[i].spec_value()
        == -2
}

/// Every element flipped to the opposite non-zero value.
pub open spec fn all_reversed(prev: Seq<Ternary>, cur: Seq<Ternary>) -> bool {
    forall|i: int|
        0 <= i < cur.len() ==> cur[i].spec_value() == -prev[i].spec_value() && cur[i].spec_value()
            != 0
}

/// How many of the first `k` elements swung across zero.
pub open spec fn swing_count(prev: Seq<Ternary>, cur: Seq<Ternary>, k: int) -> nat
    decreases k,
{
    if k <= 0 {
        0
    } else {
        swing_count(prev, cur, k - 1) + (if swung(prev, cur, k - 1) { 1nat } else { 0nat })
    }
}

/// `seq![x]` when `b` holds, the empty sequence otherwise.
pub open spec fn when(b: bool, x: AnomalyKind) -> Seq<AnomalyKind> {
    if b {
        seq![x]
    } else {
        Seq::empty()
    }
}

/// The kinds of anomaly in the step from `prev` to `cur`, in the order
/// Reversal, Stagnation, Oscillation, UnexpectedTransition. There are none
/// without a previous state, or when its length differs.
pub open spec fn detected(prev: Option<Seq<Ternary>>, cur: Seq<Ternary>) -> Seq<AnomalyKind> {
    match prev {
        None => Seq::empty(),
        Some(p) => if p.len() != cur.len() {
            Seq::empty()
        } else {
            when(all_reversed(p, cur) && cur.len() > 0, AnomalyKind::Reversal) + when(
                cur == p,
                AnomalyKind::Stagnation,
            ) + when(swing_count(p, cur, cur.len() as int) > cur.len() / 2, AnomalyKind::Oscillation)
                + when(
                exists|i: int| 0 <= i < cur.len() && swung(p, cur, i),
                AnomalyKind::UnexpectedTransition,
            )
        },
    }
}

/// Nothing is reported without a previous state to compare with: the first
/// scan after creation or reset finds no anomaly.
pub proof fn law_first_scan_quiet(cur: Seq<Ternary>)
    ensures
        detected(None, cur) == Seq::<AnomalyKind>::empty(),
{
}

/// A state scanned twice is stagnant and nothing else.
pub proof fn law_repeat_is_stagnation(p: Seq<Ternary>)
    ensures
        detected(Some(p), p) == seq![AnomalyKind::Stagnation],
{
    assert forall|i: int| 0 <= i < p.len() implies !swung(p, p, i) by {}
    lemma_no_swings(p, p, p.len() as int);
    if p.len() > 0 {
        assert(!(p[0].spec_value() == -p[0].spec_value() && p[0].spec_value() != 0));
        assert(!all_reversed(p, p));
    }
    assert(detected(Some(p), p) =~= seq![AnomalyKind::Stagnation]);
}

/// A full reversal of a non-empty state is also an oscillation and an
/// unexpected transition, and never a stagnation.
pub proof fn law_reversal_swings(p: Seq<Ternary>, cur: Seq<Ternary>)
    requires
        p.len() == cur.len(),
        cur.len() > 0,
        all_reversed(p, cur),
    ensures
        detected(Some(p), cur) == seq![
            AnomalyKind::Reversal,
            AnomalyKind::Oscillation,
            AnomalyKind::UnexpectedTransition,
        ],
{
    assert forall|i: int| 0 <= i < cur.len() implies swung(p, cur, i) by {}
    lemma_all_swing(p, cur, cur.len() as int);
    assert(swung(p, cur, 0));
    assert(cur[0] != p[0]);
    assert(cur != p);
    assert(detected(Some(p), cur) =~= seq![
        AnomalyKind::Reversal,
        AnomalyKind::Oscillation,
        AnomalyKind::UnexpectedTransition,
    ]);
}

proof fn lemma_no_swings(p: Seq<Ternary>, cur: Seq<Ternary>, k: int)
    requires
        forall|i: int| 0 <= i < k ==> !swung(p, cur, i),
    ensures
        swing_count(p, cur, k) == 0,
    decreases k,
{
    if k > 0 {
        lemma_no_swings(p, cur, k - 1);
    }
}

proof fn lemma_all_swing(p: Seq<Ternary>, cur: Seq<Ternary>, k: int)
    requires
        k >= 0,
        forall|i: int| 0 <= i < k ==> swung(p, cur, i),
    ensures
        swing_count(p, cur, k) == k,
    decreases k,
{
    if k > 0 {
        lemma_all_swing(p, cur, k - 1);
    }
}

/// States of different lengths are not compared: such a step reports
/// nothing.
pub proof fn law_length_change_quiet(p: Seq<Ternary>, cur: Seq<Ternary>)
    requires
        p.len() != cur.len(),
    ensures
        detected(Some(p), cur) == Seq::<AnomalyKind>::empty(),
{
}

/// The swing count starts at zero and grows by one exactly at each element
/// that jumped from -1 to +1 or from +1 to -1, so it is the number of such
/// elements.
pub proof fn law_swing_count_counts_jumps(p: Seq<Ternary>, cur: Seq<Ternary>, k: int)
    requires
        0 < k,
    ensures
        swing_count(p, cur, 0) == 0,
        swing_count(p, cur, k) == swing_count(p, cur, k - 1) + (if cur[k - 1].spec_value()
            - p[k - 1].spec_value() == 2 || cur[k - 1].spec_value() - p[k - 1].spec_value() == -2 {
            1int
        } else {
            0int
        }),
        swing_count(p, cur, k) <= k,
    decreases k,
{
    if k > 1 {
        law_swing_count_counts_jumps(p, cur, k - 1);
    }
}

/// The position of a kind in the order in which a scan reports kinds.
pub open spec fn rank(k: AnomalyKind) -> int {
    match k {
        AnomalyKind::Reversal => 0,
        AnomalyKind::Stagnation => 1,
        AnomalyKind::Oscillation => 2,
        AnomalyKind::UnexpectedTransition => 3,
    }
}

proof fn lemma_append_when(a: Seq<AnomalyKind>, c: bool, x: AnomalyKind, y: AnomalyKind)
    ensures
        (a + when(c, x)).contains(y) <==> a.contains(y) || (c && y == x),
        (a + when(c, x)).len() == a.len() + (if c { 1int } else { 0int }),
        forall|i: int| 0 <= i < a.len() ==> (a + when(c, x))[i] == a[i],
        c ==> (a + when(c, x))[a.len() as int] == x,
{
    let r = a + when(c, x);
    if r.contains(y) {
        let i = choose|i: int| 0 <= i < r.len() && r[i] == y;
        if i < a.len() {
            assert(a[i] == y);
        }
    }
    if a.contains(y) {
        let i = choose|i: int| 0 <= i < a.len() && a[i] == y;
        assert(r[i] == y);
    }
    if c && y == x {
        assert(r[a.len() as int] == y);
    }
}

/// A step between states of equal length reports:
/// - Reversal exactly when the state is non-empty and every element flipped
///   to the opposite non-zero value;
/// - Stagnation exactly when every element is unchanged;
/// - Oscillation exactly when more than half of the elements swung across
///   zero;
/// - UnexpectedTransition exactly when some element jumped from -1 to +1 or
///   from +1 to -1;
/// each at most once, in that order.
pub proof fn law_detected_kinds(p: Seq<Ternary>, cur: Seq<Ternary>, y: AnomalyKind)
    requires
        p.len() == cur.len(),
    ensures
        detected(Some(p), cur).contains(AnomalyKind::Reversal) <==> cur.len() > 0 && forall|i: int|
            0 <= i < cur.len() ==> cur[i].spec_value() == -p[i].spec_value() && cur[i].spec_value()
                != 0,
        detected(Some(p), cur).contains(AnomalyKind::Stagnation) <==> forall|i: int|
            0 <= i < cur.len() ==> cur[i] == p[i],
        detected(Some(p), cur).contains(AnomalyKind::Oscillation) <==> 2 * swing_count(
            p,
            cur,
            cur.len() as int,
        ) > cur.len(),
        detected(Some(p), cur).contains(AnomalyKind::UnexpectedTransition) <==> exists|i: int|
            0 <= i < cur.len() && (cur[i].spec_value() - p[i].spec_value() == 2 || cur[i].spec_value()
                - p[i].spec_value() == -2),
        forall|i: int, j: int|
            0 <= i < j < detected(Some(p), cur).len() ==> rank(detected(Some(p), cur)[i]) < rank(
                detected(Some(p), cur)[j],
            ),
{
    let c1 = all_reversed(p, cur) && cur.len() > 0;
    let c2 = cur == p;
    let c3 = swing_count(p, cur, cur.len() as int) > cur.len() / 2;
    let c4 = exists|i: int| 0 <= i < cur.len() && swung(p, cur, i);
    let e: Seq<AnomalyKind> = Seq::empty();
    let r1 = e + when(c1, AnomalyKind::Reversal);
    let r2 = r1 + when(c2, AnomalyKind::Stagnation);
    let r3 = r2 + when(c3, AnomalyKind::Oscillation);
    let r4 = r3 + when(c4, AnomalyKind::UnexpectedTransition);
    assert(when(c1, AnomalyKind::Reversal) =~= r1);
    assert(detected(Some(p), cur) == r4);
    assert(!e.contains(y));
    lemma_append_when(e, c1, AnomalyKind::Reversal, y);
    lemma_append_when(r1, c2, AnomalyKind::Stagnation, y);
    lemma_append_when(r2, c3, AnomalyKind::Oscillation, y);
    lemma_append_when(r3, c4, AnomalyKind::UnexpectedTransition, y);
    assert forall|k: AnomalyKind| r4.contains(k) == ((c1 && k == AnomalyKind::Reversal) || (c2 && k
        == AnomalyKind::Stagnation) || (c3 && k == AnomalyKind::Oscillation) || (c4 && k
        == AnomalyKind::UnexpectedTransition)) by {
        assert(!e.contains(k));
        lemma_append_when(e, c1, AnomalyKind::Reversal, k);
        lemma_append_when(r1, c2, AnomalyKind::Stagnation, k);
        lemma_append_when(r2, c3, AnomalyKind::Oscillation, k);
        lemma_append_when(r3, c4, AnomalyKind::UnexpectedTransition, k);
    }
    assert(c2 <==> forall|i: int| 0 <= i < cur.len() ==> cur[i] == p[i]) by {
        if forall|i: int| 0 <= i < cur.len() ==> cur[i] == p[i] {
            assert(cur =~= p);
        }
    }
    let sc = swing_count(p, cur, cur.len() as int);
    assert((sc > cur.len() / 2) == (2 * sc > cur.len()));
    let jumped = exists|i: int|
        0 <= i < cur.len() && (cur[i].spec_value() - p[i].spec_value() == 2 || cur[i].spec_value()
            - p[i].spec_value() == -2);
    if c4 {
        let i = choose|i: int| 0 <= i < cur.len() && swung(p, cur, i);
        assert(0 <= i < cur.len() && (cur[i].spec_value() - p[i].spec_value() == 2
            || cur[i].spec_value() - p[i].spec_value() == -2));
    }
    if jumped {
        let i = choose|i: int|
            0 <= i < cur.len() && (cur[i].spec_value() - p[i].spec_value() == 2 || cur[i].spec_value()
                - p[i].spec_value() == -2);
        assert(swung(p, cur, i));
    }
    assert(c4 == jumped);
    // the order: every element of r4 carries its kind's rank, and ranks grow
    assert forall|i: int, j: int| 0 <= i < j < r4.len() implies rank(r4[i]) < rank(r4[j]) by {
        lemma_ranks_grow(r1, r2, r3, r4, c1, c2, c3, c4, i, j);
    }
}

proof fn lemma_ranks_grow(
    r1: Seq<AnomalyKind>,
    r2: Seq<AnomalyKind>,
    r3: Seq<AnomalyKind>,
    r4: Seq<AnomalyKind>,
    c1: bool,
    c2: bool,
    c3: bool,
    c4: bool,
    i: int,
    j: int,
)
    requires
        r1 == when(c1, AnomalyKind::Reversal),
        r2 == r1 + when(c2, AnomalyKind::Stagnation),
        r3 == r2 + when(c3, AnomalyKind::Oscillation),
        r4 == r3 + when(c4, AnomalyKind::UnexpectedTransition),
        0 <= i < j < r4.len(),
    ensures
        rank(r4[i]) < rank(r4[j]),
{
    assert forall|k: int| 0 <= k < r1.len() implies rank(#[trigger] r1[k]) == 0 by {}
    assert forall|k: int| 0 <= k < r2.len() implies rank(#[trigger] r2[k]) <= 1 && (k
        >= r1.len() ==> rank(r2[k]) == 1) by {
        if k < r1.len() {
            assert(r2[k] == r1[k]);
        }
    }
    assert forall|k: int| 0 <= k < r3.len() implies rank(#[trigger] r3[k]) <= 2 && (k
        >= r2.len() ==> rank(r3[k]) == 2) && (k < r2.len() ==> r3[k] == r2[k]) by {
        if k < r2.len() {
            assert(r3[k] == r2[k]);
        }
    }
    assert forall|k: int| 0 <= k < r4.len() implies (k >= r3.len() ==> rank(#[trigger] r4[k])
        == 3) && (k < r3.len() ==> r4[k] == r3[k]) by {
        if k < r3.len() {
            assert(r4[k] == r3[k]);
        }
    }
    assert(r1.len() <= 1 && r2.len() <= r1.len() + 1 && r3.len() <= r2.len() + 1 && r4.len()
        <= r3.len() + 1);
}

/// `found` lists anomalies of the kinds `kinds`, in order, all at `position`.
pub open spec fn lists(found: Seq<MagneticAnomaly>, kinds: Seq<AnomalyKind>, position: Seq<Ternary>) -> bool {
    &&& found.len() == kinds.len()
    &&& forall|i: int|
        0 <= i < found.len() ==> #[trigger] found[i].kind == kinds[i] && found[i].position@
            == position
}

/// Append an anomaly of kind `kind` at `state` to `found`.
fn push_anomaly(found: &mut Vec<MagneticAnomaly>, state: &[Ternary], kind: AnomalyKind)
    ensures
        forall|kinds: Seq<AnomalyKind>|
            lists(old(found)@, kinds, state@) ==> #[trigger] lists(
                final(found)@,
                kinds.push(kind),
                state@,
            ),
{
    found.push(MagneticAnomaly { position: vstd::slice::slice_to_vec(state), kind });
    assert forall|kinds: Seq<AnomalyKind>|
        lists(old(found)@, kinds, state@) implies #[trigger] lists(
            found@,
            kinds.push(kind),
            state@,
        ) by {
        assert forall|i: int| 0 <= i < found@.len() implies #[trigger] found@[i].kind == kinds.push(kind)[i]
            && found@[i].position@ == state@ by {
            if i < old(found)@.len() {
                assert(found@[i] == old(found)@[i]);
            }
        }
    }
}

/// Detects distortions and anomalies in ternary state space.
pub struct AnomalyDetector {
    /// Previous state for comparison.
    prev_state: Option<Vec<Ternary>>,
}

impl AnomalyDetector {
    /// The state seen by the last scan since creation or reset.
    pub closed spec fn previous(self) -> Option<Seq<Ternary>> {
        match self.prev_state {
            None => None,
            Some(v) => Some(v@),
        }
    }

    /// A detector that has seen no state.
    pub fn new() -> (d: Self)
        ensures
            d.previous() is None,
    {
        AnomalyDetector { prev_state: None }
    }

    /// Scan a state vector for anomalies against the previously scanned one,
    /// and remember it for the next scan.
    pub fn scan(&mut self, state: &[Ternary]) -> (res: Vec<MagneticAnomaly>)
        ensures
            final(self).previous() == Some(state@),
            res@.len() == detected(old(self).previous(), state@).len(),
            forall|i: int|
                0 <= i < res@.len() ==> #[trigger] res@[i].kind == detected(
                    old(self).previous(),
                    state@,
                )[i] && res@[i].position@ == state@,
    {
        let mut anomalies: Vec<MagneticAnomaly> = Vec::new();
        let ghost cur = state@;
        let ghost mut kinds: Seq<AnomalyKind> = Seq::empty();
        match &self.prev_state {
            None => {},
            Some(prev) => {
                let ghost p = prev@;
                if prev.len() == state.len() {
                    let n = state.len();
                    let mut reversed = true;
                    let mut same = true;
                    let mut swings: usize = 0;
                    let mut i: usize = 0;
                    while i < n
                        invariant
                            n == cur.len(),
                            n == p.len(),
                            cur == state@,
                            p == prev@,
                            0 <= i <= n,
                            reversed == (forall|j: int|
                                0 <= j < i ==> cur[j].spec_value() == -p[j].spec_value()
                                    && cur[j].spec_value() != 0),
                            same == (forall|j: int| 0 <= j < i ==> cur[j] == p[j]),
                            swings == swing_count(p, cur, i as int),
                            swings <= i,
                        decreases n - i,
                    {
                        let a = state[i].value();
                        let b = prev[i].value();
                        if !(a == -b && a != 0) {
                            reversed = false;
                        }
                        if state[i] != prev[i] {
                            same = false;
                        }
                        let d = a - b;
                        if d == 2 || d == -2 {
                            swings = swings + 1;
                        }
                        i = i + 1;
                    }
                    // the first element that swung across zero, if any
                    let mut jumped = false;
                    let mut k: usize = 0;
                    while k < n
                        invariant_except_break
                            forall|j: int| 0 <= j < k ==> !swung(p, cur, j),
                            !jumped,
                        invariant
                            n == cur.len(),
                            n == p.len(),
                            cur == state@,
                            p == prev@,
                            0 <= k <= n,
                        ensures
                            jumped == (exists|j: int| 0 <= j < n && swung(p, cur, j)),
                        decreases n - k,
                    {
                        let d = state[k].value() - prev[k].value();
                        if d == 2 || d == -2 {
                            jumped = true;
                            assert(swung(p, cur, k as int));
                            break;
                        }
                        k = k + 1;
                    }
                    assert(same == (cur == p)) by {
                        if same {
                            assert(cur =~= p);
                        }
                    }
                    let ghost before = kinds;
                    if reversed && n > 0 {
                        push_anomaly(&mut anomalies, state, AnomalyKind::Reversal);
                        proof {
                            kinds = kinds.push(AnomalyKind::Reversal);
                        }
                    }
                    assert(kinds =~= before + when(all_reversed(p, cur) && cur.len() > 0, AnomalyKind::Reversal));
                    assert(lists(anomalies@, kinds, cur));
                    let ghost before = kinds;
                    if same {
                        push_anomaly(&mut anomalies, state, AnomalyKind::Stagnation);
                        proof {
                            kinds = kinds.push(AnomalyKind::Stagnation);
                        }
                    }
                    assert(kinds =~= before + when(cur == p, AnomalyKind::Stagnation));
                    assert(lists(anomalies@, kinds, cur));
                    let ghost before = kinds;
                    if swings > n / 2 {
                        push_anomaly(&mut anomalies, state, AnomalyKind::Oscillation);
                        proof {
                            kinds = kinds.push(AnomalyKind::Oscillation);
                        }
                    }
                    assert(kinds =~= before + when(swing_count(p, cur, cur.len() as int) > cur.len() / 2, AnomalyKind::Oscillation));
                    assert(lists(anomalies@, kinds, cur));
                    let ghost before = kinds;
                    if jumped {
                        push_anomaly(&mut anomalies, state, AnomalyKind::UnexpectedTransition);
                        proof {
                            kinds = kinds.push(AnomalyKind::UnexpectedTransition);
                        }
                    }
                    assert(kinds =~= before + when(exists|j: int| 0 <= j < cur.len() && swung(p, cur, j), AnomalyKind::UnexpectedTransition));
                    assert(lists(anomalies@, kinds, cur));
                }
            },
        }
        assert(lists(anomalies@, kinds, cur));
        assert(kinds =~= detected(old(self).previous(), state@));
        self.prev_state = Some(vstd::slice::slice_to_vec(state));
        anomalies
    }

    /// Forget the previously scanned state.
    pub fn reset(&mut self)
        ensures
            final(self).previous() is None,
    {
        self.prev_state = None;
    }
}

} // verus!
