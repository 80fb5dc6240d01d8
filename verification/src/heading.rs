use vstd::prelude::*;
use crate::ternary::{Bearing, Ratio, RatioProduct, Ternary, slide};
use crate::wide::prod_gt;
use crate::rose::negate;

verus! {

/// Sum of the values of the states in `s`.
pub open spec fn sum_y(s: Seq<Ternary>) -> int
    decreases s.len(),
{
    if s.len() == 0 {
        0
    } else {
        sum_y(s.drop_last()) + s.last().spec_value()
    }
}

/// Sum of the squared values of the states in `s`.
pub open spec fn sum_yy(s: Seq<Ternary>) -> int
    decreases s.len(),
{
    if s.len() == 0 {
        0
    } else {
        sum_yy(s.drop_last()) + s.last().spec_value() * s.last().spec_value()
    }
}

/// Sum of `i * y_i` over the states `y_i` of `s`, `i` counting from 0.
pub open spec fn sum_xy(s: Seq<Ternary>) -> int
    decreases s.len(),
{
    if s.len() == 0 {
        0
    } else {
        sum_xy(s.drop_last()) + (s.len() - 1) * s.last().spec_value()
    }
}

/// Sum of the positions `0 + 1 + ... + (n - 1)`.
pub open spec fn sum_x(n: nat) -> int
    decreases n,
{
    if n == 0 {
        0
    } else {
        sum_x((n - 1) as nat) + (n - 1)
    }
}

/// Sum of the squared positions `0 + 1 + ... + (n - 1)^2`.
pub open spec fn sum_xx(n: nat) -> int
    decreases n,
{
    if n == 0 {
        0
    } else {
        sum_xx((n - 1) as nat) + (n - 1) * (n - 1)
    }
}

/// Denominator of the least-squares slope of the states of `s` against
/// their positions: `n * Sxx - Sx^2`.
pub open spec fn trend_denom(s: Seq<Ternary>) -> int {
    s.len() * sum_xx(s.len()) - sum_x(s.len()) * sum_x(s.len())
}

/// Numerator of the least-squares slope: `n * Sxy - Sx * Sy`.
pub open spec fn trend_numer(s: Seq<Ternary>) -> int {
    s.len() * sum_xy(s) - sum_x(s.len()) * sum_y(s)
}

/// `n` times the total sum of squares of the values about their mean.
pub open spec fn spread(s: Seq<Ternary>) -> int {
    s.len() * sum_yy(s) - sum_y(s) * sum_y(s)
}

/// The bearing of the least-squares trend: Approach when the slope exceeds
/// 0.1, Avoid when it is below -0.1, Neutral otherwise or when the history
/// holds fewer than two states.
pub open spec fn trend_bearing(s: Seq<Ternary>) -> Bearing {
    if s.len() < 2 || trend_denom(s) == 0 {
        Bearing::Neutral
    } else if 10 * trend_numer(s) > trend_denom(s) {
        Bearing::Approach
    } else if 10 * trend_numer(s) < -trend_denom(s) {
        Bearing::Avoid
    } else {
        Bearing::Neutral
    }
}

/// `r` is the confidence of the trend of `s`: 1/2 for fewer than two states,
/// 0 when all values are equal, and otherwise the coefficient of
/// determination of the least-squares line, `numer^2 / (denom * spread)`,
/// capped at 1.
pub open spec fn is_trend_confidence(s: Seq<Ternary>, r: RatioProduct) -> bool {
    let one = Ratio { num: 1, den: 1 };
    if s.len() < 2 {
        r == RatioProduct { first: Ratio { num: 1, den: 2 }, second: one }
    } else if trend_denom(s) == 0 {
        r == RatioProduct { first: one, second: one }
    } else if spread(s) == 0 {
        r == RatioProduct { first: Ratio { num: 0, den: 1 }, second: one }
    } else if trend_numer(s) * trend_numer(s) > trend_denom(s) * spread(s) {
        r == RatioProduct { first: one, second: one }
    } else {
        &&& r.first.den > 0
        &&& r.second.den > 0
        &&& r.first.num * r.second.num * (trend_denom(s) * spread(s)) == trend_numer(s)
            * trend_numer(s) * (r.first.den * r.second.den)
    }
}

/// The state predicted `steps` ahead: the least-squares line through the
/// points `(i, y_i)` evaluated at position `n + steps - 1` is rounded to
/// Positive above 0.33 and to Negative below -0.33. With no history the
/// prediction is Zero; with a single state it is that state.
pub open spec fn predicted_state(s: Seq<Ternary>, steps: nat) -> Ternary {
    if s.len() == 0 {
        Ternary::Zero
    } else if trend_denom(s) == 0 {
        s.last()
    } else {
        let n = s.len();
        let d = trend_denom(s);
        let m = trend_numer(s);
        let t = n + steps - 1;
        // predicted value = p / q, with q > 0
        let q = n * d;
        let p = sum_y(s) * d - m * sum_x(n) + n * m * t;
        if 100 * p > 33 * q {
            Ternary::Positive
        } else if 100 * p < -33 * q {
            Ternary::Negative
        } else {
            Ternary::Zero
        }
    }
}

proof fn lemma_sum_x_closed(n: nat)
    ensures
        2 * sum_x(n) == n * (n - 1),
    decreases n,
{
    if n > 0 {
        lemma_sum_x_closed((n - 1) as nat);
        assert(2 * sum_x(n) == n * (n - 1)) by (nonlinear_arith)
            requires
                2 * sum_x((n - 1) as nat) == (n - 1) * (n - 2),
                sum_x(n) == sum_x((n - 1) as nat) + (n - 1),
        ;
    } else {
        assert(sum_x(0) == 0);
    }
}

proof fn lemma_sum_xx_closed(n: nat)
    ensures
        6 * sum_xx(n) == n * (n - 1) * (2 * n - 1),
    decreases n,
{
    if n > 0 {
        lemma_sum_xx_closed((n - 1) as nat);
        assert(6 * sum_xx(n) == n * (n - 1) * (2 * n - 1)) by (nonlinear_arith)
            requires
                6 * sum_xx((n - 1) as nat) == (n - 1) * (n - 2) * (2 * n - 3),
                sum_xx(n) == sum_xx((n - 1) as nat) + (n - 1) * (n - 1),
        ;
    } else {
        assert(sum_xx(0) == 0);
    }
}

/// The slope denominator in closed form: `12 * denom == n^2 * (n^2 - 1)`.
pub proof fn lemma_trend_denom_closed(s: Seq<Ternary>)
    ensures
        12 * trend_denom(s) == s.len() * s.len() * (s.len() * s.len() - 1),
        s.len() >= 2 ==> trend_denom(s) > 0,
{
    let n = s.len();
    lemma_sum_x_closed(n);
    lemma_sum_xx_closed(n);
    let sx = sum_x(n);
    let sxx = sum_xx(n);
    assert(12 * (n * sxx - sx * sx) == n * n * (n * n - 1)) by (nonlinear_arith)
        requires
            2 * sx == n * (n - 1),
            6 * sxx == n * (n - 1) * (2 * n - 1),
    ;
    if n >= 2 {
        assert(n * n * (n * n - 1) > 0) by (nonlinear_arith)
            requires
                n >= 2,
        ;
    }
}


proof fn lemma_sums_bounded(s: Seq<Ternary>)
    ensures
        -sum_yy(s) <= sum_y(s) <= sum_yy(s),
        0 <= sum_yy(s) <= s.len(),
        -sum_x(s.len()) <= sum_xy(s) <= sum_x(s.len()),
    decreases s.len(),
{
    if s.len() > 0 {
        let k = s.len() - 1;
        lemma_sums_bounded(s.drop_last());
        assert(sum_x(s.len()) == sum_x(k as nat) + k);
        let v = s.last().spec_value();
        assert(-k <= k * v <= k && v * v == (if v == 0 { 0int } else { 1int }))
            by (nonlinear_arith)
            requires
                -1 <= v <= 1,
                k >= 0,
        ;
    }
}

proof fn lemma_take_step(s: Seq<Ternary>, i: int)
    requires
        0 <= i < s.len(),
    ensures
        sum_y(s.take(i + 1)) == sum_y(s.take(i)) + s[i].spec_value(),
        sum_yy(s.take(i + 1)) == sum_yy(s.take(i)) + s[i].spec_value() * s[i].spec_value(),
        sum_xy(s.take(i + 1)) == sum_xy(s.take(i)) + i * s[i].spec_value(),
{
    assert(s.take(i + 1).drop_last() =~= s.take(i));
}

/// Longest history a `Vec<Ternary>` can hold: its bytes cannot exceed
/// `isize::MAX`, at most `2^63 - 1`.
pub open spec fn max_history() -> int {
    0x7fff_ffff_ffff_ffff
}

/// The running sums of the least-squares fit of `h` against positions.
struct TrendSums {
    sx: i128,
    sy: i128,
    sxy: i128,
    syy: i128,
}

fn trend_sums(h: &Vec<Ternary>) -> (r: TrendSums)
    requires
        h@.len() <= max_history(),
    ensures
        r.sx == sum_x(h@.len()),
        r.sy == sum_y(h@),
        r.sxy == sum_xy(h@),
        r.syy == sum_yy(h@),
        0 <= r.sx <= h@.len() * h@.len(),
{
    let n = h.len();
    let mut sx: i128 = 0;
    let mut sy: i128 = 0;
    let mut sxy: i128 = 0;
    let mut syy: i128 = 0;
    let mut i: usize = 0;
    while i < n
        invariant
            n == h@.len(),
            n <= max_history(),
            0 <= i <= n,
            sx == sum_x(i as nat),
            sy == sum_y(h@.take(i as int)),
            sxy == sum_xy(h@.take(i as int)),
            syy == sum_yy(h@.take(i as int)),
            0 <= sx <= i * i,
        decreases n - i,
    {
        proof {
            lemma_take_step(h@, i as int);
            lemma_sums_bounded(h@.take(i as int));
            assert(i * i <= max_history() * max_history()) by (nonlinear_arith)
                requires
                    0 <= i <= max_history(),
            ;
            assert(sx + i <= (i + 1) * (i + 1)) by (nonlinear_arith)
                requires
                    sx <= i * i,
                    i >= 0,
            ;
        }
        let y = h[i].value() as i128;
        let ii = i as i128;
        assert(-ii <= ii * y <= ii && 0 <= y * y <= 1) by (nonlinear_arith)
            requires
                -1 <= y <= 1,
                ii >= 0,
        ;
        sx = sx + ii;
        sy = sy + y;
        sxy = sxy + ii * y;
        syy = syy + y * y;
        i = i + 1;
    }
    assert(h@.take(n as int) =~= h@);
    TrendSums { sx, sy, sxy, syy }
}

/// The fit ratio in reduced form: with `2 * numer == n * n2` and
/// `12 * denom == n^2 (n^2 - 1)`, `numer^2 / (denom * spread)` equals
/// `3 * n2^2 / ((n^2 - 1) * spread)`.
proof fn lemma_fit_reduced(n: int, n2: int, numer: int, denom: int, spread: int)
    requires
        n >= 2,
        spread > 0,
        2 * numer == n * n2,
        12 * denom == n * n * (n * n - 1),
    ensures
        (numer * numer > denom * spread) == (3 * n2 * n2 > (n * n - 1) * spread),
        3 * n2 * n2 * (denom * spread) == numer * numer * ((n * n - 1) * spread),
{
    let nn = n * n;
    assert(nn > 0) by (nonlinear_arith)
        requires
            nn == n * n,
            n >= 2,
    ;
    assert(4 * (numer * numer) == nn * (n2 * n2)) by (nonlinear_arith)
        requires
            2 * numer == n * n2,
            nn == n * n,
    ;
    assert(12 * (denom * spread) == nn * ((nn - 1) * spread)) by (nonlinear_arith)
        requires
            12 * denom == nn * (nn - 1),
            nn == n * n,
    ;
    let x = numer * numer;
    let y = denom * spread;
    let u = n2 * n2;
    let v = (nn - 1) * spread;
    assert(48 * (x - y) == 4 * nn * (3 * u - v)) by (nonlinear_arith)
        requires
            4 * x == nn * u,
            12 * y == nn * v,
    ;
    assert((x > y) == (3 * u > v)) by (nonlinear_arith)
        requires
            48 * (x - y) == 4 * nn * (3 * u - v),
            nn > 0,
    ;
    assert(12 * (3 * u * y) == 12 * (x * v)) by (nonlinear_arith)
        requires
            4 * x == nn * u,
            12 * y == nn * v,
    ;
    assert(3 * n2 * n2 * (denom * spread) == numer * numer * ((n * n - 1) * spread))
        by (nonlinear_arith)
        requires
            12 * (3 * u * y) == 12 * (x * v),
            x == numer * numer,
            y == denom * spread,
            u == n2 * n2,
            v == (nn - 1) * spread,
            nn == n * n,
    ;
    assert((numer * numer > denom * spread) == (3 * n2 * n2 > (n * n - 1) * spread))
        by (nonlinear_arith)
        requires
            (x > y) == (3 * u > v),
            x == numer * numer,
            y == denom * spread,
            u == n2 * n2,
            v == (nn - 1) * spread,
            nn == n * n,
    ;
}

/// The prediction in scaled form: comparing `p / q` with `+-0.33` is
/// comparing `a * c + b` with `+-k`.
proof fn lemma_prediction_scaled(
    n: int,
    steps: int,
    sy: int,
    sx: int,
    n2: int,
    m: int,
    d: int,
    p: int,
    q: int,
)
    requires
        n >= 2,
        steps >= 0,
        2 * sx == n * (n - 1),
        2 * m == n * n2,
        12 * d == n * n * (n * n - 1),
        q == n * d,
        p == sy * d - m * sx + n * m * (n + steps - 1),
    ensures
        (100 * p > 33 * q) == ((300 * n2) * (n + 2 * steps - 1) + 100 * sy * (n * n - 1) > 33 * (n
            * (n * n - 1))),
        (100 * p < -33 * q) == (-(300 * n2) * (n + 2 * steps - 1) - 100 * sy * (n * n - 1) > 33 * (
        n * (n * n - 1))),
{
    let nn = n * n;
    let t = n + steps - 1;
    let c = n + 2 * steps - 1;
    assert(nn > 0) by (nonlinear_arith)
        requires
            nn == n * n,
            n >= 2,
    ;
    assert(12 * (sy * d) == nn * (sy * (nn - 1))) by (nonlinear_arith)
        requires
            12 * d == nn * (nn - 1),
    ;
    assert(12 * (m * sx) == nn * (3 * n2 * (n - 1))) by (nonlinear_arith)
        requires
            2 * sx == n * (n - 1),
            2 * m == n * n2,
            nn == n * n,
    ;
    assert(12 * (n * m * t) == nn * (6 * n2 * t)) by (nonlinear_arith)
        requires
            2 * m == n * n2,
            nn == n * n,
    ;
    assert(12 * q == nn * (n * (nn - 1))) by (nonlinear_arith)
        requires
            q == n * d,
            12 * d == nn * (nn - 1),
    ;
    let pp = sy * (nn - 1) + 3 * n2 * c;
    assert(12 * p == nn * pp) by (nonlinear_arith)
        requires
            12 * (sy * d) == nn * (sy * (nn - 1)),
            12 * (m * sx) == nn * (3 * n2 * (n - 1)),
            12 * (n * m * t) == nn * (6 * n2 * t),
            p == sy * d - m * sx + n * m * t,
            pp == sy * (nn - 1) + 3 * n2 * c,
            c == 2 * t - n + 1,
    ;
    let x = n * (nn - 1);
    assert(12 * (100 * p - 33 * q) == nn * (100 * pp - 33 * x)) by (nonlinear_arith)
        requires
            12 * p == nn * pp,
            12 * q == nn * x,
    ;
    assert(12 * (100 * p + 33 * q) == nn * (100 * pp + 33 * x)) by (nonlinear_arith)
        requires
            12 * p == nn * pp,
            12 * q == nn * x,
    ;
    assert((100 * p > 33 * q) == (100 * pp > 33 * x)) by (nonlinear_arith)
        requires
            12 * (100 * p - 33 * q) == nn * (100 * pp - 33 * x),
            nn > 0,
    ;
    assert((100 * p < -33 * q) == (100 * pp < -33 * x)) by (nonlinear_arith)
        requires
            12 * (100 * p + 33 * q) == nn * (100 * pp + 33 * x),
            nn > 0,
    ;
    assert(100 * pp == (300 * n2) * c + 100 * sy * (nn - 1)) by (nonlinear_arith)
        requires
            pp == sy * (nn - 1) + 3 * n2 * c,
    ;
    assert((100 * p > 33 * q) == ((300 * n2) * (n + 2 * steps - 1) + 100 * sy * (n * n - 1) > 33
        * (n * (n * n - 1)))) by (nonlinear_arith)
        requires
            (100 * p > 33 * q) == (100 * pp > 33 * x),
            100 * pp == (300 * n2) * c + 100 * sy * (nn - 1),
            c == n + 2 * steps - 1,
            nn == n * n,
            x == n * (nn - 1),
    ;
    assert((100 * p < -33 * q) == (-(300 * n2) * (n + 2 * steps - 1) - 100 * sy * (n * n - 1)
        > 33 * (n * (n * n - 1)))) by (nonlinear_arith)
        requires
            (100 * p < -33 * q) == (100 * pp < -33 * x),
            100 * pp == (300 * n2) * c + 100 * sy * (nn - 1),
            c == n + 2 * steps - 1,
            nn == n * n,
            x == n * (nn - 1),
    ;
}


proof fn lemma_spread_nonnegative(s: Seq<Ternary>)
    ensures
        spread(s) >= 0,
{
    lemma_sums_bounded(s);
    let n = s.len() as int;
    let sy = sum_y(s);
    let syy = sum_yy(s);
    assert(n * syy - sy * sy >= 0) by (nonlinear_arith)
        requires
            -syy <= sy <= syy,
            0 <= syy <= n,
    ;
}

/// Sum over `s` of `(n * i - sx)^2`.
spec fn dev_xx(s: Seq<Ternary>, n: int, sx: int) -> int
    decreases s.len(),
{
    if s.len() == 0 {
        0
    } else {
        let a = n * (s.len() - 1) - sx;
        dev_xx(s.drop_last(), n, sx) + a * a
    }
}

/// Sum over `s` of `(n * i - sx) * (n * y_i - sy)`.
spec fn dev_xy(s: Seq<Ternary>, n: int, sx: int, sy: int) -> int
    decreases s.len(),
{
    if s.len() == 0 {
        0
    } else {
        let a = n * (s.len() - 1) - sx;
        let b = n * s.last().spec_value() - sy;
        dev_xy(s.drop_last(), n, sx, sy) + a * b
    }
}

/// Sum over `s` of `(n * y_i - sy)^2`.
spec fn dev_yy(s: Seq<Ternary>, n: int, sy: int) -> int
    decreases s.len(),
{
    if s.len() == 0 {
        0
    } else {
        let b = n * s.last().spec_value() - sy;
        dev_yy(s.drop_last(), n, sy) + b * b
    }
}

/// Sum over `s` of `(p * (n * i - sx) - q * (n * y_i - sy))^2`.
spec fn dev_mix(s: Seq<Ternary>, n: int, sx: int, sy: int, p: int, q: int) -> int
    decreases s.len(),
{
    if s.len() == 0 {
        0
    } else {
        let a = n * (s.len() - 1) - sx;
        let b = n * s.last().spec_value() - sy;
        let e = p * a - q * b;
        dev_mix(s.drop_last(), n, sx, sy, p, q) + e * e
    }
}

proof fn lemma_dev_mix(s: Seq<Ternary>, n: int, sx: int, sy: int, p: int, q: int)
    ensures
        dev_mix(s, n, sx, sy, p, q) >= 0,
        dev_mix(s, n, sx, sy, p, q) == (p * p) * dev_xx(s, n, sx) - 2 * ((p * q) * dev_xy(
            s,
            n,
            sx,
            sy,
        )) + (q * q) * dev_yy(s, n, sy),
    decreases s.len(),
{
    if s.len() > 0 {
        let t = s.drop_last();
        lemma_dev_mix(t, n, sx, sy, p, q);
        let a = n * (s.len() - 1) - sx;
        let b = n * s.last().spec_value() - sy;
        let e = p * a - q * b;
        let pp = p * p;
        let pq = p * q;
        let qq = q * q;
        let xx0 = dev_xx(t, n, sx);
        let xy0 = dev_xy(t, n, sx, sy);
        let yy0 = dev_yy(t, n, sy);
        let aa = a * a;
        let ab = a * b;
        let bb = b * b;
        assert(e * e >= 0) by (nonlinear_arith);
        let pa = p * a;
        let qb = q * b;
        assert(e * e == pa * pa - 2 * (pa * qb) + qb * qb) by (nonlinear_arith)
            requires
                e == pa - qb,
        ;
        assert(pa * pa == pp * aa) by (nonlinear_arith)
            requires
                pa == p * a,
                pp == p * p,
                aa == a * a,
        ;
        assert(pa * qb == pq * ab) by (nonlinear_arith)
            requires
                pa == p * a,
                qb == q * b,
                pq == p * q,
                ab == a * b,
        ;
        assert(qb * qb == qq * bb) by (nonlinear_arith)
            requires
                qb == q * b,
                qq == q * q,
                bb == b * b,
        ;
        assert(pp * (xx0 + aa) == pp * xx0 + pp * aa) by (nonlinear_arith);
        assert(pq * (xy0 + ab) == pq * xy0 + pq * ab) by (nonlinear_arith);
        assert(qq * (yy0 + bb) == qq * yy0 + qq * bb) by (nonlinear_arith);
    }
}

proof fn lemma_dev_closed(s: Seq<Ternary>, n: int, sx: int, sy: int)
    ensures
        dev_xx(s, n, sx) == (n * n) * sum_xx(s.len()) - 2 * ((n * sx) * sum_x(s.len())) + s.len()
            * (sx * sx),
        dev_xy(s, n, sx, sy) == (n * n) * sum_xy(s) - (n * sx) * sum_y(s) - (n * sy) * sum_x(
            s.len(),
        ) + s.len() * (sx * sy),
        dev_yy(s, n, sy) == (n * n) * sum_yy(s) - 2 * ((n * sy) * sum_y(s)) + s.len() * (sy * sy),
    decreases s.len(),
{
    if s.len() > 0 {
        let t = s.drop_last();
        lemma_dev_closed(t, n, sx, sy);
        let k = t.len() as int;
        let y = s.last().spec_value();
        let nn = n * n;
        let nsx = n * sx;
        let nsy = n * sy;
        let kk = k * k;
        let ky = k * y;
        let yy = y * y;
        let a = n * k - sx;
        let b = n * y - sy;
        assert(sum_x(s.len()) == sum_x(t.len()) + k);
        assert(sum_xx(s.len()) == sum_xx(t.len()) + kk);
        assert(sum_xy(s) == sum_xy(t) + ky);
        assert(sum_yy(s) == sum_yy(t) + yy);
        assert(a * a == nn * kk - 2 * (nsx * k) + sx * sx) by (nonlinear_arith)
            requires
                a == n * k - sx,
                nn == n * n,
                nsx == n * sx,
                kk == k * k,
        ;
        let nk = n * k;
        let ny = n * y;
        assert(a * b == nk * ny - nk * sy - sx * ny + sx * sy) by (nonlinear_arith)
            requires
                a == nk - sx,
                b == ny - sy,
        ;
        assert(nk * ny == nn * ky) by (nonlinear_arith)
            requires
                nk == n * k,
                ny == n * y,
                nn == n * n,
                ky == k * y,
        ;
        assert(nk * sy == nsy * k) by (nonlinear_arith)
            requires
                nk == n * k,
                nsy == n * sy,
        ;
        assert(sx * ny == nsx * y) by (nonlinear_arith)
            requires
                ny == n * y,
                nsx == n * sx,
        ;
        assert(b * b == nn * yy - 2 * (nsy * y) + sy * sy) by (nonlinear_arith)
            requires
                b == n * y - sy,
                nn == n * n,
                nsy == n * sy,
                yy == y * y,
        ;
        assert(nn * (sum_xx(t.len()) + kk) == nn * sum_xx(t.len()) + nn * kk) by (nonlinear_arith);
        assert(nsx * (sum_x(t.len()) + k) == nsx * sum_x(t.len()) + nsx * k) by (nonlinear_arith);
        assert(nn * (sum_xy(t) + ky) == nn * sum_xy(t) + nn * ky) by (nonlinear_arith);
        assert(nsx * (sum_y(t) + y) == nsx * sum_y(t) + nsx * y) by (nonlinear_arith);
        assert(nsy * (sum_x(t.len()) + k) == nsy * sum_x(t.len()) + nsy * k) by (nonlinear_arith);
        assert(nn * (sum_yy(t) + yy) == nn * sum_yy(t) + nn * yy) by (nonlinear_arith);
        assert(nsy * (sum_y(t) + y) == nsy * sum_y(t) + nsy * y) by (nonlinear_arith);
        assert((k + 1) * (sx * sx) == k * (sx * sx) + sx * sx) by (nonlinear_arith);
        assert((k + 1) * (sx * sy) == k * (sx * sy) + sx * sy) by (nonlinear_arith);
        assert((k + 1) * (sy * sy) == k * (sy * sy) + sy * sy) by (nonlinear_arith);
    }
}

/// The fit of the least-squares line never exceeds 1: the squared slope
/// numerator is at most the slope denominator times the spread (the
/// Cauchy-Schwarz inequality for the centred positions and values), so
/// the cap on the trend confidence is never reached.
pub proof fn law_fit_at_most_one(s: Seq<Ternary>)
    ensures
        trend_numer(s) * trend_numer(s) <= trend_denom(s) * spread(s),
{
    let n = s.len() as int;
    let sx = sum_x(s.len());
    let sy = sum_y(s);
    let sxx = sum_xx(s.len());
    let sxy = sum_xy(s);
    let syy = sum_yy(s);
    let d = trend_denom(s);
    let m = trend_numer(s);
    let v = spread(s);
    lemma_trend_denom_closed(s);
    lemma_spread_nonnegative(s);
    lemma_sum_x_closed(s.len());
    if n == 0 {
        assert(m == 0);
        assert(d == 0);
    } else if n == 1 {
        assert(sx == 0) by (nonlinear_arith)
            requires
                2 * sx == n * (n - 1),
                n == 1,
        ;
        assert((s.len() - 1) * s.last().spec_value() == 0) by (nonlinear_arith)
            requires
                s.len() == 1,
        ;
        assert(s.drop_last().len() == 0);
        assert(sum_xy(s.drop_last()) == 0);
        assert(sxy == 0);
        assert(m == 0);
        assert(d == 0) by (nonlinear_arith)
            requires
                12 * d == n * n * (n * n - 1),
                n == 1,
        ;
    } else {
        lemma_dev_closed(s, n, sx, sy);
        let xx = dev_xx(s, n, sx);
        let xy = dev_xy(s, n, sx, sy);
        let yy = dev_yy(s, n, sy);
        assert(xx == n * d) by (nonlinear_arith)
            requires
                xx == (n * n) * sxx - 2 * ((n * sx) * sx) + n * (sx * sx),
                d == n * sxx - sx * sx,
        ;
        assert(xy == n * m) by (nonlinear_arith)
            requires
                xy == (n * n) * sxy - (n * sx) * sy - (n * sy) * sx + n * (sx * sy),
                m == n * sxy - sx * sy,
        ;
        assert(yy == n * v) by (nonlinear_arith)
            requires
                yy == (n * n) * syy - 2 * ((n * sy) * sy) + n * (sy * sy),
                v == n * syy - sy * sy,
        ;
        let p = n * m;
        let q = n * d;
        lemma_dev_mix(s, n, sx, sy, p, q);
        let g = dev_mix(s, n, sx, sy, p, q);
        let w = d * v - m * m;
        let n3 = n * n * n;
        let mmd = m * m * d;
        let ddv = d * d * v;
        assert((p * p) * xx == n3 * mmd) by (nonlinear_arith)
            requires
                p == n * m,
                xx == n * d,
                n3 == n * n * n,
                mmd == m * m * d,
        ;
        assert((p * q) * xy == n3 * mmd) by (nonlinear_arith)
            requires
                p == n * m,
                q == n * d,
                xy == n * m,
                n3 == n * n * n,
                mmd == m * m * d,
        ;
        assert((q * q) * yy == n3 * ddv) by (nonlinear_arith)
            requires
                q == n * d,
                yy == n * v,
                n3 == n * n * n,
                ddv == d * d * v,
        ;
        assert(d * w == ddv - mmd) by (nonlinear_arith)
            requires
                w == d * v - m * m,
                ddv == d * d * v,
                mmd == m * m * d,
        ;
        assert(n3 * (ddv - mmd) == n3 * ddv - n3 * mmd) by (nonlinear_arith);
        assert(g == n3 * (d * w));
        assert(n3 > 0) by (nonlinear_arith)
            requires
                n3 == n * n * n,
                n >= 2,
        ;
        assert(w >= 0) by (nonlinear_arith)
            requires
                g == n3 * (d * w),
                g >= 0,
                n3 > 0,
                d > 0,
        ;
    }
}

/// The confidence of a trend is a proper fraction between 0 and 1.
pub proof fn law_trend_confidence_bounded(s: Seq<Ternary>, r: RatioProduct)
    requires
        is_trend_confidence(s, r),
    ensures
        r.first.den > 0,
        r.second.den > 0,
        r.first.num * r.second.num <= r.first.den * r.second.den,
{
    lemma_trend_denom_closed(s);
    lemma_spread_nonnegative(s);
    if s.len() >= 2 && trend_denom(s) != 0 && spread(s) != 0
        && trend_numer(s) * trend_numer(s) <= trend_denom(s) * spread(s) {
        let x = trend_denom(s) * spread(s);
        let m2 = trend_numer(s) * trend_numer(s);
        let num = r.first.num * r.second.num;
        let den = r.first.den * r.second.den;
        assert(x > 0) by (nonlinear_arith)
            requires
                trend_denom(s) > 0,
                spread(s) > 0,
                x == trend_denom(s) * spread(s),
        ;
        assert(den > 0) by (nonlinear_arith)
            requires
                r.first.den > 0,
                r.second.den > 0,
                den == r.first.den * r.second.den,
        ;
        assert(num <= den) by (nonlinear_arith)
            requires
                num * x == m2 * den,
                m2 <= x,
                x > 0,
                den > 0,
        ;
    }
}

proof fn lemma_constant_sums(s: Seq<Ternary>, v: Ternary)
    requires
        forall|i: int| 0 <= i < s.len() ==> s[i] == v,
    ensures
        sum_y(s) == s.len() * v.spec_value(),
        sum_xy(s) == v.spec_value() * sum_x(s.len()),
    decreases s.len(),
{
    if s.len() > 0 {
        let t = s.drop_last();
        lemma_constant_sums(t, v);
        let k = t.len() as int;
        let y = v.spec_value();
        assert(sum_x(s.len()) == sum_x(t.len()) + k);
        assert(sum_xy(s) == y * sum_x(s.len())) by (nonlinear_arith)
            requires
                sum_xy(s) == sum_xy(t) + k * y,
                sum_xy(t) == y * sum_x(t.len()),
                sum_x(s.len()) == sum_x(t.len()) + k,
        ;
        assert(sum_y(s) == s.len() * y) by (nonlinear_arith)
            requires
                sum_y(s) == sum_y(t) + y,
                sum_y(t) == k * y,
                s.len() == k + 1,
        ;
    }
}

/// A history that holds a single repeated state predicts that state, however
/// far ahead.
pub proof fn law_constant_history_predicts_itself(s: Seq<Ternary>, steps: nat)
    requires
        s.len() >= 1,
        forall|i: int| 0 <= i < s.len() ==> #[trigger] s[i] == s[0],
    ensures
        predicted_state(s, steps) == s[0],
{
    let v = s[0];
    lemma_constant_sums(s, v);
    lemma_trend_denom_closed(s);
    if trend_denom(s) != 0 {
        let n = s.len() as int;
        let y = v.spec_value();
        let d = trend_denom(s);
        let sx = sum_x(s.len());
        let m = trend_numer(s);
        assert(m == 0) by (nonlinear_arith)
            requires
                m == n * sum_xy(s) - sx * sum_y(s),
                sum_xy(s) == y * sx,
                sum_y(s) == n * y,
        ;
        let t = n + steps - 1;
        let q = n * d;
        let p = sum_y(s) * d - m * sx + n * m * t;
        assert(p == y * q) by (nonlinear_arith)
            requires
                m == 0,
                p == sum_y(s) * d - m * sx + n * m * t,
                sum_y(s) == n * y,
                q == n * d,
        ;
        assert(q > 0) by (nonlinear_arith)
            requires
                q == n * d,
                n >= 2,
                d > 0,
        ;
        assert((100 * p > 33 * q) == (y == 1) && (100 * p < -33 * q) == (y == -1))
            by (nonlinear_arith)
            requires
                p == y * q,
                q > 0,
                -1 <= y <= 1,
        ;
        match v {
            Ternary::Negative => {},
            Ternary::Zero => {},
            Ternary::Positive => {},
        }
    } else {
        assert(s.last() == s[0]);
    }
}

/// The history with every state negated.
pub open spec fn negated(s: Seq<Ternary>) -> Seq<Ternary> {
    s.map_values(|t: Ternary| negate(t))
}

proof fn lemma_negated_sums(s: Seq<Ternary>)
    ensures
        sum_y(negated(s)) == -sum_y(s),
        sum_xy(negated(s)) == -sum_xy(s),
    decreases s.len(),
{
    let ns = negated(s);
    if s.len() > 0 {
        let t = s.drop_last();
        lemma_negated_sums(t);
        assert(ns.drop_last() =~= negated(t));
        let k = t.len() as int;
        let y = s.last().spec_value();
        assert(ns.last().spec_value() == -y);
        assert(k * (-y) == -(k * y)) by (nonlinear_arith);
    }
}

/// Negating every state of the history negates the prediction: the trend
/// treats Positive and Negative symmetrically.
pub proof fn law_prediction_negation(s: Seq<Ternary>, steps: nat)
    ensures
        predicted_state(negated(s), steps) == negate(
            predicted_state(s, steps),
        ),
{
    let ns = negated(s);
    lemma_negated_sums(s);
    let n = s.len() as int;
    if n > 0 {
        assert(ns.last() == negate(s.last()));
        if trend_denom(s) != 0 {
            let d = trend_denom(s);
            let m = trend_numer(s);
            let sx = sum_x(s.len());
            let t = n + steps - 1;
            let p = sum_y(s) * d - m * sx + n * m * t;
            let pn = sum_y(ns) * d - trend_numer(ns) * sx + n * trend_numer(ns) * t;
            assert(trend_numer(ns) == -m) by (nonlinear_arith)
                requires
                    m == n * sum_xy(s) - sx * sum_y(s),
                    trend_numer(ns) == n * sum_xy(ns) - sx * sum_y(ns),
                    sum_xy(ns) == -sum_xy(s),
                    sum_y(ns) == -sum_y(s),
            ;
            assert(pn == -p) by (nonlinear_arith)
                requires
                    p == sum_y(s) * d - m * sx + n * m * t,
                    pn == sum_y(ns) * d - trend_numer(ns) * sx + n * trend_numer(ns) * t,
                    trend_numer(ns) == -m,
                    sum_y(ns) == -sum_y(s),
            ;
            assert(ns.len() == s.len());
            assert(trend_denom(ns) == d);
            let q = n * d;
            lemma_trend_denom_closed(s);
            assert(q > 0) by (nonlinear_arith)
                requires
                    q == n * d,
                    n > 0,
                    d > 0,
            ;
            assert((100 * pn > 33 * q) == (100 * p < -33 * q));
            assert((100 * pn < -33 * q) == (100 * p > 33 * q));
            assert(predicted_state(ns, steps) == (if 100 * pn > 33 * q {
                Ternary::Positive
            } else if 100 * pn < -33 * q {
                Ternary::Negative
            } else {
                Ternary::Zero
            }));
            assert(predicted_state(s, steps) == (if 100 * p > 33 * q {
                Ternary::Positive
            } else if 100 * p < -33 * q {
                Ternary::Negative
            } else {
                Ternary::Zero
            }));
        } else {
            assert(trend_denom(ns) == 0);
        }
    } else {
        assert(ns.len() == 0);
    }
}

/// The scale of the least-squares line of `s`: the line's value at
/// position `x` is `line_at(s, x) / line_scale(s)`.
pub open spec fn line_scale(s: Seq<Ternary>) -> int {
    s.len() * trend_denom(s)
}

/// `line_scale(s)` times the least-squares line of `s` at position `x`,
/// written as the mean value plus the slope times the distance of `x` from
/// the mean position.
pub open spec fn line_at(s: Seq<Ternary>, x: int) -> int {
    sum_y(s) * trend_denom(s) + trend_numer(s) * (s.len() * x - sum_x(s.len()))
}

/// The state a value `a / b` (with `b > 0`) rounds to: Positive above
/// 0.33, Negative below -0.33, Zero in between.
pub open spec fn round_state(a: int, b: int) -> Ternary {
    if 100 * a > 33 * b {
        Ternary::Positive
    } else if 100 * a < -33 * b {
        Ternary::Negative
    } else {
        Ternary::Zero
    }
}

/// The bearing with Approach and Avoid swapped.
pub open spec fn mirror(b: Bearing) -> Bearing {
    match b {
        Bearing::Approach => Bearing::Avoid,
        Bearing::Avoid => Bearing::Approach,
        Bearing::Neutral => Bearing::Neutral,
    }
}

/// `line_at` is the least-squares line of the points `(i, y_i)`: it is a
/// straight line, and its residuals `scale * y_i - line_at(s, i)` sum to
/// zero and are orthogonal to the positions (the normal equations). For two
/// or more states the scale is positive, so the line is the unique one
/// with these properties.
pub proof fn law_line_is_least_squares(s: Seq<Ternary>, x: int)
    ensures
        line_at(s, x) == line_at(s, 0) + x * (line_at(s, 1) - line_at(s, 0)),
        line_scale(s) * sum_y(s) == s.len() * line_at(s, 0) + (line_at(s, 1) - line_at(s, 0))
            * sum_x(s.len()),
        line_scale(s) * sum_xy(s) == sum_x(s.len()) * line_at(s, 0) + (line_at(s, 1) - line_at(
            s,
            0,
        )) * sum_xx(s.len()),
        s.len() >= 2 ==> line_scale(s) > 0,
{
    let n = s.len() as int;
    let d = trend_denom(s);
    let m = trend_numer(s);
    let sx = sum_x(s.len());
    let sxx = sum_xx(s.len());
    let sy = sum_y(s);
    let sxy = sum_xy(s);
    let a = line_at(s, 0);
    let b = line_at(s, 1) - line_at(s, 0);
    assert(a == sy * d - m * sx) by (nonlinear_arith)
        requires
            a == sy * d + m * (n * 0 - sx),
    ;
    assert(b == m * n) by (nonlinear_arith)
        requires
            b == (sy * d + m * (n * 1 - sx)) - (sy * d + m * (n * 0 - sx)),
    ;
    assert(line_at(s, x) == a + x * b) by (nonlinear_arith)
        requires
            line_at(s, x) == sy * d + m * (n * x - sx),
            a == sy * d - m * sx,
            b == m * n,
    ;
    assert(n * d * sy == n * a + b * sx) by (nonlinear_arith)
        requires
            a == sy * d - m * sx,
            b == m * n,
    ;
    let pp = n * sxy;
    let qq = sx * sy;
    let rr = n * sxx;
    let tt = sx * sx;
    assert(n * d * sxy == d * pp) by (nonlinear_arith)
        requires
            pp == n * sxy,
    ;
    assert(sx * a == d * qq - m * tt) by (nonlinear_arith)
        requires
            a == sy * d - m * sx,
            qq == sx * sy,
            tt == sx * sx,
    ;
    assert(b * sxx == m * rr) by (nonlinear_arith)
        requires
            b == m * n,
            rr == n * sxx,
    ;
    assert(d * pp - (d * qq - m * tt) - m * rr == d * (pp - qq) - m * (rr - tt))
        by (nonlinear_arith);
    assert(d * (pp - qq) - m * (rr - tt) == d * m - m * d) by (nonlinear_arith)
        requires
            m == pp - qq,
            d == rr - tt,
    ;
    assert(d * m == m * d) by (nonlinear_arith);
    assert(n * d * sxy == sx * a + b * sxx);
    lemma_trend_denom_closed(s);
    if n >= 2 {
        assert(n * d > 0) by (nonlinear_arith)
            requires
                n >= 2,
                d > 0,
        ;
    }
}

/// The prediction `steps` ahead of two or more states is the least-squares
/// line at position `n + steps - 1` (the last kept state sits at `n - 1`),
/// rounded to a state.
pub proof fn law_prediction_on_line(s: Seq<Ternary>, steps: nat)
    requires
        s.len() >= 2,
    ensures
        predicted_state(s, steps) == round_state(
            line_at(s, s.len() + steps - 1),
            line_scale(s),
        ),
{
    let n = s.len() as int;
    let d = trend_denom(s);
    let m = trend_numer(s);
    let sx = sum_x(s.len());
    let t = n + steps - 1;
    lemma_trend_denom_closed(s);
    assert(sum_y(s) * d - m * sx + n * m * t == line_at(s, t)) by (nonlinear_arith)
        requires
            line_at(s, t) == sum_y(s) * d + m * (n * t - sx),
    ;
}

/// The trend bearing reads the slope of the least-squares line: Approach
/// when the line rises by more than 0.1 per position, Avoid when it falls
/// by more than 0.1 per position, Neutral otherwise.
pub proof fn law_bearing_follows_line(s: Seq<Ternary>)
    requires
        s.len() >= 2,
    ensures
        (trend_bearing(s) == Bearing::Approach) == (10 * (line_at(s, 1) - line_at(s, 0))
            > line_scale(s)),
        (trend_bearing(s) == Bearing::Avoid) == (10 * (line_at(s, 1) - line_at(s, 0))
            < -line_scale(s)),
{
    let n = s.len() as int;
    let d = trend_denom(s);
    let m = trend_numer(s);
    law_line_is_least_squares(s, 0);
    lemma_trend_denom_closed(s);
    assert(line_at(s, 1) - line_at(s, 0) == m * n) by (nonlinear_arith)
        requires
            line_at(s, 1) == sum_y(s) * d + m * (n * 1 - sum_x(s.len())),
            line_at(s, 0) == sum_y(s) * d + m * (n * 0 - sum_x(s.len())),
    ;
    assert((10 * (m * n) > n * d) == (10 * m > d)) by (nonlinear_arith)
        requires
            n >= 2,
    ;
    assert((10 * (m * n) < -(n * d)) == (10 * m < -d)) by (nonlinear_arith)
        requires
            n >= 2,
    ;
}

/// Negating every state of the history swaps Approach and Avoid in the
/// trend bearing: rising and falling trends are read alike.
pub proof fn law_bearing_negation(s: Seq<Ternary>)
    ensures
        trend_bearing(negated(s)) == mirror(trend_bearing(s)),
{
    let ns = negated(s);
    lemma_negated_sums(s);
    let n = s.len() as int;
    let sx = sum_x(s.len());
    let m = trend_numer(s);
    assert(ns.len() == s.len());
    assert(trend_denom(ns) == trend_denom(s));
    assert(trend_numer(ns) == -m) by (nonlinear_arith)
        requires
            m == n * sum_xy(s) - sx * sum_y(s),
            trend_numer(ns) == n * sum_xy(ns) - sx * sum_y(ns),
            sum_xy(ns) == -sum_xy(s),
            sum_y(ns) == -sum_y(s),
    ;
    lemma_trend_denom_closed(s);
}

/// Predicts future direction based on state history.
#[derive(Debug)]
pub struct HeadingEstimator {
    /// Window of recent states to consider.
    window_size: usize,
    /// Recent state history, oldest first.
    history: Vec<Ternary>,
}

impl Clone for HeadingEstimator {
    /// An estimator with the same window and history.
    fn clone(&self) -> (c: Self)
        ensures
            c.window() == self.window(),
            c.history() == self.history(),
    {
        proof {
            use_type_invariant(self);
        }
        HeadingEstimator {
            window_size: self.window_size,
            history: vstd::slice::slice_to_vec(self.history.as_slice()),
        }
    }
}

impl HeadingEstimator {
    #[verifier::type_invariant]
    spec fn window_holds_history(self) -> bool {
        &&& self.window_size >= 2
        &&& self.history@.len() <= self.window_size
        &&& self.history@.len() <= isize::MAX
    }

    /// The number of most recent states that are kept.
    pub closed spec fn window(self) -> nat {
        self.window_size as nat
    }

    /// The kept states, oldest first.
    pub closed spec fn history(self) -> Seq<Ternary> {
        self.history@
    }

    /// An estimator with no history that keeps the last `window_size`
    /// states, and at least two.
    pub fn new(window_size: usize) -> (e: Self)
        ensures
            e.window() == (if window_size < 2 { 2 } else { window_size }),
            e.history() == Seq::<Ternary>::empty(),
    {
        let w = if window_size < 2 { 2 } else { window_size };
        HeadingEstimator { window_size: w, history: Vec::new() }
    }

    /// Record a new state observation; the oldest state is dropped once the
    /// window is full. The history can grow to `isize::MAX` states, the most
    /// a vector of states can hold.
    pub fn observe(&mut self, state: Ternary)
        requires
            old(self).history().len() < isize::MAX,
        ensures
            final(self).window() == old(self).window(),
            final(self).history() == slide(old(self).history(), state, old(self).window()),
            final(self).history().len() <= final(self).window(),
    {
        proof {
            use_type_invariant(&*self);
        }
        let mut h: Vec<Ternary> = Vec::new();
        std::mem::swap(&mut h, &mut self.history);
        h.push(state);
        if h.len() > self.window_size {
            h.remove(0);
        }
        self.history = h;
        proof {
            use_type_invariant(&*self);
        }
    }

    /// The number of states currently kept.
    pub fn history_len(&self) -> (n: usize)
        ensures
            n == self.history().len(),
    {
        self.history.len()
    }

    /// Estimate the current heading: the bearing of the least-squares trend
    /// of the kept states, with the fit of that trend as confidence.
    pub fn estimate_heading(&self) -> (res: (Bearing, RatioProduct))
        ensures
            res.0 == trend_bearing(self.history()),
            is_trend_confidence(self.history(), res.1),
    {
        proof {
            use_type_invariant(self);
        }
        let one = Ratio { num: 1, den: 1 };
        let n = self.history.len();
        if n < 2 {
            return (Bearing::Neutral, RatioProduct { first: Ratio { num: 1, den: 2 }, second: one });
        }
        let ghost s = self.history@;
        assert(n <= max_history());
        let sums = trend_sums(&self.history);
        let nn = n as i128;
        let f = self.fit_terms(&sums);
        let n2 = f.0;
        let sq = f.1;
        proof {
            let numer = trend_numer(s);
            let denom = trend_denom(s);
            assert(120 * numer == 60 * nn * n2) by (nonlinear_arith)
                requires
                    2 * numer == nn * n2,
            ;
            assert(12 * denom == nn * (nn * sq)) by (nonlinear_arith)
                requires
                    12 * denom == nn * nn * (nn * nn - 1),
                    sq == nn * nn - 1,
            ;
            assert((10 * numer > denom) == (n2 * 60 > nn * sq)) by (nonlinear_arith)
                requires
                    120 * numer == 60 * nn * n2,
                    12 * denom == nn * (nn * sq),
                    nn >= 2,
            ;
            assert((10 * numer < -denom) == ((-n2) * 60 > nn * sq)) by (nonlinear_arith)
                requires
                    120 * numer == 60 * nn * n2,
                    12 * denom == nn * (nn * sq),
                    nn >= 2,
            ;
        }
        let bearing = if prod_gt(n2, 60, n as u128, sq) {
            Bearing::Approach
        } else if prod_gt(-n2, 60, n as u128, sq) {
            Bearing::Avoid
        } else {
            Bearing::Neutral
        };
        proof {
            assert(0 <= nn * sums.syy <= nn * nn) by (nonlinear_arith)
                requires
                    0 <= nn,
                    0 <= sums.syy <= nn,
            ;
            assert(0 <= sums.sy * sums.sy <= sums.syy * sums.syy) by (nonlinear_arith)
                requires
                    -sums.syy <= sums.sy <= sums.syy,
            ;
            assert(sums.syy * sums.syy <= nn * sums.syy) by (nonlinear_arith)
                requires
                    0 <= sums.syy <= nn,
            ;
        }
        let var = nn * sums.syy - sums.sy * sums.sy;
        assert(var == spread(s));
        if var == 0 {
            return (bearing, RatioProduct { first: Ratio { num: 0, den: 1 }, second: one });
        }
        proof {
            let numer = trend_numer(s);
            let denom = trend_denom(s);
            law_fit_at_most_one(s);
            lemma_fit_reduced(nn as int, n2 as int, numer, denom, var as int);
            // 3 * n2^2 <= sq * var <= n^4, so 3 * |n2| < 2 * n^2
            assert(sq * var <= (nn * nn) * (nn * nn)) by (nonlinear_arith)
                requires
                    0 <= sq <= nn * nn,
                    0 <= var <= nn * nn,
            ;
            assert(-(2 * (nn * nn)) < 3 * n2 < 2 * (nn * nn)) by (nonlinear_arith)
                requires
                    3 * n2 * n2 <= sq * var,
                    sq * var <= (nn * nn) * (nn * nn),
                    nn >= 2,
            ;
        }
        let m: u128 = if n2 < 0 {
            (-n2) as u128
        } else {
            n2 as u128
        };
        let first = Ratio { num: 3 * m, den: sq as u128 };
        let second = Ratio { num: m, den: var as u128 };
        proof {
            let numer = trend_numer(s);
            let denom = trend_denom(s);
            assert(m * m == n2 * n2) by (nonlinear_arith)
                requires
                    m == n2 || m == -n2,
            ;
            assert(first.num * second.num * (denom * var) == numer * numer * (first.den
                * second.den)) by (nonlinear_arith)
                requires
                    3 * n2 * n2 * (denom * var) == numer * numer * ((nn * nn - 1) * var),
                    m * m == n2 * n2,
                    first.num == 3 * m,
                    second.num == m,
                    first.den == sq,
                    second.den == var,
                    sq == nn * nn - 1,
            ;
            assert(sq > 0) by (nonlinear_arith)
                requires
                    sq == nn * nn - 1,
                    nn >= 2,
            ;
        }
        (bearing, RatioProduct { first, second })
    }

    /// The centred trend numerator `n2 = 2 * Sxy - (n - 1) * Sy` and
    /// `n^2 - 1` of a history of at least two states.
    fn fit_terms(&self, sums: &TrendSums) -> (r: (i128, i128))
        requires
            2 <= self.history().len() <= max_history(),
            sums.sx == sum_x(self.history().len()),
            sums.sy == sum_y(self.history()),
            sums.sxy == sum_xy(self.history()),
            sums.syy == sum_yy(self.history()),
        ensures
            2 * trend_numer(self.history()) == self.history().len() * r.0,
            r.1 == self.history().len() * self.history().len() - 1,
            12 * trend_denom(self.history()) == self.history().len() * self.history().len() * (
            self.history().len() * self.history().len() - 1),
            trend_denom(self.history()) > 0,
            -(2 * (self.history().len() * self.history().len())) <= r.0 <= 2 * (
            self.history().len() * self.history().len()),
            0 < r.1 < self.history().len() * self.history().len(),
            -self.history().len() <= sums.sy <= self.history().len(),
            -sums.syy <= sums.sy <= sums.syy,
            0 <= sums.syy <= self.history().len(),
            self.history().len() * self.history().len() <= max_history() * max_history(),
    {
        let ghost s = self.history@;
        let n = self.history.len();
        let nn = n as i128;
        proof {
            lemma_trend_denom_closed(s);
            lemma_sum_x_closed(n as nat);
            lemma_sums_bounded(s);
            assert(nn * nn <= max_history() * max_history()) by (nonlinear_arith)
                requires
                    0 <= nn <= max_history(),
            ;
            assert(-(nn * nn) <= (nn - 1) * sums.sy <= nn * nn) by (nonlinear_arith)
                requires
                    0 <= nn,
                    -nn <= sums.sy <= nn,
            ;
            assert(-(2 * (nn * nn)) <= 2 * sums.sxy - (nn - 1) * sums.sy <= 2 * (nn * nn))
                by (nonlinear_arith)
                requires
                    2 * sums.sx == nn * (nn - 1),
                    -sums.sx <= sums.sxy <= sums.sx,
                    -(nn * nn) <= (nn - 1) * sums.sy <= nn * nn,
                    nn >= 2,
            ;
            assert(0 <= sums.sx <= nn * nn) by (nonlinear_arith)
                requires
                    2 * sums.sx == nn * (nn - 1),
                    nn >= 2,
            ;
        }
        let n2 = 2 * sums.sxy - (nn - 1) * sums.sy;
        let sq = nn * nn - 1;
        proof {
            assert(2 * trend_numer(s) == nn * n2) by (nonlinear_arith)
                requires
                    2 * sums.sx == nn * (nn - 1),
                    trend_numer(s) == nn * sums.sxy - sums.sx * sums.sy,
                    n2 == 2 * sums.sxy - (nn - 1) * sums.sy,
            ;
            assert(0 < sq < nn * nn) by (nonlinear_arith)
                requires
                    sq == nn * nn - 1,
                    nn >= 2,
            ;
        }
        (n2, sq)
    }

    /// Predict the state `steps` ahead by extending the least-squares trend
    /// of the kept states.
    pub fn predict(&self, steps: usize) -> (t: Ternary)
        requires
            self.history().len() >= 2 ==> self.history().len() + steps <= usize::MAX,
        ensures
            t == predicted_state(self.history(), steps as nat),
            self.history().len() >= 2 ==> t == round_state(
                line_at(self.history(), self.history().len() + steps - 1),
                line_scale(self.history()),
            ),
    {
        proof {
            if self.history().len() >= 2 {
                law_prediction_on_line(self.history(), steps as nat);
            }
        }
        proof {
            use_type_invariant(self);
        }
        let n = self.history.len();
        let ghost s = self.history@;
        proof {
            lemma_trend_denom_closed(s);
        }
        if n == 0 {
            return Ternary::Zero;
        }
        if n == 1 {
            assert(trend_denom(s) == 0) by (nonlinear_arith)
                requires
                    12 * trend_denom(s) == s.len() * s.len() * (s.len() * s.len() - 1),
                    s.len() == 1,
            ;
            return self.history[0];
        }
        assert(n <= max_history());
        let sums = trend_sums(&self.history);
        let nn = n as i128;
        let f = self.fit_terms(&sums);
        let n2 = f.0;
        let sq = f.1;
        // the line at position n + steps - 1, scaled: compare n2 * 300c with sq * (33n -+ 100 Sy)
        let c: u128 = 300 * ((n as u128) + 2 * (steps as u128) - 1);
        let above = 33 * nn - 100 * sums.sy;
        let below = 33 * nn + 100 * sums.sy;
        proof {
            let m = trend_numer(s);
            let d = trend_denom(s);
            let cc = nn + 2 * steps - 1;
            lemma_sum_x_closed(n as nat);
            lemma_prediction_scaled(
                nn as int,
                steps as int,
                sums.sy as int,
                sums.sx as int,
                n2 as int,
                m,
                d,
                sums.sy * d - m * sums.sx + nn * m * (nn + steps - 1),
                nn * d,
            );
            assert((300 * n2) * cc + 100 * sums.sy * (nn * nn - 1) > 33 * (nn * (nn * nn - 1))
                <==> n2 * c > sq * above) by (nonlinear_arith)
                requires
                    c == 300 * cc,
                    sq == nn * nn - 1,
                    above == 33 * nn - 100 * sums.sy,
            ;
            assert(-(300 * n2) * cc - 100 * sums.sy * (nn * nn - 1) > 33 * (nn * (nn * nn - 1))
                <==> (-n2) * c > sq * below) by (nonlinear_arith)
                requires
                    c == 300 * cc,
                    sq == nn * nn - 1,
                    below == 33 * nn + 100 * sums.sy,
            ;
        }
        if prod_gt(n2, c, sq as u128, above) {
            Ternary::Positive
        } else if prod_gt(-n2, c, sq as u128, below) {
            Ternary::Negative
        } else {
            Ternary::Zero
        }
    }
}

} // verus!
