use vstd::prelude::*;

verus! {

/// 2^64.
pub open spec fn half_word() -> int {
    0x1_0000_0000_0000_0000int
}

/// 2^128.
pub open spec fn word() -> int {
    0x1_0000_0000_0000_0000_0000_0000_0000_0000int
}

/// The 256-bit product of two 128-bit numbers as its high and low words.
fn mul_wide(a: u128, b: u128) -> (r: (u128, u128))
    ensures
        r.0 * word() + r.1 == a * b,
{
    let k: u128 = 0x1_0000_0000_0000_0000;
    let a1 = a / k;
    let a0 = a % k;
    let b1 = b / k;
    let b0 = b % k;
    proof {
        assert(a0 * b0 < word() && a0 * b1 < word() && a1 * b0 < word() && a1 * b1 < word())
            by (nonlinear_arith)
            requires
                a0 < half_word(),
                b0 < half_word(),
                a1 < half_word(),
                b1 < half_word(),
                a0 >= 0,
                a1 >= 0,
                b0 >= 0,
                b1 >= 0,
        ;
    }
    let p00 = a0 * b0;
    let p01 = a0 * b1;
    let p10 = a1 * b0;
    let p11 = a1 * b1;
    let t = p00 / k + p01 % k + p10 % k;
    let lo = p00 % k + (t % k) * k;
    let ghost hi_v: int = p11 + p01 / k + p10 / k + t / k;
    proof {
        let kk = half_word();
        assert(a == a1 * kk + a0);
        assert(b == b1 * kk + b0);
        assert(a * b == p11 * (kk * kk) + (p01 + p10) * kk + p00) by (nonlinear_arith)
            requires
                a == a1 * kk + a0,
                b == b1 * kk + b0,
                p00 == a0 * b0,
                p01 == a0 * b1,
                p10 == a1 * b0,
                p11 == a1 * b1,
        ;
        assert(p01 == (p01 / k) * kk + p01 % k);
        assert(p10 == (p10 / k) * kk + p10 % k);
        assert(p00 == (p00 / k) * kk + p00 % k);
        assert(t == (t / k) * kk + t % k);
        assert(kk * kk == word()) by (nonlinear_arith)
            requires
                kk == half_word(),
        ;
        let w = word();
        let q00 = p00 / k;
        let r00 = p00 % k;
        let q01 = p01 / k;
        let r01 = p01 % k;
        let q10 = p10 / k;
        let r10 = p10 % k;
        let qt = t / k;
        let rt = t % k;
        assert((p01 + p10) * kk == p01 * kk + p10 * kk) by (nonlinear_arith);
        assert(p01 * kk == q01 * w + r01 * kk) by (nonlinear_arith)
            requires
                p01 == q01 * kk + r01,
                w == kk * kk,
        ;
        assert(p10 * kk == q10 * w + r10 * kk) by (nonlinear_arith)
            requires
                p10 == q10 * kk + r10,
                w == kk * kk,
        ;
        assert(t * kk == qt * w + rt * kk) by (nonlinear_arith)
            requires
                t == qt * kk + rt,
                w == kk * kk,
        ;
        assert((r01 + r10 + q00) * kk == r01 * kk + r10 * kk + q00 * kk) by (nonlinear_arith);
        assert(hi_v * w == p11 * w + q01 * w + q10 * w + qt * w) by (nonlinear_arith)
            requires
                hi_v == p11 + q01 + q10 + qt,
        ;
        assert(lo == r00 + rt * kk);
        assert(a * b == hi_v * w + lo);
        assert(a * b < word() * word()) by (nonlinear_arith)
            requires
                0 <= a < word(),
                0 <= b < word(),
        ;
        assert(lo >= 0);
        assert(hi_v < word()) by (nonlinear_arith)
            requires
                a * b == hi_v * word() + lo,
                a * b < word() * word(),
                lo >= 0,
        ;
    }
    let hi = p11 + p01 / k + p10 / k + t / k;
    (hi, lo)
}

/// Whether the 256-bit number `(h1, l1)` exceeds `(h2, l2)`.
fn wide_gt(h1: u128, l1: u128, h2: u128, l2: u128) -> (r: bool)
    ensures
        r == (h1 * word() + l1 > h2 * word() + l2),
{
    h1 > h2 || (h1 == h2 && l1 > l2)
}

/// Decides `a * b > c * d` for `b, c >= 0` without overflow.
pub fn prod_gt(a: i128, b: u128, c: u128, d: i128) -> (r: bool)
    requires
        a > i128::MIN,
        d > i128::MIN,
    ensures
        r == (a * b > c * d),
{
    let am: u128 = if a < 0 {
        (-a) as u128
    } else {
        a as u128
    };
    let dm: u128 = if d < 0 {
        (-d) as u128
    } else {
        d as u128
    };
    let (h1, l1) = mul_wide(am, b);
    let (h2, l2) = mul_wide(c, dm);
    let lhs_zero = h1 == 0 && l1 == 0;
    let rhs_zero = h2 == 0 && l2 == 0;
    proof {
        assert(am * b >= 0 && c * dm >= 0) by (nonlinear_arith)
            requires
                am >= 0,
                b >= 0,
                c >= 0,
                dm >= 0,
        ;
        if a < 0 {
            assert(a * b == -(am * b)) by (nonlinear_arith)
                requires
                    am == -a,
            ;
        } else {
            assert(a * b == am * b);
        }
        if d < 0 {
            assert(c * d == -(c * dm)) by (nonlinear_arith)
                requires
                    dm == -d,
            ;
        } else {
            assert(c * d == c * dm);
        }
    }
    if a >= 0 && d >= 0 {
        wide_gt(h1, l1, h2, l2)
    } else if a >= 0 {
        !(lhs_zero && rhs_zero)
    } else if d >= 0 {
        false
    } else {
        wide_gt(h2, l2, h1, l1)
    }
}

} // verus!
