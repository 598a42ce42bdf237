//! Rounding of coefficients (FIPS 204, Section 7.4): Power2Round,
//! Decompose, HighBits and LowBits.

use vstd::prelude::*;
use crate::params::{DsaParams, Q, valid_gamma2};

verus! {

/// x mod± a for a > 0: the representative of x modulo a in
/// [-(a-1)/2 - (1 - a % 2) + 1, a/2], that is (-a/2, a/2] for even a.
pub open spec fn mod_pm(x: int, a: int) -> int {
    let m = x % a;
    if m > a / 2 { m - a } else { m }
}

/// Power2Round with d = 13 (FIPS 204, Algorithm 35) on r in [0, q):
/// (r1, r0) with r0 = r mod± 2^13 and r1 = (r - r0) / 2^13.
pub open spec fn power2round_spec(r: int) -> (int, int) {
    let r0 = mod_pm(r, 8192);
    ((r - r0) / 8192, r0)
}

/// Decompose (FIPS 204, Algorithm 36) on r in [0, q): r0 = r mod± alpha
/// and r1 = (r - r0) / alpha, except that r - r0 = q - 1 gives (0, r0 - 1).
pub open spec fn decompose_spec(r: int, alpha: int) -> (int, int) {
    let r0 = mod_pm(r, alpha);
    if r - r0 == Q as int - 1 {
        (0, r0 - 1)
    } else {
        ((r - r0) / alpha, r0)
    }
}

/// HighBits (FIPS 204, Algorithm 37).
pub open spec fn high_bits_spec(r: int, alpha: int) -> int {
    decompose_spec(r, alpha).0
}

/// LowBits (FIPS 204, Algorithm 38).
pub open spec fn low_bits_spec(r: int, alpha: int) -> int {
    decompose_spec(r, alpha).1
}

/// The decomposition parameters that the rounding functions accept:
/// 0 < alpha < q.
pub open spec fn alpha_ok(alpha: int) -> bool {
    0 < alpha < Q as int
}

/// Power2Round on r in [0, q) with d = 13: r = r1 * 2^13 + r0 with
/// -2^12 < r0 <= 2^12.
pub fn power2round(r: i32, d: u32) -> (res: (i32, i32))
    requires
        0 <= r < Q,
        d == 13,
    ensures
        (res.0 as int, res.1 as int) == power2round_spec(r as int),
        r as int == res.0 as int * 8192 + res.1 as int,
        -4096 < res.1 <= 4096,
        0 <= res.0 <= 1023,
{
    let x: i32 = r + 4095;
    let r1: i32 = x >> 13u32;
    assert(r1 * 8192 <= x && x < (r1 + 1) * 8192) by (bit_vector)
        requires
            x >= 0,
            r1 == x >> 13u32,
    ;
    let r0: i32 = r - r1 * 8192;
    (r1, r0)
}

/// Decompose on r in [0, q) with 0 < alpha < q (FIPS 204, Algorithm 36).
pub fn decompose(r: i32, alpha: i32) -> (res: (i32, i32))
    requires
        0 <= r < Q,
        alpha_ok(alpha as int),
    ensures
        (res.0 as int, res.1 as int) == decompose_spec(r as int, alpha as int),
        0 <= res.0 < Q,
        -Q < res.1 < Q,
{
    let m: u32 = (r as u32) % (alpha as u32);
    let half: u32 = (alpha as u32) / 2;
    let mut r0: i32 = m as i32;
    if m > half {
        r0 = r0 - alpha;
    }
    if r - r0 == Q - 1 {
        (0, r0 - 1)
    } else {
        proof {
            vstd::arithmetic::div_mod::lemma_mod_decreases(r as nat, alpha as nat);
            assert(r - r0 >= 0);
        }
        let r1: u32 = ((r - r0) as u32) / (alpha as u32);
        proof {
            assert(m as int == (r as int) % (alpha as int));
            assert(half as int == (alpha as int) / 2);
            if alpha >= 2 {
                vstd::arithmetic::div_mod::lemma_div_is_ordered_by_denominator(
                    (r - r0) as int,
                    2,
                    alpha as int,
                );
            } else {
                assert(r0 == 0);
            }
        }
        (r1 as i32, r0)
    }
}

/// HighBits on r in [0, q).
pub fn high_bits(r: i32, alpha: i32) -> (r1: i32)
    requires
        0 <= r < Q,
        alpha_ok(alpha as int),
    ensures
        r1 as int == high_bits_spec(r as int, alpha as int),
{
    decompose(r, alpha).0
}

/// LowBits on r in [0, q).
pub fn low_bits(r: i32, alpha: i32) -> (r0: i32)
    requires
        0 <= r < Q,
        alpha_ok(alpha as int),
    ensures
        r0 as int == low_bits_spec(r as int, alpha as int),
{
    decompose(r, alpha).1
}

/// Decompose with alpha = 2 * gamma2 of the parameter set P.
pub fn decompose_optimized<P: DsaParams>(r: i32) -> (res: (i32, i32))
    requires
        0 <= r < Q,
    ensures
        (res.0 as int, res.1 as int) == decompose_spec(r as int, 2 * P::GAMMA2),
        0 <= res.0 < Q,
        -Q < res.1 < Q,
{
    proof {
        P::lemma_param_set();
    }
    decompose(r, 2 * P::GAMMA2)
}

/// HighBits with alpha = 2 * gamma2 of the parameter set P.
pub fn high_bits_optimized<P: DsaParams>(r: i32) -> (r1: i32)
    requires
        0 <= r < Q,
    ensures
        r1 as int == high_bits_spec(r as int, 2 * P::GAMMA2),
{
    decompose_optimized::<P>(r).0
}

/// LowBits with alpha = 2 * gamma2 of the parameter set P.
pub fn low_bits_optimized<P: DsaParams>(r: i32) -> (r0: i32)
    requires
        0 <= r < Q,
    ensures
        r0 as int == low_bits_spec(r as int, 2 * P::GAMMA2),
{
    decompose_optimized::<P>(r).1
}

/// Decompose splits r: r = r1 * alpha + r0 (mod q), with
/// -alpha/2 <= r0 <= alpha/2 and 0 <= r1 < (q-1)/alpha, for the two values
/// of alpha = 2 * gamma2 of ML-DSA.
pub proof fn lemma_decompose_properties(r: int, gamma2: int)
    requires
        0 <= r < Q as int,
        valid_gamma2(gamma2),
    ensures
        ({
            let (r1, r0) = decompose_spec(r, 2 * gamma2);
            &&& (r - (r1 * (2 * gamma2) + r0)) % (Q as int) == 0
            &&& -gamma2 <= r0 <= gamma2
            &&& 0 <= r1 < (Q as int - 1) / (2 * gamma2)
        }),
{
    if gamma2 == 95232 {
        lemma_decompose_properties_alpha(r, 190464);
    } else {
        lemma_decompose_properties_alpha(r, 523776);
    }
}

/// With q - 1 = m * alpha and alpha even: r = k * alpha + r0 with
/// -alpha/2 < r0 <= alpha/2 and 0 <= k <= m, and Decompose gives
/// (k, r0), except for k = m where it gives (0, r0 - 1).
pub proof fn lemma_decompose_char(x: int, alpha: int, m: int)
    requires
        0 <= x < Q as int,
        alpha > 0,
        alpha % 2 == 0,
        m * alpha == Q as int - 1,
    ensures
        ({
            let r0 = mod_pm(x, alpha);
            let k = (x - r0) / alpha;
            &&& x == k * alpha + r0
            &&& -(alpha / 2) < r0 <= alpha / 2
            &&& 0 <= k <= m
            &&& high_bits_spec(x, alpha) == (if k == m { 0 } else { k })
            &&& low_bits_spec(x, alpha) == (if k == m { r0 - 1 } else { r0 })
        }),
{
    let r0 = mod_pm(x, alpha);
    let md = x % alpha;
    let dv = x / alpha;
    vstd::arithmetic::div_mod::lemma_fundamental_div_mod(x, alpha);
    vstd::arithmetic::div_mod::lemma_mod_bound(x, alpha);
    let k0 = if md > alpha / 2 { dv + 1 } else { dv };
    assert(x == k0 * alpha + r0) by (nonlinear_arith)
        requires
            x == alpha * dv + md,
            r0 == (if md > alpha / 2 { md - alpha } else { md }),
            k0 == (if md > alpha / 2 { dv + 1 } else { dv }),
    ;
    vstd::arithmetic::div_mod::lemma_div_multiples_vanish(k0, alpha);
    assert((x - r0) / alpha == k0) by {
        assert(x - r0 == alpha * k0) by (nonlinear_arith)
            requires
                x == k0 * alpha + r0,
        ;
    }
    assert(0 <= k0 <= m) by (nonlinear_arith)
        requires
            x == k0 * alpha + r0,
            -(alpha / 2) < r0 <= alpha / 2,
            alpha % 2 == 0,
            alpha > 0,
            0 <= x < m * alpha + 1,
    ;
    assert((x - r0 == Q as int - 1) == (k0 == m)) by (nonlinear_arith)
        requires
            x - r0 == k0 * alpha,
            m * alpha == Q as int - 1,
            alpha > 0,
    ;
}

proof fn lemma_decompose_properties_alpha(r: int, alpha: int)
    requires
        0 <= r < Q as int,
        alpha == 190464 || alpha == 523776,
    ensures
        ({
            let (r1, r0) = decompose_spec(r, alpha);
            &&& (r - (r1 * alpha + r0)) % (Q as int) == 0
            &&& -(alpha / 2) <= r0 <= alpha / 2
            &&& 0 <= r1 < (Q as int - 1) / alpha
        }),
{
    let (r1, r0) = decompose_spec(r, alpha);
    if alpha == 190464 {
        if r - mod_pm(r, 190464) == Q as int - 1 {
            vstd::arithmetic::div_mod::lemma_mod_self_0(Q as int);
        } else {
            assert((r - (r1 * alpha + r0)) == 0);
        }
    } else {
        if r - mod_pm(r, 523776) == Q as int - 1 {
            vstd::arithmetic::div_mod::lemma_mod_self_0(Q as int);
        } else {
            assert((r - (r1 * alpha + r0)) == 0);
        }
    }
}

/// A small change e of r leaves HighBits alone when LowBits(r) has room
/// for it: for r in [0, q), |e| <= b and |LowBits(r)| < alpha/2 - b,
/// HighBits((r + e) mod q) = HighBits(r).
pub proof fn lemma_high_bits_stable(r: int, e: int, b: int, alpha: int)
    requires
        0 <= r < Q as int,
        alpha == 190464 || alpha == 523776,
        0 <= b,
        -b <= e <= b,
        -(alpha / 2 - b) < low_bits_spec(r, alpha) < alpha / 2 - b,
    ensures
        high_bits_spec((r + e) % (Q as int), alpha) == high_bits_spec(r, alpha),
{
    let m = (Q as int - 1) / alpha;
    let g = alpha / 2;
    assert(m * alpha == Q as int - 1 && m >= 2 && alpha % 2 == 0 && alpha == 2 * g);
    let y = r + e;
    let s = y % (Q as int);
    if y < 0 {
        vstd::arithmetic::div_mod::lemma_mod_add_multiples_vanish(y, Q as int);
        vstd::arithmetic::div_mod::lemma_small_mod((y + Q as int) as nat, Q as nat);
        assert(s == y + Q as int);
    } else if y >= Q as int {
        vstd::arithmetic::div_mod::lemma_mod_sub_multiples_vanish(y, Q as int);
        vstd::arithmetic::div_mod::lemma_small_mod((y - Q as int) as nat, Q as nat);
        assert(s == y - Q as int);
    } else {
        vstd::arithmetic::div_mod::lemma_small_mod(y as nat, Q as nat);
        assert(s == y);
    }
    lemma_decompose_char(r, alpha, m);
    lemma_decompose_char(s, alpha, m);
    let r0 = mod_pm(r, alpha);
    let kr = (r - r0) / alpha;
    let s0 = mod_pm(s, alpha);
    let ks = (s - s0) / alpha;
    if kr < m {
        assert(-(g - b) < r0 < g - b);
        if y < 0 {
            assert(kr == 0) by (nonlinear_arith)
                requires
                    r == kr * alpha + r0,
                    -g < r0 < g,
                    alpha == 2 * g,
                    g > 0,
                    0 <= kr,
                    r + e < 0,
                    -b <= e <= b,
                    -(g - b) < r0 < g - b,
            ;
            assert(ks == m) by (nonlinear_arith)
                requires
                    s == ks * alpha + s0,
                    -g < s0 <= g,
                    s == r + e + m * alpha + 1,
                    r == r0,
                    -(g - b) < r0,
                    -b <= e,
                    r + e < 0,
                    alpha == 2 * g,
                    g > 0,
                    0 <= ks <= m,
            ;
        } else if y >= Q as int {
            assert(false) by (nonlinear_arith)
                requires
                    r == kr * alpha + r0,
                    r0 < g - b,
                    e <= b,
                    r + e >= m * alpha + 1,
                    kr < m,
                    alpha == 2 * g,
                    g > 0,
            ;
        } else {
            assert(ks == kr) by (nonlinear_arith)
                requires
                    s == ks * alpha + s0,
                    r == kr * alpha + r0,
                    s == r + e,
                    -b <= e <= b,
                    -(g - b) < r0 < g - b,
                    -g < s0 <= g,
                    alpha == 2 * g,
                    g > 0,
            ;
        }
    } else {
        assert(kr == m);
        assert(-(g - b) < r0 - 1 < g - b);
        if y < 0 {
            assert(false) by (nonlinear_arith)
                requires
                    r == m * alpha + r0,
                    -(g - b) < r0 - 1,
                    -b <= e,
                    r + e < 0,
                    m >= 2,
                    alpha == 2 * g,
                    g > 0,
            ;
        } else if y >= Q as int {
            assert(ks == 0) by (nonlinear_arith)
                requires
                    s == ks * alpha + s0,
                    -g < s0 <= g,
                    s == r + e - (m * alpha + 1),
                    r == m * alpha + r0,
                    r0 - 1 < g - b,
                    e <= b,
                    0 <= ks,
                    alpha == 2 * g,
                    g > 0,
            ;
        } else {
            assert(ks == m) by (nonlinear_arith)
                requires
                    s == ks * alpha + s0,
                    -g < s0 <= g,
                    s == r + e,
                    r == m * alpha + r0,
                    -(g - b) < r0 - 1,
                    -b <= e,
                    ks <= m,
                    alpha == 2 * g,
                    g > 0,
            ;
        }
    }
}

} // verus!
