//! Reductions modulo q: Montgomery reduction, the centered reduction
//! `reduce32`, the conditional addition `caddq` and `freeze`.

use vstd::prelude::*;
use crate::params::Q;
use crate::consts::two32;

verus! {

/// |a| < q * 2^31: the inputs on which Montgomery reduction returns a
/// value in (-q, q).
pub open spec fn montgomery_input_ok(a: int) -> bool {
    -(Q as int) * 2147483648 < a < (Q as int) * 2147483648
}

/// The factor m of Montgomery reduction: the low 32 bits of a times
/// q^-1 mod 2^32, read as a signed 32-bit number.
pub open spec fn mont_factor(a: i64) -> int {
    (((a as i32) as i64 * 58728449i64) as i32) as int
}

/// |a| < q * 2^32: the inputs that `montgomery_reduce_scalar` accepts.
pub open spec fn montgomery_wide_input_ok(a: int) -> bool {
    -(Q as int) * 4294967296 < a < (Q as int) * 4294967296
}

/// The step of Montgomery reduction: for |a| < q * 2^32, t = (a - m q) /
/// 2^32 for the factor m of `mont_factor`, so that t * 2^32 = a (mod q).
/// Then |t| < 3q/2, and -q < t < q when |a| < q * 2^31.
fn mont_step(a: i64) -> (t: i32)
    requires
        montgomery_wide_input_ok(a as int),
    ensures
        (t as int) * two32() == a as int - mont_factor(a) * (Q as int),
        -3 * Q < 2 * t < 3 * Q,
        montgomery_input_ok(a as int) ==> -Q < t < Q,
        ((t as int) * two32() - a as int) % (Q as int) == 0,
{
    let a_lo: i32 = a as i32;
    let p: i64 = (a_lo as i64) * 58728449i64;
    let m: i32 = p as i32;
    let x: i64 = a - (m as i64) * 8380417i64;
    let hi: i64 = x >> 32u32;
    proof {
        // a = a_lo + 2^32 * k1 and p = m + 2^32 * k2.
        let d1: i64 = (a - (a_lo as i64)) as i64;
        let d2: i64 = (p - (m as i64)) as i64;
        assert(d1 & 0xffff_ffffi64 == 0i64) by (bit_vector)
            requires
                a_lo == a as i32,
                d1 == a - (a_lo as i64),
        ;
        assert(d2 & 0xffff_ffffi64 == 0i64) by (bit_vector)
            requires
                m == p as i32,
                d2 == p - (m as i64),
        ;
        let k1: i64 = d1 >> 32u32;
        let k2: i64 = d2 >> 32u32;
        assert(k1 * 4294967296i64 == d1) by (bit_vector)
            requires
                d1 & 0xffff_ffffi64 == 0i64,
                k1 == d1 >> 32u32,
        ;
        assert(k2 * 4294967296i64 == d2) by (bit_vector)
            requires
                d2 & 0xffff_ffffi64 == 0i64,
                k2 == d2 >> 32u32,
        ;
        assert(hi * 4294967296i64 <= x && x < (hi + 1) * 4294967296i64) by (bit_vector)
            requires
                hi == x >> 32u32,
        ;
        // q * qinv = 1 + 114592 * 2^32, so x = 2^32 * (k1 + q * k2 - 114592 * a_lo).
        let kk: int = k1 as int + 8380417 * (k2 as int) - 114592 * (a_lo as int);
        assert(x as int == kk * two32()) by (nonlinear_arith)
            requires
                x as int == a as int - (m as int) * 8380417,
                a as int == a_lo as int + (k1 as int) * 4294967296,
                p as int == m as int + (k2 as int) * 4294967296,
                p as int == (a_lo as int) * 58728449,
                kk == k1 as int + 8380417 * (k2 as int) - 114592 * (a_lo as int),
                two32() == 4294967296,
        ;
        assert(hi as int == kk) by (nonlinear_arith)
            requires
                (hi as int) * 4294967296 <= x as int,
                (x as int) < (hi as int + 1) * 4294967296,
                x as int == kk * 4294967296,
        ;
        let mm: int = m as int;
        assert(-3 * 8380417 < 2 * kk < 3 * 8380417) by (nonlinear_arith)
            requires
                x as int == kk * 4294967296,
                x as int == a as int - mm * 8380417,
                -2147483648 <= mm < 2147483648,
                -8380417 * 4294967296 < a < 8380417 * 4294967296,
        ;
        assert(montgomery_input_ok(a as int) ==> -8380417 < kk < 8380417) by (nonlinear_arith)
            requires
                x as int == kk * 4294967296,
                x as int == a as int - mm * 8380417,
                -2147483648 <= mm < 2147483648,
                montgomery_input_ok(a as int) ==> -8380417 * 2147483648 < a < 8380417 * 2147483648,
        ;
    }
    let t = hi as i32;
    proof {
        assert(m as int == mont_factor(a));
        assert((t as int) * two32() - a as int == -(m as int) * (Q as int));
        vstd::arithmetic::div_mod::lemma_mod_multiples_basic(-(m as int), Q as int);
    }
    t
}

/// Montgomery reduction as a function of an integer v: (v - m q) / 2^32
/// for the factor m of `mont_factor`.
pub open spec fn mont(v: int) -> int {
    (v - mont_factor(v as i64) * (Q as int)) / two32()
}

/// `mont(v)` brought into (-q, q): q is subtracted when it is at least q
/// and added when it is at most -q.
pub open spec fn mont_centered(v: int) -> int {
    let t = mont(v);
    if t >= Q as int {
        t - Q as int
    } else if t <= -(Q as int) {
        t + Q as int
    } else {
        t
    }
}

/// Montgomery reduction: for |a| < q * 2^32, returns t = a * 2^-32 mod q
/// with -q < t < q. It is (a - m q) / 2^32 for the factor m of
/// `mont_factor`, which lies in (-3q/2, 3q/2), with q subtracted or added
/// once when that falls outside (-q, q) (only possible for |a| >= q 2^31).
pub fn montgomery_reduce_scalar(a: i64) -> (t: i32)
    requires
        montgomery_wide_input_ok(a as int),
    ensures
        t as int == mont_centered(a as int),
        -Q < t < Q,
        ((t as int) * two32() - a as int) % (Q as int) == 0,
        montgomery_input_ok(a as int) ==> (t as int) * two32() == a as int - mont_factor(a) * (Q as int),
{
    let t = mont_step(a);
    proof {
        assert((a as int) as i64 == a);
        vstd::arithmetic::div_mod::lemma_fundamental_div_mod_converse(
            a as int - mont_factor(a) * (Q as int),
            two32(),
            t as int,
            0,
        );
        assert(t as int == mont(a as int));
    }
    if t >= 8380417 {
        proof {
            assert(((t - 8380417) as int) * two32() - a as int == ((t as int) * two32() - a as int) - (Q as int)
                * two32()) by (nonlinear_arith);
            assert(((Q as int) * two32()) % (Q as int) == 0) by {
                vstd::arithmetic::div_mod::lemma_mod_multiples_basic(two32(), Q as int);
                assert((Q as int) * two32() == two32() * (Q as int)) by (nonlinear_arith);
            }
            crate::modq::lemma_multiples((t as int) * two32() - a as int, (Q as int) * two32(), 0);
        }
        t - 8380417
    } else if t <= -8380417 {
        proof {
            assert(((t + 8380417) as int) * two32() - a as int == ((t as int) * two32() - a as int) + (Q as int)
                * two32()) by (nonlinear_arith);
            assert(((Q as int) * two32()) % (Q as int) == 0) by {
                vstd::arithmetic::div_mod::lemma_mod_multiples_basic(two32(), Q as int);
                assert((Q as int) * two32() == two32() * (Q as int)) by (nonlinear_arith);
            }
            crate::modq::lemma_multiples((t as int) * two32() - a as int, (Q as int) * two32(), 0);
        }
        t + 8380417
    } else {
        t
    }
}

/// Montgomery reduction, as used by the NTT, on |a| < q * 2^31: same as
/// [`montgomery_reduce_scalar`] there, where no correction is needed.
pub fn montgomery_reduce(a: i64) -> (t: i32)
    requires
        montgomery_input_ok(a as int),
    ensures
        t as int == mont(a as int),
        (t as int) * two32() == a as int - mont_factor(a) * (Q as int),
        -Q < t < Q,
        ((t as int) * two32() - a as int) % (Q as int) == 0,
{
    let t = montgomery_reduce_scalar(a);
    proof {
        assert((a as int) as i64 == a);
        vstd::arithmetic::div_mod::lemma_fundamental_div_mod_converse(
            a as int - mont_factor(a) * (Q as int),
            two32(),
            t as int,
            0,
        );
    }
    t
}

/// Reduction to a representative close to 0: for a <= 2^31 - 2^22 - 1,
/// returns r = a - t q with t = floor((a + 2^22) / 2^23), so that
/// r = a (mod q) and -6291200 <= r <= 6283008.
pub fn reduce32(a: i32) -> (r: i32)
    requires
        a <= 2143289343,
    ensures
        r as int == a as int - ((a as int + 4194304) / 8388608) * (Q as int),
        -6291200 <= r <= 6283008,
        (r as int - a as int) % (Q as int) == 0,
{
    let x: i32 = a + 4194304;
    let t: i32 = x >> 23u32;
    assert(t * 8388608 <= x && x < (t + 1) * 8388608 && -256 <= t < 256) by (bit_vector)
        requires
            t == x >> 23u32,
    ;
    let r = a - t * Q;
    proof {
        vstd::arithmetic::div_mod::lemma_fundamental_div_mod_converse(
            x as int,
            8388608,
            t as int,
            x as int - (t as int) * 8388608,
        );
        assert(r as int - a as int == -(t as int) * (Q as int));
        vstd::arithmetic::div_mod::lemma_mod_multiples_basic(-(t as int), Q as int);
    }
    r
}

/// Adds q to a negative input: for -q < a < q returns a + q if a < 0 and a
/// otherwise.
pub fn caddq(a: i32) -> (r: i32)
    requires
        -Q < a < Q,
    ensures
        r as int == (if a < 0 { a as int + Q as int } else { a as int }),
        0 <= r < Q,
{
    let mask = (a >> 31u32) & Q;
    assert(mask == (if a < 0 { 8380417i32 } else { 0i32 })) by (bit_vector)
        requires
            mask == (a >> 31u32) & 8380417i32,
    ;
    a + mask
}

/// The canonical representative of a modulo q, for a <= 2^31 - 2^22 - 1.
pub fn freeze(a: i32) -> (r: i32)
    requires
        a <= 2143289343,
    ensures
        r as int == (a as int) % (Q as int),
        0 <= r < Q,
{
    let t = reduce32(a);
    let r = caddq(t);
    proof {
        assert((r as int - a as int) % (Q as int) == 0) by {
            if t < 0 {
                vstd::arithmetic::div_mod::lemma_mod_add_multiples_vanish(t as int - a as int, Q as int);
            }
        }
        vstd::arithmetic::div_mod::lemma_fundamental_div_mod(a as int - r as int, Q as int);
        vstd::arithmetic::div_mod::lemma_fundamental_div_mod(a as int, Q as int);
        vstd::arithmetic::div_mod::lemma_mod_add_multiples_vanish(0, Q as int);
        lemma_congruent_small_is_mod(a as int, r as int, Q as int);
    }
    r
}

/// Two numbers that differ by a multiple of m, the second of them in [0, m),
/// have the same remainder.
pub proof fn lemma_congruent_small_is_mod(a: int, r: int, m: int)
    requires
        m > 0,
        0 <= r < m,
        (r - a) % m == 0,
    ensures
        r == a % m,
{
    vstd::arithmetic::div_mod::lemma_fundamental_div_mod(r - a, m);
    let k = (r - a) / m;
    assert(r - a == m * k);
    assert(a == r - k * m) by (nonlinear_arith)
        requires
            r - a == m * k,
    ;
    vstd::arithmetic::div_mod::lemma_mod_multiples_vanish(-k, r, m);
    assert(r - k * m == r + (-k) * m) by (nonlinear_arith);
    vstd::arithmetic::div_mod::lemma_small_mod(r as nat, m as nat);
}

} // verus!
