//! Congruence modulo q: equivalence, compatibility with the ring
//! operations, and Montgomery reduction read as a congruence.

use vstd::prelude::*;
use crate::params::Q;

verus! {

/// a = b (mod q).
pub open spec fn cong(a: int, b: int) -> bool {
    (a - b) % (Q as int) == 0
}

/// 2^-32 mod q.
pub open spec fn rinv() -> int {
    8265825
}

/// Multiples of q are closed under sums, differences and products.
pub proof fn lemma_multiples(x: int, y: int, c: int)
    requires
        x % (Q as int) == 0,
        y % (Q as int) == 0,
    ensures
        (x + y) % (Q as int) == 0,
        (x - y) % (Q as int) == 0,
        (x * c) % (Q as int) == 0,
        (c * x) % (Q as int) == 0,
        (-x) % (Q as int) == 0,
{
    vstd::arithmetic::div_mod::lemma_add_mod_noop(x, y, Q as int);
    vstd::arithmetic::div_mod::lemma_sub_mod_noop(x, y, Q as int);
    vstd::arithmetic::div_mod::lemma_mul_mod_noop_left(x, c, Q as int);
    vstd::arithmetic::div_mod::lemma_mul_mod_noop_right(c, x, Q as int);
    vstd::arithmetic::div_mod::lemma_sub_mod_noop(0, x, Q as int);
}

/// Congruence is an equivalence compatible with +, - and products.
pub proof fn lemma_cong_ops(a: int, b: int, c: int, d: int, k: int)
    requires
        cong(a, b),
        cong(c, d),
    ensures
        cong(b, a),
        cong(a + c, b + d),
        cong(a - c, b - d),
        cong(a * k, b * k),
        cong(k * a, k * b),
        cong(a * c, b * d),
{
    lemma_multiples(a - b, c - d, k);
    assert(b - a == -(a - b));
    assert((a + c) - (b + d) == (a - b) + (c - d));
    assert((a - c) - (b - d) == (a - b) - (c - d));
    assert(a * k - b * k == (a - b) * k) by (nonlinear_arith);
    assert(k * a - k * b == k * (a - b)) by (nonlinear_arith);
    lemma_multiples(a - b, 0, c);
    lemma_multiples(c - d, 0, b);
    lemma_multiples((a - b) * c, (c - d) * b, 0);
    assert(a * c - b * d == (a - b) * c + (c - d) * b) by (nonlinear_arith);
}

/// Congruence is transitive.
pub proof fn lemma_cong_trans(a: int, b: int, c: int)
    requires
        cong(a, b),
        cong(b, c),
    ensures
        cong(a, c),
{
    lemma_multiples(a - b, b - c, 0);
    assert(a - c == (a - b) + (b - c));
}

/// Montgomery reduction as a congruence: t 2^32 = z x (mod q) gives
/// t = (z 2^-32) x (mod q).
pub proof fn lemma_mont_cong(t: int, z: int, x: int)
    requires
        (t * 4294967296 - z * x) % (Q as int) == 0,
    ensures
        cong(t, (z * rinv()) * x),
{
    let ri = rinv();
    assert((4294967296 * ri - 1) % (Q as int) == 0) by {
        assert(4294967296 * ri - 1 == 35501448049459199);
    }
    lemma_multiples(4294967296 * ri - 1, 0, -t);
    lemma_multiples(t * 4294967296 - z * x, 0, ri);
    lemma_multiples((4294967296 * ri - 1) * -t, (t * 4294967296 - z * x) * ri, 0);
    assert(t - (z * ri) * x == (4294967296 * ri - 1) * -t + (t * 4294967296 - z * x) * ri) by (nonlinear_arith);
}

/// Congruent integers have the same remainder modulo q.
pub proof fn lemma_cong_mod(a: int, b: int)
    requires
        cong(a, b),
    ensures
        a % (Q as int) == b % (Q as int),
{
    let d = a - b;
    vstd::arithmetic::div_mod::lemma_fundamental_div_mod(d, Q as int);
    vstd::arithmetic::div_mod::lemma_mod_multiples_vanish(d / (Q as int), b, Q as int);
    assert(a == (Q as int) * (d / (Q as int)) + b);
}

/// x mod q is congruent to x.
pub proof fn lemma_mod_q_cong(x: int)
    ensures
        cong(x % (Q as int), x),
{
    vstd::arithmetic::div_mod::lemma_fundamental_div_mod(x, Q as int);
    vstd::arithmetic::div_mod::lemma_mod_multiples_basic(-(x / (Q as int)), Q as int);
    assert(x % (Q as int) - x == -(x / (Q as int)) * (Q as int)) by (nonlinear_arith)
        requires
            x == (Q as int) * (x / (Q as int)) + x % (Q as int),
    ;
}

} // verus!
