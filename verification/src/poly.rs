//! Polynomials of R_q = Z_q[X]/(X^256 + 1), held as 256 signed
//! coefficients.

use vstd::prelude::*;
use crate::params::{N, Q};
use crate::modq::{cong, lemma_cong_mod, lemma_mod_q_cong};

verus! {

/// x mod q in [0, q).
pub open spec fn mod_q(x: int) -> int {
    x % (Q as int)
}

/// |x mod± q|: the absolute value of the representative of x in
/// [-(q-1)/2, (q-1)/2].
pub open spec fn centered_abs(x: int) -> int {
    let r = mod_q(x);
    if r > 4190208 { Q as int - r } else { r }
}

/// The representative of x modulo q in [-(q-1)/2, (q-1)/2].
pub open spec fn center(x: int) -> int {
    let r = mod_q(x);
    if r > 4190208 { r - Q as int } else { r }
}

/// On [-(q-1)/2, (q-1)/2], |x mod± q| is |x|.
pub proof fn lemma_centered_abs_small(x: int)
    requires
        -4190208 <= x <= 4190208,
    ensures
        centered_abs(x) == (if x < 0 { -x } else { x }),
        center(x) == x,
{
    if x >= 0 {
        vstd::arithmetic::div_mod::lemma_small_mod(x as nat, Q as nat);
    } else {
        vstd::arithmetic::div_mod::lemma_mod_add_multiples_vanish(x, Q as int);
        vstd::arithmetic::div_mod::lemma_small_mod((x + Q) as nat, Q as nat);
    }
}

/// A polynomial with N = 256 coefficients.
#[derive(Clone, Copy, Debug, PartialEq, Eq)]
pub struct Poly {
    /// Coefficients, the constant term first.
    pub coeffs: [i32; 256],
}

impl View for Poly {
    type V = Seq<i32>;

    open spec fn view(&self) -> Seq<i32> {
        self.coeffs@
    }
}

/// The canonical representative of x modulo q, for any 32-bit x.
pub fn mod_q_i32(x: i32) -> (r: i32)
    ensures
        r as int == mod_q(x as int),
        0 <= r < Q,
{
    // x + 257 q is nonnegative and has the same remainder.
    let u: u64 = ((x as i64) + 2153767169i64) as u64;
    let r: u64 = u % 8380417u64;
    proof {
        vstd::arithmetic::div_mod::lemma_mod_multiples_vanish(257, x as int, Q as int);
        assert(u as int == x as int + 257 * (Q as int));
    }
    r as i32
}

/// |x mod± q| for any 32-bit x.
pub fn centered_abs_i32(x: i32) -> (r: i32)
    ensures
        r as int == centered_abs(x as int),
        0 <= r <= 4190208,
{
    let m = mod_q_i32(x);
    if m > 4190208 {
        Q - m
    } else {
        m
    }
}

/// The representative of x modulo q in [-(q-1)/2, (q-1)/2], for any
/// 32-bit x.
pub fn center_i32(x: i32) -> (r: i32)
    ensures
        r as int == center(x as int),
        -4190208 <= r <= 4190208,
        centered_abs(x as int) == (if r < 0 { -r } else { r as int }),
{
    let m = mod_q_i32(x);
    if m > 4190208 {
        m - Q
    } else {
        m
    }
}

impl Poly {
    /// The zero polynomial.
    pub fn new() -> (p: Poly)
        ensures
            forall|i: int| 0 <= i < N ==> #[trigger] p.coeffs[i] == 0,
    {
        Poly { coeffs: [0i32; 256] }
    }

    /// Whether every coefficient is 0.
    pub fn is_zero(&self) -> (b: bool)
        ensures
            b == (forall|i: int| 0 <= i < N ==> #[trigger] self.coeffs[i] == 0),
    {
        for i in 0..N
            invariant
                forall|j: int| 0 <= j < i ==> #[trigger] self.coeffs[j] == 0,
        {
            if self.coeffs[i] != 0 {
                return false;
            }
        }
        true
    }

    /// Coefficient-wise sum, without reduction; the caller keeps every sum
    /// within i32.
    pub fn add(&self, other: &Poly) -> (r: Poly)
        requires
            forall|i: int|
                0 <= i < N ==> i32::MIN <= #[trigger] self.coeffs[i] + other.coeffs[i]
                    <= i32::MAX,
        ensures
            forall|i: int| 0 <= i < N ==> #[trigger] r.coeffs[i] == self.coeffs[i] + other.coeffs[i],
    {
        let mut r = Poly::new();
        for i in 0..N
            invariant
                forall|j: int|
                    0 <= j < N ==> i32::MIN <= #[trigger] self.coeffs[j] + other.coeffs[j]
                        <= i32::MAX,
                forall|j: int| 0 <= j < i ==> #[trigger] r.coeffs[j] == self.coeffs[j] + other.coeffs[j],
        {
            r.coeffs[i] = self.coeffs[i] + other.coeffs[i];
        }
        r
    }

    /// Coefficient-wise difference, without reduction; the caller keeps
    /// every difference within i32.
    pub fn sub(&self, other: &Poly) -> (r: Poly)
        requires
            forall|i: int|
                0 <= i < N ==> i32::MIN <= #[trigger] self.coeffs[i] - other.coeffs[i]
                    <= i32::MAX,
        ensures
            forall|i: int| 0 <= i < N ==> #[trigger] r.coeffs[i] == self.coeffs[i] - other.coeffs[i],
    {
        let mut r = Poly::new();
        for i in 0..N
            invariant
                forall|j: int|
                    0 <= j < N ==> i32::MIN <= #[trigger] self.coeffs[j] - other.coeffs[j]
                        <= i32::MAX,
                forall|j: int| 0 <= j < i ==> #[trigger] r.coeffs[j] == self.coeffs[j] - other.coeffs[j],
        {
            r.coeffs[i] = self.coeffs[i] - other.coeffs[i];
        }
        r
    }

    /// Replaces every coefficient by its canonical representative in
    /// [0, q).
    pub fn reduce(&mut self)
        ensures
            forall|i: int|
                0 <= i < N ==> #[trigger] final(self).coeffs[i] as int == mod_q(
                    old(self).coeffs[i] as int,
                ),
    {
        for i in 0..N
            invariant
                forall|j: int|
                    0 <= j < i ==> #[trigger] self.coeffs[j] as int == mod_q(
                        old(self).coeffs[j] as int,
                    ),
                forall|j: int| i <= j < N ==> #[trigger] self.coeffs[j] == old(self).coeffs[j],
        {
            let c = self.coeffs[i];
            self.coeffs[i] = mod_q_i32(c);
        }
    }

    /// The largest |c mod± q| over the coefficients c.
    pub fn infinity_norm(&self) -> (r: i32)
        ensures
            0 <= r <= 4190208,
            forall|i: int| 0 <= i < N ==> centered_abs(#[trigger] self.coeffs[i] as int) <= r,
            exists|i: int| 0 <= i < N && centered_abs(#[trigger] self.coeffs[i] as int) == r,
    {
        let mut m: i32 = centered_abs_i32(self.coeffs[0]);
        for i in 1..N
            invariant
                0 <= m <= 4190208,
                forall|j: int| 0 <= j < i ==> centered_abs(#[trigger] self.coeffs[j] as int) <= m,
                exists|j: int| 0 <= j < i && centered_abs(#[trigger] self.coeffs[j] as int) == m,
        {
            let a = centered_abs_i32(self.coeffs[i]);
            if a > m {
                m = a;
            }
        }
        m
    }
}

/// x mod± q is congruent to x.
pub proof fn lemma_center_cong(x: int)
    ensures
        cong(center(x), x),
{
    lemma_mod_q_cong(x);
    let r = mod_q(x);
    if r > 4190208 {
        assert(center(x) - x == (r - x) - Q as int);
        vstd::arithmetic::div_mod::lemma_sub_mod_noop(r - x, Q as int, Q as int);
        vstd::arithmetic::div_mod::lemma_mod_self_0(Q as int);
    }
}

/// Congruent integers have the same representative mod± q.
pub proof fn lemma_center_eq(x: int, y: int)
    requires
        cong(x, y),
    ensures
        center(x) == center(y),
{
    lemma_cong_mod(x, y);
}

/// An integer in [-(q-1)/2, (q-1)/2] is the representative mod± q of
/// everything congruent to it.
pub proof fn lemma_center_small(x: int, y: int)
    requires
        cong(x, y),
        -4190208 <= y <= 4190208,
    ensures
        center(x) == y,
{
    lemma_cong_mod(x, y);
    if y >= 0 {
        vstd::arithmetic::div_mod::lemma_small_mod(y as nat, Q as nat);
    } else {
        vstd::arithmetic::div_mod::lemma_mod_add_multiples_vanish(y, Q as int);
        vstd::arithmetic::div_mod::lemma_small_mod((y + Q as int) as nat, Q as nat);
    }
}

} // verus!
