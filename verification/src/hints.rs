//! Hints (FIPS 204, Algorithms 39 and 40): MakeHint records whether adding
//! z to r changes the high bits of r, and UseHint recovers those high bits
//! from the perturbed value.

use vstd::prelude::*;
use crate::params::{DsaParams, N, Q, valid_gamma2};
use crate::poly::Poly;
use crate::rounding::{
    alpha_ok,
    decompose,
    decompose_optimized,
    decompose_spec,
    high_bits,
    high_bits_optimized,
    high_bits_spec,
    lemma_decompose_char,
    mod_pm,
};

verus! {

/// MakeHint as this library defines it: whether HighBits(r) differs from
/// HighBits((r + z) mod q).
pub open spec fn make_hint_spec(z: int, r: int, alpha: int) -> bool {
    high_bits_spec(r, alpha) != high_bits_spec((r + z) % (Q as int), alpha)
}

/// UseHint (FIPS 204, Algorithm 40): with m = (q-1)/alpha, returns r1 when
/// the hint is unset, and otherwise (r1 + 1) mod m when r0 > 0 and
/// (r1 - 1) mod m when r0 <= 0.
pub open spec fn use_hint_spec(h: bool, r: int, alpha: int) -> int {
    let (r1, r0) = decompose_spec(r, alpha);
    let m = (Q as int - 1) / alpha;
    if !h {
        r1
    } else if r0 > 0 {
        if r1 + 1 == m { 0 } else { r1 + 1 }
    } else {
        if r1 == 0 { m - 1 } else { r1 - 1 }
    }
}

/// The number of nonzero coefficients among the first `k` of `s`.
pub open spec fn count_nonzero(s: Seq<i32>, k: int) -> int
    decreases k,
{
    if k <= 0 {
        0
    } else {
        count_nonzero(s, k - 1) + (if s[k - 1] != 0 { 1int } else { 0int })
    }
}

/// (r + z) mod q for r in [0, q) and any 32-bit z.
pub fn add_mod_q(r: i32, z: i32) -> (s: i32)
    requires
        0 <= r < Q,
    ensures
        s as int == (r as int + z as int) % (Q as int),
        0 <= s < Q,
{
    // r + z + 257 q is nonnegative and has the same remainder.
    let u: u64 = ((r as i64) + (z as i64) + 2153767169i64) as u64;
    let m: u64 = u % 8380417u64;
    proof {
        vstd::arithmetic::div_mod::lemma_mod_multiples_vanish(
            257,
            r as int + z as int,
            Q as int,
        );
    }
    m as i32
}

/// MakeHint: whether adding z to r in [0, q) changes the high bits.
pub fn make_hint(z: i32, r: i32, alpha: i32) -> (h: bool)
    requires
        0 <= r < Q,
        alpha_ok(alpha as int),
    ensures
        h == make_hint_spec(z as int, r as int, alpha as int),
{
    let r1 = high_bits(r, alpha);
    let r_plus_z = add_mod_q(r, z);
    let v1 = high_bits(r_plus_z, alpha);
    r1 != v1
}

/// MakeHint with alpha = 2 * gamma2 of the parameter set P.
pub fn make_hint_optimized<P: DsaParams>(z: i32, r: i32) -> (h: bool)
    requires
        0 <= r < Q,
    ensures
        h == make_hint_spec(z as int, r as int, 2 * P::GAMMA2),
{
    let r1 = high_bits_optimized::<P>(r);
    let r_plus_z = add_mod_q(r, z);
    let v1 = high_bits_optimized::<P>(r_plus_z);
    r1 != v1
}

/// UseHint: the high bits of r, moved by one (modulo (q-1)/alpha) in the
/// direction of the low bits when the hint is set.
pub fn use_hint(h: bool, r: i32, alpha: i32) -> (r1: i32)
    requires
        0 <= r < Q,
        alpha_ok(alpha as int),
    ensures
        r1 as int == use_hint_spec(h, r as int, alpha as int),
{
    let (r1, r0) = decompose(r, alpha);
    if !h {
        return r1;
    }
    let m = (Q - 1) / alpha;
    if r0 > 0 {
        let result = r1 + 1;
        if result == m {
            0
        } else {
            result
        }
    } else {
        if r1 == 0 {
            m - 1
        } else {
            r1 - 1
        }
    }
}

/// UseHint with alpha = 2 * gamma2 of the parameter set P.
pub fn use_hint_optimized<P: DsaParams>(h: bool, r: i32) -> (r1: i32)
    requires
        0 <= r < Q,
    ensures
        r1 as int == use_hint_spec(h, r as int, 2 * P::GAMMA2),
{
    proof {
        P::lemma_param_set();
    }
    let alpha = 2 * P::GAMMA2;
    let (r1, r0) = decompose_optimized::<P>(r);
    if !h {
        return r1;
    }
    let m = (Q - 1) / alpha;
    if r0 > 0 {
        let result = r1 + 1;
        if result == m {
            0
        } else {
            result
        }
    } else {
        if r1 == 0 {
            m - 1
        } else {
            r1 - 1
        }
    }
}

/// Coefficients in [0, q).
pub open spec fn coeffs_reduced(p: Poly) -> bool {
    forall|i: int| 0 <= i < N ==> 0 <= #[trigger] p.coeffs[i] < Q
}

/// MakeHint on each pair of coefficients: 1 where the hint is set, 0
/// elsewhere.
pub fn make_hint_poly(z: &Poly, r: &Poly, alpha: i32) -> (hint: Poly)
    requires
        coeffs_reduced(*r),
        alpha_ok(alpha as int),
    ensures
        forall|i: int|
            0 <= i < N ==> #[trigger] hint.coeffs[i] == (if make_hint_spec(
                z.coeffs[i] as int,
                r.coeffs[i] as int,
                alpha as int,
            ) { 1i32 } else { 0i32 }),
{
    let mut hint = Poly::new();
    for i in 0..N
        invariant
            coeffs_reduced(*r),
            alpha_ok(alpha as int),
            forall|j: int|
                0 <= j < i ==> #[trigger] hint.coeffs[j] == (if make_hint_spec(
                    z.coeffs[j] as int,
                    r.coeffs[j] as int,
                    alpha as int,
                ) { 1i32 } else { 0i32 }),
    {
        hint.coeffs[i] = if make_hint(z.coeffs[i], r.coeffs[i], alpha) {
            1
        } else {
            0
        };
    }
    hint
}

/// MakeHint on each pair of coefficients, with alpha = 2 * gamma2 of P.
pub fn make_hint_poly_optimized<P: DsaParams>(z: &Poly, r: &Poly) -> (hint: Poly)
    requires
        coeffs_reduced(*r),
    ensures
        forall|i: int|
            0 <= i < N ==> #[trigger] hint.coeffs[i] == (if make_hint_spec(
                z.coeffs[i] as int,
                r.coeffs[i] as int,
                2 * P::GAMMA2,
            ) { 1i32 } else { 0i32 }),
{
    let mut hint = Poly::new();
    for i in 0..N
        invariant
            coeffs_reduced(*r),
            forall|j: int|
                0 <= j < i ==> #[trigger] hint.coeffs[j] == (if make_hint_spec(
                    z.coeffs[j] as int,
                    r.coeffs[j] as int,
                    2 * P::GAMMA2,
                ) { 1i32 } else { 0i32 }),
    {
        hint.coeffs[i] = if make_hint_optimized::<P>(z.coeffs[i], r.coeffs[i]) {
            1
        } else {
            0
        };
    }
    hint
}

/// UseHint on each coefficient of r, the hint being set where h is
/// nonzero.
pub fn use_hint_poly(h: &Poly, r: &Poly, alpha: i32) -> (res: Poly)
    requires
        coeffs_reduced(*r),
        alpha_ok(alpha as int),
    ensures
        forall|i: int|
            0 <= i < N ==> #[trigger] res.coeffs[i] as int == use_hint_spec(
                h.coeffs[i] != 0,
                r.coeffs[i] as int,
                alpha as int,
            ),
{
    let mut result = Poly::new();
    for i in 0..N
        invariant
            coeffs_reduced(*r),
            alpha_ok(alpha as int),
            forall|j: int|
                0 <= j < i ==> #[trigger] result.coeffs[j] as int == use_hint_spec(
                    h.coeffs[j] != 0,
                    r.coeffs[j] as int,
                    alpha as int,
                ),
    {
        let hint_bit = h.coeffs[i] != 0;
        result.coeffs[i] = use_hint(hint_bit, r.coeffs[i], alpha);
    }
    result
}

/// UseHint on each coefficient of r, with alpha = 2 * gamma2 of P.
pub fn use_hint_poly_optimized<P: DsaParams>(h: &Poly, r: &Poly) -> (res: Poly)
    requires
        coeffs_reduced(*r),
    ensures
        forall|i: int|
            0 <= i < N ==> #[trigger] res.coeffs[i] as int == use_hint_spec(
                h.coeffs[i] != 0,
                r.coeffs[i] as int,
                2 * P::GAMMA2,
            ),
{
    let mut result = Poly::new();
    for i in 0..N
        invariant
            coeffs_reduced(*r),
            forall|j: int|
                0 <= j < i ==> #[trigger] result.coeffs[j] as int == use_hint_spec(
                    h.coeffs[j] != 0,
                    r.coeffs[j] as int,
                    2 * P::GAMMA2,
                ),
    {
        let hint_bit = h.coeffs[i] != 0;
        result.coeffs[i] = use_hint_optimized::<P>(hint_bit, r.coeffs[i]);
    }
    result
}

/// The number of nonzero coefficients of h.
pub fn poly_hint_count(h: &Poly) -> (count: usize)
    ensures
        count as int == count_nonzero(h.coeffs@, N as int),
        count <= N,
{
    let mut count: usize = 0;
    for i in 0..N
        invariant
            count as int == count_nonzero(h.coeffs@, i as int),
            count <= i,
    {
        if h.coeffs[i] != 0 {
            count += 1;
        }
    }
    count
}

/// UseHint undoes MakeHint: for r in [0, q) and |z| <= gamma2, applying
/// the hint MakeHint(z, r) to (r + z) mod q gives back HighBits(r).
pub proof fn lemma_use_hint_recovers_high_bits(z: int, r: int, gamma2: int)
    requires
        0 <= r < Q as int,
        valid_gamma2(gamma2),
        -gamma2 <= z <= gamma2,
    ensures
        use_hint_spec(make_hint_spec(z, r, 2 * gamma2), (r + z) % (Q as int), 2 * gamma2)
            == high_bits_spec(r, 2 * gamma2),
{
    if gamma2 == 95232 {
        lemma_hint_alpha(z, r, 190464);
    } else {
        lemma_hint_alpha(z, r, 523776);
    }
}

proof fn lemma_hint_alpha(z: int, r: int, alpha: int)
    requires
        0 <= r < Q as int,
        alpha == 190464 || alpha == 523776,
        -(alpha / 2) <= z <= alpha / 2,
    ensures
        use_hint_spec(make_hint_spec(z, r, alpha), (r + z) % (Q as int), alpha)
            == high_bits_spec(r, alpha),
{
    let m = (Q as int - 1) / alpha;
    let g = alpha / 2;
    assert(m * alpha == Q as int - 1 && m >= 2 && alpha % 2 == 0);
    let s = (r + z) % (Q as int);
    let y = r + z;
    if y < 0 {
        vstd::arithmetic::div_mod::lemma_mod_add_multiples_vanish(y, Q as int);
        vstd::arithmetic::div_mod::lemma_small_mod((y + Q as int) as nat, Q as nat);
        assert(s == y + Q as int);
    } else if y >= Q as int {
        vstd::arithmetic::div_mod::lemma_mod_sub_multiples_vanish(y, Q as int);
        vstd::arithmetic::div_mod::lemma_small_mod((y - Q as int) as nat, Q as nat);
        assert(s == y - Q as int);
    } else {
        vstd::arithmetic::div_mod::lemma_small_mod(y as nat, Q as nat);
        assert(s == y);
    }
    lemma_decompose_char(r, alpha, m);
    lemma_decompose_char(s, alpha, m);
    let r0 = mod_pm(r, alpha);
    let kr = (r - r0) / alpha;
    let s0 = mod_pm(s, alpha);
    let ks = (s - s0) / alpha;
    if y < 0 {
        assert(kr == 0) by (nonlinear_arith)
            requires
                r == kr * alpha + r0,
                -g < r0 <= g,
                alpha == 2 * g,
                g > 0,
                0 <= r < g,
        ;
        assert(ks == m) by (nonlinear_arith)
            requires
                s == ks * alpha + s0,
                -g < s0 <= g,
                alpha == 2 * g,
                g > 0,
                s >= m * alpha + 1 - g,
                0 <= ks <= m,
        ;
    } else if y >= Q as int {
        assert(ks == 0) by (nonlinear_arith)
            requires
                s == ks * alpha + s0,
                -g < s0 <= g,
                alpha == 2 * g,
                g > 0,
                0 <= s < g,
        ;
        assert(kr == m) by (nonlinear_arith)
            requires
                r == kr * alpha + r0,
                -g < r0 <= g,
                alpha == 2 * g,
                g > 0,
                r >= m * alpha + 1 - g,
                0 <= kr <= m,
        ;
    } else {
        assert(ks == kr || ks == kr + 1 || ks == kr - 1) by (nonlinear_arith)
            requires
                s == ks * alpha + s0,
                r == kr * alpha + r0,
                s - r == z,
                -g <= z <= g,
                -g < s0 <= g,
                -g < r0 <= g,
                alpha == 2 * g,
                g > 0,
        ;
        if ks == kr + 1 {
            assert(s0 <= 0) by (nonlinear_arith)
                requires
                    s == ks * alpha + s0,
                    r == kr * alpha + r0,
                    s - r == z,
                    ks == kr + 1,
                    -g <= z <= g,
                    -g < r0 <= g,
                    alpha == 2 * g,
            ;
        }
        if ks == kr - 1 {
            assert(s0 > 0) by (nonlinear_arith)
                requires
                    s == ks * alpha + s0,
                    r == kr * alpha + r0,
                    s - r == z,
                    ks == kr - 1,
                    -g <= z <= g,
                    -g < r0 <= g,
                    alpha == 2 * g,
            ;
        }
    }
}

/// The positions j < n, in increasing order, of the nonzero coefficients
/// of s.
pub open spec fn nonzero_positions(s: Seq<i32>, n: int) -> Seq<u8>
    decreases n,
{
    if n <= 0 {
        Seq::empty()
    } else {
        nonzero_positions(s, n - 1) + (if s[n - 1] != 0 { seq![(n - 1) as u8] } else { Seq::empty() })
    }
}

/// The hint positions of the first k polynomials of h, polynomial after
/// polynomial: what HintBitPack writes before the counts.
pub open spec fn hint_positions(h: Seq<Poly>, k: int) -> Seq<u8>
    decreases k,
{
    if k <= 0 {
        Seq::empty()
    } else {
        hint_positions(h, k - 1) + nonzero_positions(h[k - 1].coeffs@, N as int)
    }
}

/// The number of positive coefficients among the first k of s.
pub open spec fn count_positive(s: Seq<i32>, k: int) -> int
    decreases k,
{
    if k <= 0 {
        0
    } else {
        count_positive(s, k - 1) + (if s[k - 1] > 0 { 1int } else { 0int })
    }
}

/// The number of positive coefficients of the first k polynomials of h:
/// the cumulative count that HintBitPack stores after polynomial k - 1.
pub open spec fn positive_total(h: Seq<Poly>, k: int) -> int
    decreases k,
{
    if k <= 0 {
        0
    } else {
        positive_total(h, k - 1) + count_positive(h[k - 1].coeffs@, N as int)
    }
}

proof fn lemma_nonzero_positions_prefix(s: Seq<i32>, n: int, m: int)
    requires
        0 <= n <= m,
    ensures
        nonzero_positions(s, n).len() <= nonzero_positions(s, m).len(),
        nonzero_positions(s, m).subrange(0, nonzero_positions(s, n).len() as int) == nonzero_positions(s, n),
    decreases m - n,
{
    if n < m {
        lemma_nonzero_positions_prefix(s, n, m - 1);
        let a = nonzero_positions(s, n);
        let b = nonzero_positions(s, m - 1);
        let c = nonzero_positions(s, m);
        assert(c.subrange(0, b.len() as int) =~= b);
        assert(c.subrange(0, a.len() as int) =~= b.subrange(0, a.len() as int));
    } else {
        assert(nonzero_positions(s, m).subrange(0, nonzero_positions(s, m).len() as int) =~= nonzero_positions(s, m));
    }
}

proof fn lemma_hint_positions_prefix(h: Seq<Poly>, k: int, m: int)
    requires
        0 <= k <= m,
    ensures
        hint_positions(h, k).len() <= hint_positions(h, m).len(),
        hint_positions(h, m).subrange(0, hint_positions(h, k).len() as int) == hint_positions(h, k),
    decreases m - k,
{
    if k < m {
        lemma_hint_positions_prefix(h, k, m - 1);
        let a = hint_positions(h, k);
        let b = hint_positions(h, m - 1);
        let c = hint_positions(h, m);
        assert(c.subrange(0, b.len() as int) =~= b);
        assert(c.subrange(0, a.len() as int) =~= b.subrange(0, a.len() as int));
    } else {
        assert(hint_positions(h, m).subrange(0, hint_positions(h, m).len() as int) =~= hint_positions(h, m));
    }
}

proof fn lemma_count_positive_bound(s: Seq<i32>, n: int)
    requires
        0 <= n,
    ensures
        0 <= count_positive(s, n) <= n,
    decreases n,
{
    if n > 0 {
        lemma_count_positive_bound(s, n - 1);
    }
}

proof fn lemma_positive_total_bound(h: Seq<Poly>, k: int)
    requires
        0 <= k,
    ensures
        0 <= positive_total(h, k) <= 256 * k,
    decreases k,
{
    if k > 0 {
        lemma_positive_total_bound(h, k - 1);
        lemma_count_positive_bound(h[k - 1].coeffs@, N as int);
    }
}

/// HintBitPack of the hint polynomials h into packed (omega + k bytes and
/// more): the positions of the nonzero coefficients, polynomial after
/// polynomial, in bytes 0, 1, ..., and after polynomial i the number of
/// positive coefficients so far, as a byte, at omega + i; returns the
/// number of positions. None when there are more than omega positions;
/// then the first omega of them have been written. No other byte changes.
pub fn pack_hints(h: &[Poly], packed: &mut [u8], omega: usize) -> (r: Option<usize>)
    requires
        omega + h@.len() <= old(packed)@.len(),
        h@.len() * 256 <= usize::MAX,
    ensures
        final(packed)@.len() == old(packed)@.len(),
        r is None <==> hint_positions(h@, h@.len() as int).len() > omega,
        r matches Some(t) ==> {
            &&& t == hint_positions(h@, h@.len() as int).len()
            &&& forall|i: int| 0 <= i < t ==> final(packed)@[i] == hint_positions(h@, h@.len() as int)[i]
            &&& forall|i: int|
                omega <= i < omega + h@.len() ==> #[trigger] final(packed)@[i] == (positive_total(h@, i - omega + 1) as u8)
            &&& forall|i: int|
                t <= i < final(packed)@.len() && !(omega <= i < omega + h@.len()) ==> final(packed)@[i]
                    == old(packed)@[i]
        },
        r is None ==> {
            &&& forall|i: int| 0 <= i < omega ==> final(packed)@[i] == hint_positions(h@, h@.len() as int)[i]
            &&& forall|i: int| omega <= i < final(packed)@.len() ==> final(packed)@[i] == old(packed)@[i]
        },
{
    let kk = h.len();
    let ghost all = hint_positions(h@, kk as int);
    let mut pos: usize = 0;
    for k in 0..kk
        invariant
            kk == h@.len(),
            all == hint_positions(h@, kk as int),
            omega + kk <= packed@.len(),
            packed@.len() == old(packed)@.len(),
            pos <= omega,
            pos == hint_positions(h@, k as int).len(),
            forall|i: int| 0 <= i < pos ==> packed@[i] == hint_positions(h@, k as int)[i],
            forall|i: int| pos <= i < packed@.len() ==> packed@[i] == old(packed)@[i],
    {
        let ghost before = hint_positions(h@, k as int);
        for j in 0..N
            invariant
                kk == h@.len(),
                k < kk,
                all == hint_positions(h@, kk as int),
                before == hint_positions(h@, k as int),
                omega + kk <= packed@.len(),
                packed@.len() == old(packed)@.len(),
                pos <= omega,
                pos == before.len() + nonzero_positions(h@[k as int].coeffs@, j as int).len(),
                forall|i: int| 0 <= i < pos ==> packed@[i] == (before + nonzero_positions(h@[k as int].coeffs@, j as int))[i],
                forall|i: int| pos <= i < packed@.len() ==> packed@[i] == old(packed)@[i],
        {
            let ghost cur = before + nonzero_positions(h@[k as int].coeffs@, j as int);
            let ghost next = before + nonzero_positions(h@[k as int].coeffs@, j + 1);
            if h[k].coeffs[j] != 0 {
                proof {
                    assert(next =~= cur.push(j as u8));
                }
                if pos >= omega {
                    proof {
                        lemma_nonzero_positions_prefix(h@[k as int].coeffs@, j + 1, N as int);
                        lemma_hint_positions_prefix(h@, k + 1, kk as int);
                        let full = hint_positions(h@, k + 1);
                        assert(full == before + nonzero_positions(h@[k as int].coeffs@, N as int));
                        assert(full.subrange(0, next.len() as int) =~= next);
                        assert forall|i: int| 0 <= i < omega implies packed@[i] == all[i] by {
                            assert(all.subrange(0, full.len() as int)[i] == full[i]);
                            assert(full.subrange(0, next.len() as int)[i] == next[i]);
                            assert(next[i] == cur[i]);
                        }
                    }
                    return None;
                }
                packed[pos] = j as u8;
                pos = pos + 1;
                proof {
                    assert forall|i: int| 0 <= i < pos implies packed@[i] == next[i] by {
                        if i < pos - 1 {
                            assert(next[i] == cur[i]);
                        }
                    }
                }
            } else {
                proof {
                    assert(next =~= cur);
                }
            }
        }
        proof {
            assert(hint_positions(h@, k + 1) == before + nonzero_positions(h@[k as int].coeffs@, N as int));
        }
    }
    let plen = packed.len();
    let ghost packed_pos = packed@;
    proof {
        assert(hint_positions(h@, kk as int) == all);
    }
    let mut cumulative: usize = 0;
    for k in 0..kk
        invariant
            kk == h@.len(),
            kk * 256 <= usize::MAX,
            omega + kk <= plen,
            plen == packed@.len(),
            packed@.len() == old(packed)@.len(),
            pos <= omega,
            cumulative as int == positive_total(h@, k as int),
            forall|i: int| omega <= i < omega + k ==> #[trigger] packed@[i] == (positive_total(h@, i - omega + 1) as u8),
            forall|i: int|
                0 <= i < packed@.len() && !(omega <= i < omega + k) ==> packed@[i] == packed_pos[i],
            pos == all.len(),
            packed_pos.len() == old(packed)@.len(),
            forall|i: int| 0 <= i < pos ==> packed_pos[i] == all[i],
            forall|i: int| pos <= i < packed_pos.len() ==> packed_pos[i] == old(packed)@[i],
    {
        let c = poly_positive_count(&h[k]);
        proof {
            lemma_positive_total_bound(h@, k + 1);
            assert(256 * (k + 1) <= kk * 256) by (nonlinear_arith)
                requires
                    k + 1 <= kk,
            ;
            assert(positive_total(h@, k + 1) == cumulative + c);
        }
        cumulative = cumulative + c;
        packed[omega + k] = #[verifier::truncate] (cumulative as u8);
    }
    proof {
        assert(hint_positions(h@, kk as int) == all);
    }
    Some(pos)
}

/// The number of positive coefficients of h.
fn poly_positive_count(h: &Poly) -> (count: usize)
    ensures
        count as int == count_positive(h.coeffs@, N as int),
        count <= N,
{
    let mut count: usize = 0;
    for i in 0..N
        invariant
            count as int == count_positive(h.coeffs@, i as int),
            count <= i,
    {
        if h.coeffs[i] > 0 {
            count += 1;
        }
    }
    count
}

/// The cumulative hint count of polynomial k in a HintBitPack encoding:
/// byte omega + k, and 0 before the first polynomial.
pub open spec fn hint_count_at(packed: Seq<u8>, omega: int, k: int) -> int {
    if k < 0 {
        0
    } else {
        packed[omega + k] as int
    }
}

/// The counts of the first k polynomials never decrease and are at most
/// omega: the checks that `unpack_hints` makes.
pub open spec fn hint_counts_ok(packed: Seq<u8>, omega: int, k: int) -> bool {
    forall|i: int|
        0 <= i < k ==> hint_count_at(packed, omega, i - 1) <= #[trigger] hint_count_at(packed, omega, i) <= omega
}

/// The hint polynomial of the positions in bytes lo..hi: 1 at each of
/// them, 0 elsewhere.
pub open spec fn hint_row(packed: Seq<u8>, lo: int, hi: int) -> Seq<i32> {
    Seq::new(
        N as nat,
        |j: int| if exists|i: int| lo <= i < hi && #[trigger] packed[i] as int == j { 1i32 } else { 0i32 },
    )
}

/// The zero polynomial's coefficients.
pub open spec fn zero_row() -> Seq<i32> {
    Seq::new(N as nat, |j: int| 0i32)
}

proof fn lemma_hint_row_step(packed: Seq<u8>, lo: int, hi: int)
    requires
        0 <= lo <= hi < packed.len(),
    ensures
        hint_row(packed, lo, hi + 1) == hint_row(packed, lo, hi).update(packed[hi] as int, 1i32),
{
    let a = hint_row(packed, lo, hi + 1);
    let b = hint_row(packed, lo, hi).update(packed[hi] as int, 1i32);
    assert forall|j: int| 0 <= j < N implies a[j] == b[j] by {
        if j == packed[hi] as int {
            assert(lo <= hi < hi + 1 && packed[hi] as int == j);
        } else {
            if exists|i: int| lo <= i < hi + 1 && #[trigger] packed[i] as int == j {
                let w = choose|i: int| lo <= i < hi + 1 && #[trigger] packed[i] as int == j;
                assert(lo <= w < hi && packed[w] as int == j);
            }
            if exists|i: int| lo <= i < hi && #[trigger] packed[i] as int == j {
                let w = choose|i: int| lo <= i < hi && #[trigger] packed[i] as int == j;
                assert(lo <= w < hi + 1 && packed[w] as int == j);
            }
        }
    }
    assert(a =~= b);
}

/// What the rows of `unpack_hints` hold when it stops at polynomial k:
/// the checks passed for the polynomials before k, and k is the last one
/// or its check failed.
proof fn lemma_unpack_rows(packed: Seq<u8>, o: int, k: int, kk: int, rows: Seq<Poly>)
    requires
        0 <= k <= kk,
        rows.len() == kk,
        hint_counts_ok(packed, o, k),
        forall|a: int|
            0 <= a < k ==> (#[trigger] rows[a]).coeffs@ == hint_row(
                packed,
                hint_count_at(packed, o, a - 1),
                hint_count_at(packed, o, a),
            ),
        forall|a: int| k <= a < kk ==> (#[trigger] rows[a]).coeffs@ == zero_row(),
        k < kk ==> !(hint_count_at(packed, o, k - 1) <= hint_count_at(packed, o, k) <= o),
    ensures
        hint_counts_ok(packed, o, kk) == (k == kk),
        forall|a: int|
            0 <= a < kk ==> (#[trigger] rows[a]).coeffs@ == (if hint_counts_ok(packed, o, a + 1) {
                hint_row(packed, hint_count_at(packed, o, a - 1), hint_count_at(packed, o, a))
            } else {
                zero_row()
            }),
{
    if k < kk {
        assert(!(hint_count_at(packed, o, k - 1) <= hint_count_at(packed, o, k) <= o));
    }
    assert forall|a: int| 0 <= a < kk implies (#[trigger] rows[a]).coeffs@ == (if hint_counts_ok(packed, o, a + 1) {
        hint_row(packed, hint_count_at(packed, o, a - 1), hint_count_at(packed, o, a))
    } else {
        zero_row()
    }) by {
        if a >= k {
            assert(!(hint_count_at(packed, o, k - 1) <= hint_count_at(packed, o, k) <= o));
            assert(!hint_counts_ok(packed, o, a + 1));
        } else {
            assert forall|i: int| 0 <= i < a + 1 implies hint_count_at(packed, o, i - 1)
                <= #[trigger] hint_count_at(packed, o, i) <= o by {
                assert(0 <= i < k);
            }
            assert(hint_counts_ok(packed, o, a + 1));
        }
    }
}

/// HintBitPack decoding of packed into the hint polynomials h: every
/// polynomial is first set to 0; then, for each i in order, the count c_i
/// at omega + i must be at least the previous one (0 before the first) and
/// at most omega, else false; polynomial i gets a 1 at each position in
/// bytes c_(i-1) .. c_i. So polynomial i ends as `hint_row` of its bytes
/// when the checks of polynomials 0..=i passed, and as 0 otherwise; true
/// exactly when all the checks passed.
pub fn unpack_hints(packed: &[u8], h: &mut [Poly], omega: usize) -> (ok: bool)
    requires
        omega + old(h)@.len() <= packed@.len(),
    ensures
        final(h)@.len() == old(h)@.len(),
        ok == hint_counts_ok(packed@, omega as int, old(h)@.len() as int),
        forall|k: int|
            0 <= k < old(h)@.len() ==> (#[trigger] final(h)@[k]).coeffs@ == (if hint_counts_ok(
                packed@,
                omega as int,
                k + 1,
            ) {
                hint_row(packed@, hint_count_at(packed@, omega as int, k - 1), hint_count_at(packed@, omega as int, k))
            } else {
                zero_row()
            }),
{
    let kk = h.len();
    for k in 0..kk
        invariant
            kk == h@.len(),
            h@.len() == old(h)@.len(),
            forall|a: int| 0 <= a < k ==> (#[trigger] h@[a]).coeffs@ == zero_row(),
    {
        let z = Poly::new();
        proof {
            assert(z.coeffs@ =~= zero_row());
        }
        h[k] = z;
    }
    let plen = packed.len();
    let ghost o = omega as int;
    let mut prev: usize = 0;
    let mut pos: usize = 0;
    for k in 0..kk
        invariant
            kk == h@.len(),
            h@.len() == old(h)@.len(),
            omega + kk <= plen,
            plen == packed@.len(),
            o == omega as int,
            pos == prev,
            prev <= omega,
            prev as int == hint_count_at(packed@, o, k - 1),
            hint_counts_ok(packed@, o, k as int),
            forall|a: int|
                0 <= a < k ==> (#[trigger] h@[a]).coeffs@ == hint_row(
                    packed@,
                    hint_count_at(packed@, o, a - 1),
                    hint_count_at(packed@, o, a),
                ),
            forall|a: int| k <= a < kk ==> (#[trigger] h@[a]).coeffs@ == zero_row(),
    {
        let cumulative = packed[omega + k] as usize;
        proof {
            assert(hint_count_at(packed@, o, k as int) == cumulative);
        }
        if cumulative < prev || cumulative > omega {
            proof {
                lemma_unpack_rows(packed@, o, k as int, kk as int, h@);
            }
            return false;
        }
        let mut row = h[k];
        proof {
            assert(row.coeffs@ =~= hint_row(packed@, prev as int, pos as int));
        }
        while pos < cumulative
            invariant
                prev <= pos <= cumulative,
                cumulative <= omega,
                omega + kk <= packed@.len(),
                row.coeffs@ == hint_row(packed@, prev as int, pos as int),
            decreases cumulative - pos,
        {
            if pos >= omega {
                return false;
            }
            let hint_pos = packed[pos] as usize;
            if hint_pos >= N {
                return false;
            }
            proof {
                lemma_hint_row_step(packed@, prev as int, pos as int);
            }
            row.coeffs[hint_pos] = 1;
            pos = pos + 1;
        }
        h[k] = row;
        proof {
            assert forall|i: int| 0 <= i < k + 1 implies hint_count_at(packed@, o, i - 1)
                <= #[trigger] hint_count_at(packed@, o, i) <= o by {
                if i < k {
                    assert(hint_count_at(packed@, o, i - 1) <= hint_count_at(packed@, o, i) <= o);
                }
            }
        }
        prev = cumulative;
    }
    proof {
        lemma_unpack_rows(packed@, o, kk as int, kk as int, h@);
    }
    true
}

} // verus!
