//! Signing (FIPS 204, ML-DSA.Sign_internal): the Fiat-Shamir with aborts
//! loop over masking vectors y, with the norm and hint checks that reject
//! an attempt.

use vstd::prelude::*;
use core::marker::PhantomData;
use crate::batch::{encode_w1, w1_bytes};
use crate::hints::{count_nonzero, make_hint_optimized, poly_hint_count};
use crate::keygen::{SecretKey, lemma_cache_matrix_ok, ntt_all};
use crate::ntt::{
    coeffs_bounded,
    cong_at,
    cong_seq,
    ints,
    inv_ntt_spec,
    lemma_cong_seq_ops,
    lemma_cong_seq_refl,
    lemma_cong_seq_trans,
    lemma_inv_ntt_spec_cong,
    lemma_mod_seq_cong,
    lemma_row_sum_cong,
    matrix_vector_mul_ntt,
    mod_seq,
    ntt,
    ntt_product_inverse,
    ntt_spec,
    pointwise,
    poly_ints,
    polyvec_ok,
    row_sum,
};
use crate::modq::{cong, lemma_cong_mod, lemma_cong_ops, lemma_cong_trans};
use crate::params::{DsaParams, N, Q};
use crate::poly::{Poly, center, center_i32, centered_abs, lemma_center_cong, lemma_center_eq};
use crate::rng::fill_random;
use crate::rounding::{high_bits_optimized, high_bits_spec, low_bits_optimized, low_bits_spec};
use crate::hints::{add_mod_q, make_hint_spec};
use crate::sampling::{gamma1_bits, index_seed, sample_in_ball, sample_in_ball_spec};
use crate::packing::bits_value;
use crate::verify::challenge_of;
use crate::symmetric::{append_bytes, h, h_var, shake256_spec};

verus! {

/// Number of masking vectors that signing tries before it gives up.
pub const MAX_SIGN_ATTEMPTS: usize = 576;

/// A signature: the commitment hash c~, the response z (l polynomials,
/// coefficients centered modulo q) and the hint h (k polynomials of 0s and
/// 1s).
#[derive(Debug)]
pub struct Signature<P: DsaParams> {
    /// Commitment hash c~ (CTILDEBYTES bytes).
    pub c_tilde: Vec<u8>,
    /// Response vector z.
    pub z: Vec<Poly>,
    /// Hint vector h.
    pub h: Vec<Poly>,
    /// The parameter set.
    pub _phantom: PhantomData<P>,
}

impl<P: DsaParams> Clone for Signature<P> {
    fn clone(&self) -> Self {
        Signature {
            c_tilde: self.c_tilde.clone(),
            z: self.z.clone(),
            h: self.h.clone(),
            _phantom: PhantomData,
        }
    }
}

/// The number of nonzero hint coefficients over all polynomials of h.
pub open spec fn hint_total(h: Seq<Poly>) -> int
    decreases h.len(),
{
    if h.len() == 0 {
        0
    } else {
        hint_total(h.drop_last()) + count_nonzero(h.last().coeffs@, N as int)
    }
}

/// What verification checks of a signature's shape: the lengths of c~, z
/// and h, ||z|| < gamma1 - beta, and at most omega hints.
pub open spec fn sig_ok<P: DsaParams>(sig: Signature<P>) -> bool {
    &&& sig.c_tilde@.len() == P::CTILDEBYTES
    &&& sig.z@.len() == P::L
    &&& sig.h@.len() == P::K
    &&& forall|r: int, i: int|
        0 <= r < P::L && 0 <= i < N ==> centered_abs(#[trigger] sig.z@[r].coeffs[i] as int) < P::GAMMA1
            - P::BETA
    &&& hint_total(sig.h@) <= P::OMEGA
}

/// w1 holds the high bits (alpha = 2 gamma2) of w, k polynomials.
pub open spec fn high_bits_of<P: DsaParams>(w1: Seq<Poly>, w: Seq<Seq<int>>) -> bool {
    &&& w1.len() == P::K
    &&& forall|i: int, j: int|
        0 <= i < P::K && 0 <= j < N ==> #[trigger] w1[i].coeffs[j] as int == high_bits_spec(w[i][j], 2 * P::GAMMA2)
}

/// c times a polynomial s that a secret key keeps as s_hat = NTT(s):
/// InvNTT(NTT(c) o s_hat 2^-32), modulo q.
pub open spec fn key_product(c: Seq<i32>, s_hat: Poly) -> Seq<int> {
    inv_ntt_spec(pointwise(ntt_spec(ints(c)), ints(s_hat.coeffs@)))
}

/// The commitment w = InvNTT(A NTT(y)) of signing for the masking vector
/// y, each coefficient in [0, q), with A the matrix that the key holds.
pub open spec fn sign_commitment<P: DsaParams>(sk: SecretKey<P>, y: Seq<Seq<int>>) -> Seq<Seq<int>> {
    Seq::new(
        P::K as nat,
        |i: int|
            mod_seq(
                inv_ntt_spec(
                    row_sum(
                        poly_ints(sk.cached_a_ntt@[i]@),
                        Seq::new(P::L as nat, |j: int| ntt_spec(y[j])),
                        P::L as int,
                    ),
                ),
            ),
    )
}

/// The checks of signing at one coefficient, for w, cs2 = c s2 and
/// ct0 = c t0: with r = (w - cs2) mod q and t = ct0 mod± q,
/// |LowBits(r)| < gamma2 - beta and |t| < gamma2.
pub open spec fn hint_checks<P: DsaParams>(w: int, cs2: int, ct0: int) -> bool {
    let r = (w - cs2) % (Q as int);
    let t = center(ct0);
    &&& -(P::GAMMA2 - P::BETA) < low_bits_spec(r, 2 * P::GAMMA2) < P::GAMMA2 - P::BETA
    &&& -P::GAMMA2 < t < P::GAMMA2
}

/// The hint bit of signing at one coefficient: MakeHint(-t, (r + t) mod q)
/// for r = (w - cs2) mod q and t = ct0 mod± q, as 1 or 0.
pub open spec fn hint_bit<P: DsaParams>(w: int, cs2: int, ct0: int) -> int {
    let r = (w - cs2) % (Q as int);
    let t = center(ct0);
    if make_hint_spec(-t, (r + t) % (Q as int), 2 * P::GAMMA2) {
        1
    } else {
        0
    }
}

/// The coefficient passed the checks of signing and hv is its hint bit.
pub open spec fn hint_ok<P: DsaParams>(hv: i32, w: int, cs2: int, ct0: int) -> bool {
    &&& hint_checks::<P>(w, cs2, ct0)
    &&& hv as int == hint_bit::<P>(w, cs2, ct0)
}

/// How signing made sig from the masking vector y (FIPS 204, Algorithm 7):
/// c~ is the hash of mu with HighBits(w) for w = A y, c = SampleInBall(c~)
/// has tau coefficients +-1, z = y + c s1 (mod q), and each hint passed
/// the checks of `hint_ok` for w, c s2 and c t0.
pub open spec fn sign_trace<P: DsaParams>(sig: Signature<P>, sk: SecretKey<P>, mu: Seq<u8>, y: Seq<Seq<int>>) -> bool {
    let c = challenge_of(sig);
    let w = sign_commitment(sk, y);
    &&& y.len() == P::L
    &&& forall|j: int| 0 <= j < P::L ==> (#[trigger] y[j]).len() == 256
    &&& sample_in_ball_spec(sig.c_tilde@, P::TAU as int) is Some
    &&& c.len() == N
    &&& forall|i: int| 0 <= i < N ==> -1 <= #[trigger] c[i] <= 1
    &&& count_nonzero(c, N as int) == P::TAU
    &&& exists|w1: Seq<Poly>| #[trigger] high_bits_of::<P>(w1, w) && sig.c_tilde@ == commitment_hash::<P>(mu, w1)
    &&& forall|a: int, i: int|
        0 <= a < P::L && 0 <= i < N ==> cong(
            #[trigger] sig.z@[a].coeffs[i] as int,
            y[a][i] + key_product(c, sk.s1_hat@[a])[i],
        )
    &&& forall|a: int, i: int|
        0 <= a < P::K && 0 <= i < N ==> hint_ok::<P>(
            #[trigger] sig.h@[a].coeffs[i],
            w[a][i],
            key_product(c, sk.s2_hat@[a])[i],
            key_product(c, sk.t0_hat@[a])[i],
        )
}

/// The checks and the hint bit of a coefficient read cs2 and ct0 modulo q
/// only.
proof fn lemma_hint_ok_cong<P: DsaParams>(hv: i32, w: int, cs2: int, cs2b: int, ct0: int, ct0b: int)
    requires
        cong(cs2, cs2b),
        cong(ct0, ct0b),
    ensures
        hint_ok::<P>(hv, w, cs2, ct0) == hint_ok::<P>(hv, w, cs2b, ct0b),
        hint_checks::<P>(w, cs2, ct0) == hint_checks::<P>(w, cs2b, ct0b),
        hint_bit::<P>(w, cs2, ct0) == hint_bit::<P>(w, cs2b, ct0b),
{
    assert(cong(w, w)) by {
        assert(w - w == 0);
    }
    lemma_cong_ops(w, w, cs2, cs2b, 0);
    lemma_cong_mod(w - cs2, w - cs2b);
    lemma_center_eq(ct0, ct0b);
}

/// With c_hat = NTT(c) modulo q, InvNTT(c_hat o s_hat 2^-32) is
/// `key_product` of c and s_hat modulo q.
proof fn lemma_key_product_cong(c_hat: Poly, c: Seq<i32>, s_hat: Poly)
    requires
        cong_seq(ints(c_hat.coeffs@), ntt_spec(ints(c))),
    ensures
        cong_seq(inv_ntt_spec(pointwise(ints(c_hat.coeffs@), ints(s_hat.coeffs@))), key_product(c, s_hat)),
{
    let sh = ints(s_hat.coeffs@);
    lemma_cong_seq_refl(sh);
    lemma_cong_seq_ops(ints(c_hat.coeffs@), ntt_spec(ints(c)), sh, sh);
    lemma_inv_ntt_spec_cong(pointwise(ints(c_hat.coeffs@), sh), pointwise(ntt_spec(ints(c)), sh));
}

/// The challenge hash of a commitment: c~ = H(mu || w1Encode(w1)).
pub open spec fn commitment_hash<P: DsaParams>(mu: Seq<u8>, w1: Seq<Poly>) -> Seq<u8> {
    shake256_spec(mu + w1_bytes(w1, P::W1_BITS as int), P::CTILDEBYTES as nat)
}

/// What signing with the key sk and message representative mu produces: a
/// signature of the right shape, z centered with ||z|| < gamma1 - beta, h
/// of 0s and 1s, made from some masking vector y as `sign_trace` says.
pub open spec fn signed_with<P: DsaParams>(sig: Signature<P>, sk: SecretKey<P>, mu: Seq<u8>) -> bool {
    &&& sig_ok(sig)
    &&& forall|r: int, i: int|
        0 <= r < P::L && 0 <= i < N ==> -(P::GAMMA1 - P::BETA) < #[trigger] sig.z@[r].coeffs[i]
            < P::GAMMA1 - P::BETA
    &&& forall|r: int, i: int|
        0 <= r < P::K && 0 <= i < N ==> (#[trigger] sig.h@[r].coeffs[i] == 0 || sig.h@[r].coeffs[i]
            == 1)
    &&& exists|y: Seq<Seq<int>>| #[trigger] sign_trace(sig, sk, mu, y)
}

/// The message representative mu = H(tr || M, 64).
pub open spec fn message_rep(tr: Seq<u8>, msg: Seq<u8>) -> Seq<u8> {
    shake256_spec(tr + msg, 64)
}

/// The message representative mu is the 64-byte SHAKE256 hash of the 64
/// bytes of tr followed by the message (FIPS 204, Algorithm 7 line 6 and
/// Algorithm 8 line 7): the hashed input is tr || M, of 64 + |M| bytes,
/// with tr as its first 64 bytes and M as the rest.
pub proof fn lemma_message_rep_hashes_tr_then_message(tr: Seq<u8>, msg: Seq<u8>)
    requires
        tr.len() == 64,
    ensures
        message_rep(tr, msg) == shake256_spec(tr + msg, 64),
        exists|x: Seq<u8>|
            #![trigger shake256_spec(x, 64)]
            message_rep(tr, msg) == shake256_spec(x, 64) && x.len() == 64 + msg.len() && x.subrange(0, 64)
                == tr && x.subrange(64, x.len() as int) == msg,
{
    let x = tr + msg;
    assert(x.subrange(0, 64) =~= tr);
    assert(x.subrange(64, x.len() as int) =~= msg);
}

/// mu = H(tr || M, 64).
pub fn message_digest(tr: &[u8; 64], msg: &[u8]) -> (mu: [u8; 64])
    ensures
        mu@ == message_rep(tr@, msg@),
        mu@ == shake256_spec(tr@ + msg@, 64),
{
    let mut input: Vec<u8> = Vec::new();
    append_bytes(&mut input, tr);
    append_bytes(&mut input, msg);
    h(input.as_slice())
}

/// InvNTT(chat o s_hat 2^-32) for each polynomial s_hat of a vector: c s
/// modulo q when chat = NTT(c) and s_hat = NTT(s).
pub open spec fn products(chat: Seq<int>, hats: Seq<Poly>) -> Seq<Seq<int>> {
    Seq::new(hats.len(), |a: int| inv_ntt_spec(pointwise(chat, ints(hats[a].coeffs@))))
}

/// The response z = y + c s1 of signing, each coefficient centered modulo
/// q, for cs1 = c s1.
pub open spec fn response<P: DsaParams>(y: Seq<Seq<int>>, cs1: Seq<Seq<int>>) -> Seq<Seq<int>> {
    Seq::new(P::L as nat, |a: int| Seq::new(256, |i: int| center(y[a][i] + cs1[a][i])))
}

/// ||z|| < gamma1 - beta.
pub open spec fn response_ok<P: DsaParams>(z: Seq<Seq<int>>) -> bool {
    forall|a: int, i: int| 0 <= a < P::L && 0 <= i < N ==> -(P::GAMMA1 - P::BETA) < #[trigger] z[a][i] < P::GAMMA1 - P::BETA
}

/// The hint bits of signing for w, cs2 = c s2 and ct0 = c t0.
pub open spec fn hint_matrix<P: DsaParams>(w: Seq<Seq<int>>, cs2: Seq<Seq<int>>, ct0: Seq<Seq<int>>) -> Seq<Seq<int>> {
    Seq::new(P::K as nat, |a: int| Seq::new(256, |j: int| hint_bit::<P>(w[a][j], cs2[a][j], ct0[a][j])))
}

/// Every coefficient passes the checks of signing.
pub open spec fn all_hint_checks<P: DsaParams>(w: Seq<Seq<int>>, cs2: Seq<Seq<int>>, ct0: Seq<Seq<int>>) -> bool {
    forall|a: int, j: int| 0 <= a < P::K && 0 <= j < N ==> #[trigger] hint_checks::<P>(w[a][j], cs2[a][j], ct0[a][j])
}

/// The number of nonzero values among the first n of row.
pub open spec fn ones(row: Seq<int>, n: int) -> int
    decreases n,
{
    if n <= 0 {
        0
    } else {
        ones(row, n - 1) + (if row[n - 1] != 0 { 1int } else { 0int })
    }
}

/// The number of nonzero values in the first n rows of h (256 each).
pub open spec fn ones_rows(h: Seq<Seq<int>>, n: int) -> int
    decreases n,
{
    if n <= 0 {
        0
    } else {
        ones_rows(h, n - 1) + ones(h[n - 1], 256)
    }
}

/// Counting nonzero coefficients of a polynomial counts the same values
/// as integers.
proof fn lemma_count_ones(s: Seq<i32>, row: Seq<int>, n: int)
    requires
        0 <= n <= 256,
        forall|j: int| 0 <= j < 256 ==> #[trigger] row[j] == s[j] as int,
    ensures
        count_nonzero(s, n) == ones(row, n),
    decreases n,
{
    if n > 0 {
        lemma_count_ones(s, row, n - 1);
        assert(row[n - 1] == s[n - 1] as int);
    }
}

/// Rows of nonnegative counts: later prefixes count at least as many.
proof fn lemma_ones_rows_grow(h: Seq<Seq<int>>, n: int, m: int)
    requires
        0 <= n <= m,
    ensures
        ones_rows(h, n) <= ones_rows(h, m),
    decreases m - n,
{
    if n < m {
        lemma_ones_rows_grow(h, n, m - 1);
        lemma_ones_nonneg(h[m - 1], 256);
    }
}

proof fn lemma_ones_nonneg(row: Seq<int>, n: int)
    ensures
        ones(row, n) >= 0,
    decreases n,
{
    if n > 0 {
        lemma_ones_nonneg(row, n - 1);
    }
}

/// The masking vector y = ExpandMask(rho'', kappa) as integers.
pub open spec fn mask_vector<P: DsaParams>(rho_pp: Seq<u8>, kappa: int) -> Seq<Seq<int>> {
    let c = gamma1_bits(P::GAMMA1 as int);
    Seq::new(
        P::L as nat,
        |r: int|
            Seq::new(
                256,
                |i: int| P::GAMMA1 - bits_value(shake256_spec(index_seed(rho_pp, kappa + r), 32 * c), i * c, c),
            ),
    )
}

/// The rest of an attempt once c~ is known, for the masking vector y and
/// the commitment w: c = SampleInBall(c~), z = y + c s1 and the hints;
/// (c~, z, h) when c exists and every check passes, None otherwise.
pub open spec fn attempt_from<P: DsaParams>(sk: SecretKey<P>, y: Seq<Seq<int>>, w: Seq<Seq<int>>, c_tilde: Seq<u8>) -> Option<
    (Seq<u8>, Seq<Seq<int>>, Seq<Seq<int>>),
> {
    match sample_in_ball_spec(c_tilde, P::TAU as int) {
        None => None,
        Some(c) => {
            let chat = ntt_spec(ints(c));
            let z = response::<P>(y, products(chat, sk.s1_hat@));
            let cs2 = products(chat, sk.s2_hat@);
            let ct0 = products(chat, sk.t0_hat@);
            let h = hint_matrix::<P>(w, cs2, ct0);
            if response_ok::<P>(z) && all_hint_checks::<P>(w, cs2, ct0) && ones_rows(h, P::K as int) <= P::OMEGA {
                Some((c_tilde, z, h))
            } else {
                None
            }
        },
    }
}

/// One attempt of signing (FIPS 204, Algorithm 7, one pass of the loop)
/// with mask index kappa: y = ExpandMask(rho'', kappa), w = A y,
/// c~ = H(mu || w1Encode(HighBits(w))), then `attempt_from`.
pub open spec fn attempt_spec<P: DsaParams>(sk: SecretKey<P>, mu: Seq<u8>, rho_pp: Seq<u8>, kappa: int) -> Option<
    (Seq<u8>, Seq<Seq<int>>, Seq<Seq<int>>),
> {
    let y = mask_vector::<P>(rho_pp, kappa);
    let w = sign_commitment(sk, y);
    let w1 = choose|w1: Seq<Poly>| high_bits_of::<P>(w1, w);
    attempt_from::<P>(sk, y, w, commitment_hash::<P>(mu, w1))
}

/// The attempt up to c~, as signing computes it: y from ExpandMask, w the
/// commitment and w1 its high bits give `attempt_from` with c~ = H(mu ||
/// w1Encode(w1)).
#[verifier::spinoff_prover]
proof fn lemma_attempt_prefix<P: DsaParams>(
    sk: SecretKey<P>,
    mu: Seq<u8>,
    rho_pp: Seq<u8>,
    kappa: int,
    y: Seq<Poly>,
    w1: Seq<Poly>,
)
    requires
        y.len() == P::L,
        forall|r: int| 0 <= r < P::L ==> crate::sampling::mask_poly(rho_pp, kappa + r, P::GAMMA1 as int, #[trigger] y[r]),
        high_bits_of::<P>(w1, sign_commitment(sk, poly_ints(y))),
    ensures
        poly_ints(y) == mask_vector::<P>(rho_pp, kappa),
        attempt_spec::<P>(sk, mu, rho_pp, kappa) == attempt_from::<P>(
            sk,
            poly_ints(y),
            sign_commitment(sk, poly_ints(y)),
            commitment_hash::<P>(mu, w1),
        ),
{
    let yy = poly_ints(y);
    let mv = mask_vector::<P>(rho_pp, kappa);
    assert forall|r: int| 0 <= r < P::L implies #[trigger] yy[r] == mv[r] by {
        assert(crate::sampling::mask_poly(rho_pp, kappa + r, P::GAMMA1 as int, y[r]));
        assert(yy[r] =~= mv[r]);
    }
    assert(yy =~= mv);
    let w = sign_commitment(sk, yy);
    let w2 = choose|w2: Seq<Poly>| high_bits_of::<P>(w2, w);
    assert(high_bits_of::<P>(w2, w));
    assert forall|i: int, j: int| 0 <= i < w1.len() && 0 <= j < N implies #[trigger] w1[i].coeffs[j] == w2[i].coeffs[j] by {
        assert(w1[i].coeffs[j] as int == high_bits_spec(w[i][j], 2 * P::GAMMA2));
        assert(w2[i].coeffs[j] as int == high_bits_spec(w[i][j], 2 * P::GAMMA2));
    }
    crate::verify::lemma_w1_bytes_coeffs(w1, w2, P::W1_BITS as int);
}

/// The rest of an attempt as signing computes it, with c_hat = NTT(c)
/// modulo q: `attempt_from` decided by the values computed from c_hat.
#[verifier::spinoff_prover]
proof fn lemma_attempt_tail<P: DsaParams>(
    sk: SecretKey<P>,
    y: Seq<Seq<int>>,
    w: Seq<Seq<int>>,
    c_tilde: Seq<u8>,
    c: Seq<i32>,
    c_hat: Poly,
)
    requires
        sk.wf(),
        sample_in_ball_spec(c_tilde, P::TAU as int) == Some(c),
        cong_seq(ints(c_hat.coeffs@), ntt_spec(ints(c))),
    ensures
        ({
            let x = ints(c_hat.coeffs@);
            let z = response::<P>(y, products(x, sk.s1_hat@));
            let cs2 = products(x, sk.s2_hat@);
            let ct0 = products(x, sk.t0_hat@);
            let h = hint_matrix::<P>(w, cs2, ct0);
            attempt_from::<P>(sk, y, w, c_tilde) == (if response_ok::<P>(z) && all_hint_checks::<P>(w, cs2, ct0)
                && ones_rows(h, P::K as int) <= P::OMEGA {
                Some((c_tilde, z, h))
            } else {
                None
            })
        }),
{
    let x = ints(c_hat.coeffs@);
    let chat = ntt_spec(ints(c));
    lemma_products_cong(x, chat, sk.s1_hat@);
    lemma_products_cong(x, chat, sk.s2_hat@);
    lemma_products_cong(x, chat, sk.t0_hat@);
    assert forall|a: int| 0 <= a < P::L implies #[trigger] cong_seq(products(x, sk.s1_hat@)[a], products(chat, sk.s1_hat@)[a]) by {
        assert(sk.s1_hat@.len() == P::L);
    }
    assert forall|a: int| 0 <= a < P::K implies #[trigger] cong_seq(products(x, sk.s2_hat@)[a], products(chat, sk.s2_hat@)[a]) by {
        assert(sk.s2_hat@.len() == P::K);
    }
    assert forall|a: int| 0 <= a < P::K implies #[trigger] cong_seq(products(x, sk.t0_hat@)[a], products(chat, sk.t0_hat@)[a]) by {
        assert(sk.t0_hat@.len() == P::K);
    }
    lemma_response_cong::<P>(y, products(x, sk.s1_hat@), products(chat, sk.s1_hat@));
    lemma_hints_cong::<P>(w, products(x, sk.s2_hat@), products(chat, sk.s2_hat@), products(x, sk.t0_hat@), products(chat, sk.t0_hat@));
}

/// The first accepted attempt among attempts a, a + 1, ... before
/// MAX_SIGN_ATTEMPTS, attempt a using mask index a l.
pub open spec fn first_attempt<P: DsaParams>(sk: SecretKey<P>, mu: Seq<u8>, rho_pp: Seq<u8>, a: int) -> Option<
    (Seq<u8>, Seq<Seq<int>>, Seq<Seq<int>>),
>
    decreases 576 - a,
{
    if a < 0 || a >= 576 {
        None
    } else {
        match attempt_spec::<P>(sk, mu, rho_pp, a * P::L) {
            Some(x) => Some(x),
            None => first_attempt::<P>(sk, mu, rho_pp, a + 1),
        }
    }
}

/// Deterministic signing (FIPS 204, ML-DSA.Sign_internal) as a function:
/// mu = H(tr || M), rho'' = H(K || rnd || mu), and the first accepted
/// attempt; None when the key holds no matrix A or no attempt is accepted.
pub open spec fn sign_spec<P: DsaParams>(sk: SecretKey<P>, msg: Seq<u8>, rnd: Seq<u8>) -> Option<
    (Seq<u8>, Seq<Seq<int>>, Seq<Seq<int>>),
> {
    if sk.cached_a_ntt@.len() == 0 {
        None
    } else {
        let mu = message_rep(sk.tr@, msg);
        first_attempt::<P>(sk, mu, shake256_spec(sk.k@ + rnd + mu, 64), 0)
    }
}

/// The values that a signature holds: c~, z and h as integers.
pub open spec fn sig_values<P: DsaParams>(sig: Signature<P>) -> (Seq<u8>, Seq<Seq<int>>, Seq<Seq<int>>) {
    (sig.c_tilde@, poly_ints(sig.z@), poly_ints(sig.h@))
}

/// Products with congruent NTT(c) are congruent.
proof fn lemma_products_cong(x: Seq<int>, y: Seq<int>, hats: Seq<Poly>)
    requires
        cong_seq(x, y),
    ensures
        forall|a: int| 0 <= a < hats.len() ==> #[trigger] cong_seq(products(x, hats)[a], products(y, hats)[a]),
{
    assert forall|a: int| 0 <= a < hats.len() implies #[trigger] cong_seq(products(x, hats)[a], products(y, hats)[a]) by {
        let h = ints(hats[a].coeffs@);
        lemma_cong_seq_refl(h);
        lemma_cong_seq_ops(x, y, h, h);
        lemma_inv_ntt_spec_cong(pointwise(x, h), pointwise(y, h));
    }
}

/// The response reads c s1 modulo q only.
proof fn lemma_response_cong<P: DsaParams>(y: Seq<Seq<int>>, p: Seq<Seq<int>>, p2: Seq<Seq<int>>)
    requires
        forall|a: int| 0 <= a < P::L ==> #[trigger] cong_seq(p[a], p2[a]),
    ensures
        response::<P>(y, p) == response::<P>(y, p2),
{
    let l = response::<P>(y, p);
    let r = response::<P>(y, p2);
    assert forall|a: int| 0 <= a < P::L implies #[trigger] l[a] == r[a] by {
        assert(cong_seq(p[a], p2[a]));
        assert forall|i: int| 0 <= i < 256 implies #[trigger] l[a][i] == r[a][i] by {
            assert(cong_at(p[a], p2[a], i));
            assert(cong(y[a][i], y[a][i])) by {
                assert(y[a][i] - y[a][i] == 0);
            }
            lemma_cong_ops(y[a][i], y[a][i], p[a][i], p2[a][i], 0);
            lemma_center_eq(y[a][i] + p[a][i], y[a][i] + p2[a][i]);
        }
        assert(l[a] =~= r[a]);
    }
    assert(l =~= r);
}

/// The hint bits and checks read c s2 and c t0 modulo q only.
proof fn lemma_hints_cong<P: DsaParams>(
    w: Seq<Seq<int>>,
    cs2: Seq<Seq<int>>,
    cs2b: Seq<Seq<int>>,
    ct0: Seq<Seq<int>>,
    ct0b: Seq<Seq<int>>,
)
    requires
        forall|a: int| 0 <= a < P::K ==> #[trigger] cong_seq(cs2[a], cs2b[a]),
        forall|a: int| 0 <= a < P::K ==> #[trigger] cong_seq(ct0[a], ct0b[a]),
    ensures
        hint_matrix::<P>(w, cs2, ct0) == hint_matrix::<P>(w, cs2b, ct0b),
        all_hint_checks::<P>(w, cs2, ct0) == all_hint_checks::<P>(w, cs2b, ct0b),
{
    let l = hint_matrix::<P>(w, cs2, ct0);
    let r = hint_matrix::<P>(w, cs2b, ct0b);
    assert forall|a: int, j: int| 0 <= a < P::K && 0 <= j < N implies #[trigger] l[a][j] == r[a][j]
        && hint_checks::<P>(w[a][j], cs2[a][j], ct0[a][j]) == hint_checks::<P>(w[a][j], cs2b[a][j], ct0b[a][j]) by {
        assert(cong_seq(cs2[a], cs2b[a]));
        assert(cong_seq(ct0[a], ct0b[a]));
        assert(cong_at(cs2[a], cs2b[a], j) && cong_at(ct0[a], ct0b[a], j));
        lemma_hint_ok_cong::<P>(0, w[a][j], cs2[a][j], cs2b[a][j], ct0[a][j], ct0b[a][j]);
    }
    assert forall|a: int| 0 <= a < P::K implies #[trigger] l[a] == r[a] by {
        assert(l[a] =~= r[a]);
    }
    assert(l =~= r);
    if all_hint_checks::<P>(w, cs2, ct0) {
        assert forall|a: int, j: int| 0 <= a < P::K && 0 <= j < N implies #[trigger] hint_checks::<P>(
            w[a][j],
            cs2b[a][j],
            ct0b[a][j],
        ) by {
            assert(hint_checks::<P>(w[a][j], cs2[a][j], ct0[a][j]));
            assert(l[a][j] == r[a][j]);
        }
    }
    if all_hint_checks::<P>(w, cs2b, ct0b) {
        assert forall|a: int, j: int| 0 <= a < P::K && 0 <= j < N implies #[trigger] hint_checks::<P>(
            w[a][j],
            cs2[a][j],
            ct0[a][j],
        ) by {
            assert(hint_checks::<P>(w[a][j], cs2b[a][j], ct0b[a][j]));
            assert(l[a][j] == r[a][j]);
        }
    }
}

/// z = y + c s1, centered modulo q; None when a coefficient reaches
/// gamma1 - beta in absolute value.
#[verifier::spinoff_prover]
fn compute_z<P: DsaParams>(y: &Vec<Poly>, c_hat: &Poly, s1_hat: &Vec<Poly>) -> (r: Option<Vec<Poly>>)
    requires
        crate::params::is_param_set(
            P::K,
            P::L,
            P::ETA,
            P::TAU,
            P::BETA,
            P::GAMMA1,
            P::GAMMA2,
            P::OMEGA,
            P::CTILDEBYTES,
        ),
        y@.len() == P::L,
        forall|r: int, i: int| 0 <= r < P::L && 0 <= i < N ==> -P::GAMMA1 < #[trigger] y@[r].coeffs[i] <= P::GAMMA1,
        coeffs_bounded(*c_hat, 9 * Q as int),
        polyvec_ok(s1_hat@, P::L as int, 9 * Q as int),
    ensures
        r matches Some(z) ==> {
            &&& z@.len() == P::L
            &&& forall|a: int, i: int|
                0 <= a < P::L && 0 <= i < N ==> -(P::GAMMA1 - P::BETA) < #[trigger] z@[a].coeffs[i]
                    < P::GAMMA1 - P::BETA
            &&& forall|a: int, i: int|
                0 <= a < P::L && 0 <= i < N ==> centered_abs(#[trigger] z@[a].coeffs[i] as int) < P::GAMMA1
                    - P::BETA
            &&& forall|a: int, i: int|
                0 <= a < P::L && 0 <= i < N ==> cong(
                    #[trigger] z@[a].coeffs[i] as int,
                    y@[a].coeffs[i] + inv_ntt_spec(pointwise(ints(c_hat.coeffs@), ints(s1_hat@[a].coeffs@)))[i],
                )
            &&& poly_ints(z@) == response::<P>(poly_ints(y@), products(ints(c_hat.coeffs@), s1_hat@))
        },
        r is Some <==> response_ok::<P>(response::<P>(poly_ints(y@), products(ints(c_hat.coeffs@), s1_hat@))),
{
    let ghost zz = response::<P>(poly_ints(y@), products(ints(c_hat.coeffs@), s1_hat@));
    let bound: i32 = P::GAMMA1 - P::BETA;
    let mut z: Vec<Poly> = Vec::new();
    for a in 0..P::L
        invariant
            crate::params::is_param_set(
                P::K,
                P::L,
                P::ETA,
                P::TAU,
                P::BETA,
                P::GAMMA1,
                P::GAMMA2,
                P::OMEGA,
                P::CTILDEBYTES,
            ),
            bound == P::GAMMA1 - P::BETA,
            y@.len() == P::L,
            forall|r: int, i: int|
                0 <= r < P::L && 0 <= i < N ==> -P::GAMMA1 < #[trigger] y@[r].coeffs[i] <= P::GAMMA1,
            coeffs_bounded(*c_hat, 9 * Q as int),
            polyvec_ok(s1_hat@, P::L as int, 9 * Q as int),
            z@.len() == a,
            forall|x: int, i: int| 0 <= x < a && 0 <= i < N ==> -bound < #[trigger] z@[x].coeffs[i] < bound,
            forall|x: int, i: int|
                0 <= x < a && 0 <= i < N ==> centered_abs(#[trigger] z@[x].coeffs[i] as int) < bound,
            forall|x: int, i: int|
                0 <= x < a && 0 <= i < N ==> cong(
                    #[trigger] z@[x].coeffs[i] as int,
                    y@[x].coeffs[i] + inv_ntt_spec(pointwise(ints(c_hat.coeffs@), ints(s1_hat@[x].coeffs@)))[i],
                ),
            zz == response::<P>(poly_ints(y@), products(ints(c_hat.coeffs@), s1_hat@)),
            forall|x: int, i: int| 0 <= x < a && 0 <= i < N ==> #[trigger] z@[x].coeffs[i] as int == zz[x][i],
            forall|x: int, i: int| 0 <= x < a && 0 <= i < N ==> -bound < #[trigger] zz[x][i] < bound,
    {
        assert(coeffs_bounded(s1_hat@[a as int], 9 * Q as int));
        let cs1 = ntt_product_inverse(c_hat, &s1_hat[a]);
        let ghost prod = inv_ntt_spec(pointwise(ints(c_hat.coeffs@), ints(s1_hat@[a as int].coeffs@)));
        let mut zp = Poly::new();
        for i in 0..N
            invariant
                a < P::L,
                y@.len() == P::L,
                forall|r: int, t: int|
                    0 <= r < P::L && 0 <= t < N ==> -P::GAMMA1 < #[trigger] y@[r].coeffs[t] <= P::GAMMA1,
                P::GAMMA1 <= 524288,
                0 < bound,
                coeffs_bounded(cs1, Q as int),
                forall|t: int| 0 <= t < i ==> -bound < #[trigger] zp.coeffs[t] < bound,
                forall|t: int| 0 <= t < i ==> centered_abs(#[trigger] zp.coeffs[t] as int) < bound,
                cong_seq(ints(cs1.coeffs@), prod),
                forall|t: int| 0 <= t < i ==> cong(#[trigger] zp.coeffs[t] as int, y@[a as int].coeffs[t] + prod[t]),
                a < P::L,
                s1_hat@.len() == P::L,
                bound == P::GAMMA1 - P::BETA,
                zz == response::<P>(poly_ints(y@), products(ints(c_hat.coeffs@), s1_hat@)),
                prod == inv_ntt_spec(pointwise(ints(c_hat.coeffs@), ints(s1_hat@[a as int].coeffs@))),
                forall|t: int| 0 <= t < i ==> #[trigger] zp.coeffs[t] as int == zz[a as int][t],
                forall|t: int| 0 <= t < i ==> -bound < #[trigger] zz[a as int][t] < bound,
        {
            assert(-P::GAMMA1 < y@[a as int].coeffs[i as int] <= P::GAMMA1);
            assert(-Q < cs1.coeffs[i as int] < Q);
            let v = y[a].coeffs[i] + cs1.coeffs[i];
            let c = center_i32(v);
            proof {
                assert(cong_at(ints(cs1.coeffs@), prod, i as int));
                let yv = y@[a as int].coeffs[i as int] as int;
                assert(cong(yv, yv)) by {
                    assert(yv - yv == 0);
                }
                lemma_cong_ops(yv, yv, cs1.coeffs[i as int] as int, prod[i as int], 0);
                lemma_center_eq(v as int, yv + prod[i as int]);
                assert(poly_ints(y@)[a as int][i as int] == yv);
                assert(products(ints(c_hat.coeffs@), s1_hat@)[a as int] == prod);
                assert(zz[a as int][i as int] == c as int);
            }
            if c <= -bound || c >= bound {
                proof {
                    assert(!(-(P::GAMMA1 - P::BETA) < zz[a as int][i as int] < P::GAMMA1 - P::BETA));
                }
                return None;
            }
            zp.coeffs[i] = c;
            proof {
                crate::poly::lemma_centered_abs_small(c as int);
                lemma_center_cong(v as int);
                assert(cong_at(ints(cs1.coeffs@), prod, i as int));
                let yv = y@[a as int].coeffs[i as int] as int;
                assert(cong(yv, yv)) by {
                    assert(yv - yv == 0);
                }
                lemma_cong_ops(yv, yv, cs1.coeffs[i as int] as int, prod[i as int], 0);
                lemma_cong_trans(c as int, v as int, yv + prod[i as int]);
            }
        }
        let ghost before = z@;
        z.push(zp);
        proof {
            assert forall|x: int, i: int| 0 <= x < a + 1 && 0 <= i < N implies cong(
                #[trigger] z@[x].coeffs[i] as int,
                y@[x].coeffs[i] + inv_ntt_spec(pointwise(ints(c_hat.coeffs@), ints(s1_hat@[x].coeffs@)))[i],
            ) by {
                if x < a {
                    assert(z@[x] == before[x]);
                }
            }
            assert forall|x: int, i: int| 0 <= x < a + 1 && 0 <= i < N implies #[trigger] z@[x].coeffs[i] as int
                == zz[x][i] by {
                if x < a {
                    assert(z@[x] == before[x]);
                }
            }
            assert forall|x: int, i: int| 0 <= x < a + 1 && 0 <= i < N implies -bound < #[trigger] zz[x][i] < bound by {
                if x == a {
                    assert(-bound < zz[a as int][i] < bound);
                }
            }
        }
    }
    proof {
        assert(poly_ints(z@) =~= zz) by {
            assert forall|x: int| 0 <= x < P::L implies #[trigger] poly_ints(z@)[x] == zz[x] by {
                assert(ints(z@[x].coeffs@) =~= zz[x]);
            }
        }
    }
    Some(z)
}

/// The hint phase of an attempt, row by row: cs2 = c s2 and ct0 = c t0;
/// None when ||LowBits(w - cs2)|| >= gamma2 - beta, ||ct0|| >= gamma2, or
/// the hints number more than omega; otherwise the hints
/// h = MakeHint(-ct0, w - cs2 + ct0) as 0s and 1s.
#[verifier::spinoff_prover]
fn compute_hints<P: DsaParams>(w: &Vec<Poly>, c_hat: &Poly, s2_hat: &Vec<Poly>, t0_hat: &Vec<Poly>) -> (r: Option<
    Vec<Poly>,
>)
    requires
        crate::params::is_param_set(
            P::K,
            P::L,
            P::ETA,
            P::TAU,
            P::BETA,
            P::GAMMA1,
            P::GAMMA2,
            P::OMEGA,
            P::CTILDEBYTES,
        ),
        w@.len() == P::K,
        forall|i: int, j: int| 0 <= i < P::K && 0 <= j < N ==> 0 <= #[trigger] w@[i].coeffs[j] < Q,
        coeffs_bounded(*c_hat, 9 * Q as int),
        polyvec_ok(s2_hat@, P::K as int, 9 * Q as int),
        polyvec_ok(t0_hat@, P::K as int, 9 * Q as int),
    ensures
        r matches Some(h) ==> {
            &&& h@.len() == P::K
            &&& forall|a: int, i: int|
                0 <= a < P::K && 0 <= i < N ==> (#[trigger] h@[a].coeffs[i] == 0 || h@[a].coeffs[i] == 1)
            &&& hint_total(h@) <= P::OMEGA
            &&& forall|a: int, j: int|
                0 <= a < P::K && 0 <= j < N ==> hint_ok::<P>(
                    #[trigger] h@[a].coeffs[j],
                    w@[a].coeffs[j] as int,
                    inv_ntt_spec(pointwise(ints(c_hat.coeffs@), ints(s2_hat@[a].coeffs@)))[j],
                    inv_ntt_spec(pointwise(ints(c_hat.coeffs@), ints(t0_hat@[a].coeffs@)))[j],
                )
            &&& poly_ints(h@) == hint_matrix::<P>(
                poly_ints(w@),
                products(ints(c_hat.coeffs@), s2_hat@),
                products(ints(c_hat.coeffs@), t0_hat@),
            )
        },
        r is Some <==> all_hint_checks::<P>(
            poly_ints(w@),
            products(ints(c_hat.coeffs@), s2_hat@),
            products(ints(c_hat.coeffs@), t0_hat@),
        ) && ones_rows(
            hint_matrix::<P>(
                poly_ints(w@),
                products(ints(c_hat.coeffs@), s2_hat@),
                products(ints(c_hat.coeffs@), t0_hat@),
            ),
            P::K as int,
        ) <= P::OMEGA,
{
    let ghost ww = poly_ints(w@);
    let ghost cs2s = products(ints(c_hat.coeffs@), s2_hat@);
    let ghost ct0s = products(ints(c_hat.coeffs@), t0_hat@);
    let ghost hm = hint_matrix::<P>(ww, cs2s, ct0s);
    let low_bound: i32 = P::GAMMA2 - P::BETA;
    let mut h: Vec<Poly> = Vec::new();
    let mut total: usize = 0;
    for i in 0..P::K
        invariant
            crate::params::is_param_set(
                P::K,
                P::L,
                P::ETA,
                P::TAU,
                P::BETA,
                P::GAMMA1,
                P::GAMMA2,
                P::OMEGA,
                P::CTILDEBYTES,
            ),
            low_bound == P::GAMMA2 - P::BETA,
            w@.len() == P::K,
            forall|a: int, j: int| 0 <= a < P::K && 0 <= j < N ==> 0 <= #[trigger] w@[a].coeffs[j] < Q,
            coeffs_bounded(*c_hat, 9 * Q as int),
            polyvec_ok(s2_hat@, P::K as int, 9 * Q as int),
            polyvec_ok(t0_hat@, P::K as int, 9 * Q as int),
            h@.len() == i,
            forall|a: int, t: int|
                0 <= a < i && 0 <= t < N ==> (#[trigger] h@[a].coeffs[t] == 0 || h@[a].coeffs[t] == 1),
            total as int == hint_total(h@),
            total <= P::OMEGA,
            forall|a: int, j: int|
                0 <= a < i && 0 <= j < N ==> hint_ok::<P>(
                    #[trigger] h@[a].coeffs[j],
                    w@[a].coeffs[j] as int,
                    inv_ntt_spec(pointwise(ints(c_hat.coeffs@), ints(s2_hat@[a].coeffs@)))[j],
                    inv_ntt_spec(pointwise(ints(c_hat.coeffs@), ints(t0_hat@[a].coeffs@)))[j],
                ),
            ww == poly_ints(w@),
            cs2s == products(ints(c_hat.coeffs@), s2_hat@),
            ct0s == products(ints(c_hat.coeffs@), t0_hat@),
            hm == hint_matrix::<P>(ww, cs2s, ct0s),
            total as int == ones_rows(hm, i as int),
            forall|a: int, j: int| 0 <= a < i && 0 <= j < N ==> #[trigger] hint_checks::<P>(ww[a][j], cs2s[a][j], ct0s[a][j]),
            forall|a: int, j: int| 0 <= a < i && 0 <= j < N ==> #[trigger] h@[a].coeffs[j] as int == hm[a][j],
    {
        assert(coeffs_bounded(s2_hat@[i as int], 9 * Q as int));
        assert(coeffs_bounded(t0_hat@[i as int], 9 * Q as int));
        let cs2 = ntt_product_inverse(c_hat, &s2_hat[i]);
        let ct0 = ntt_product_inverse(c_hat, &t0_hat[i]);
        let ghost p2 = inv_ntt_spec(pointwise(ints(c_hat.coeffs@), ints(s2_hat@[i as int].coeffs@)));
        let ghost p0 = inv_ntt_spec(pointwise(ints(c_hat.coeffs@), ints(t0_hat@[i as int].coeffs@)));
        let mut hp = Poly::new();
        for j in 0..N
            invariant
                i < P::K,
                0 < low_bound < 300000,
                0 < P::GAMMA2 <= 261888,
                w@.len() == P::K,
                forall|a: int, t: int| 0 <= a < P::K && 0 <= t < N ==> 0 <= #[trigger] w@[a].coeffs[t] < Q,
                coeffs_bounded(cs2, Q as int),
                coeffs_bounded(ct0, Q as int),
                forall|t: int| 0 <= t < j ==> (#[trigger] hp.coeffs[t] == 0 || hp.coeffs[t] == 1),
                forall|t: int| j <= t < N ==> #[trigger] hp.coeffs[t] == 0,
                low_bound == P::GAMMA2 - P::BETA,
                forall|t: int|
                    0 <= t < j ==> hint_ok::<P>(
                        #[trigger] hp.coeffs[t],
                        w@[i as int].coeffs[t] as int,
                        cs2.coeffs[t] as int,
                        ct0.coeffs[t] as int,
                    ),
                s2_hat@.len() == P::K,
                t0_hat@.len() == P::K,
                ww == poly_ints(w@),
                cs2s == products(ints(c_hat.coeffs@), s2_hat@),
                ct0s == products(ints(c_hat.coeffs@), t0_hat@),
                p2 == inv_ntt_spec(pointwise(ints(c_hat.coeffs@), ints(s2_hat@[i as int].coeffs@))),
                p0 == inv_ntt_spec(pointwise(ints(c_hat.coeffs@), ints(t0_hat@[i as int].coeffs@))),
                cong_seq(ints(cs2.coeffs@), p2),
                cong_seq(ints(ct0.coeffs@), p0),
        {
            assert(0 <= w@[i as int].coeffs[j as int] < Q);
            assert(-Q < cs2.coeffs[j as int] < Q);
            assert(-Q < ct0.coeffs[j as int] < Q);
            let r = add_mod_q(w[i].coeffs[j], -cs2.coeffs[j]);
            let r0 = low_bits_optimized::<P>(r);
            proof {
                assert(cong_at(ints(cs2.coeffs@), p2, j as int));
                assert(cong_at(ints(ct0.coeffs@), p0, j as int));
                assert(p2 == cs2s[i as int] && p0 == ct0s[i as int]);
                assert(ww[i as int][j as int] == w@[i as int].coeffs[j as int] as int);
                lemma_hint_ok_cong::<P>(0, w@[i as int].coeffs[j as int] as int, cs2.coeffs[j as int] as int, p2[j as int], ct0.coeffs[j as int] as int, p0[j as int]);
            }
            if r0 <= -low_bound || r0 >= low_bound {
                proof {
                    assert(!hint_checks::<P>(ww[i as int][j as int], cs2s[i as int][j as int], ct0s[i as int][j as int]));
                }
                return None;
            }
            let t = center_i32(ct0.coeffs[j]);
            if t <= -P::GAMMA2 || t >= P::GAMMA2 {
                proof {
                    assert(!hint_checks::<P>(ww[i as int][j as int], cs2s[i as int][j as int], ct0s[i as int][j as int]));
                }
                return None;
            }
            let r2 = add_mod_q(r, t);
            let hint = make_hint_optimized::<P>(-t, r2);
            if hint {
                hp.coeffs[j] = 1;
            }
            assert(hint_ok::<P>(hp.coeffs[j as int], w@[i as int].coeffs[j as int] as int, cs2.coeffs[j as int] as int, ct0.coeffs[j as int] as int));
        }
        proof {
            assert forall|t: int| 0 <= t < N implies hint_ok::<P>(
                #[trigger] hp.coeffs[t],
                w@[i as int].coeffs[t] as int,
                p2[t],
                p0[t],
            ) by {
                assert(cong_at(ints(cs2.coeffs@), p2, t));
                assert(cong_at(ints(ct0.coeffs@), p0, t));
                lemma_hint_ok_cong::<P>(hp.coeffs[t], w@[i as int].coeffs[t] as int, cs2.coeffs[t] as int, p2[t], ct0.coeffs[t] as int, p0[t]);
            }
        }
        let cnt = poly_hint_count(&hp);
        proof {
            assert forall|t: int| 0 <= t < N implies #[trigger] hint_checks::<P>(ww[i as int][t], cs2s[i as int][t], ct0s[i as int][t])
                && hp.coeffs[t] as int == hm[i as int][t] by {
                assert(p2 == cs2s[i as int] && p0 == ct0s[i as int]);
                assert(ww[i as int][t] == w@[i as int].coeffs[t] as int);
                assert(hint_ok::<P>(hp.coeffs[t], w@[i as int].coeffs[t] as int, p2[t], p0[t]));
            }
            lemma_count_ones(hp.coeffs@, hm[i as int], 256);
            assert(ones_rows(hm, i + 1) == ones_rows(hm, i as int) + ones(hm[i as int], 256));
        }
        if total + cnt > P::OMEGA {
            proof {
                lemma_ones_rows_grow(hm, i + 1, P::K as int);
            }
            return None;
        }
        total = total + cnt;
        let ghost old_h = h@;
        h.push(hp);
        proof {
            assert(h@.drop_last() =~= old_h);
            assert forall|a: int, j: int| 0 <= a < i + 1 && 0 <= j < N implies hint_ok::<P>(
                #[trigger] h@[a].coeffs[j],
                w@[a].coeffs[j] as int,
                inv_ntt_spec(pointwise(ints(c_hat.coeffs@), ints(s2_hat@[a].coeffs@)))[j],
                inv_ntt_spec(pointwise(ints(c_hat.coeffs@), ints(t0_hat@[a].coeffs@)))[j],
            ) by {
                if a < i {
                    assert(h@[a] == old_h[a]);
                }
            }
            assert forall|a: int, j: int| 0 <= a < i + 1 && 0 <= j < N implies #[trigger] h@[a].coeffs[j] as int == hm[a][j] by {
                if a < i {
                    assert(h@[a] == old_h[a]);
                }
            }
        }
    }
    proof {
        assert(poly_ints(h@) =~= hm) by {
            assert forall|a: int| 0 <= a < P::K implies #[trigger] poly_ints(h@)[a] == hm[a] by {
                assert(ints(h@[a].coeffs@) =~= hm[a]);
            }
        }
    }
    Some(h)
}

/// One attempt of the signing loop with mask index kappa: y =
/// ExpandMask(rho'', kappa), w = A y, w1 = HighBits(w), c~ = H(mu ||
/// w1Encode(w1)), c = SampleInBall(c~), then z and the hints; None when the
/// attempt is rejected.
#[verifier::rlimit(40)]
#[verifier::spinoff_prover]
fn sign_attempt<P: DsaParams>(sk: &SecretKey<P>, mu: &[u8; 64], rho_pp: &[u8; 64], kappa: u16) -> (r: Option<
    Signature<P>,
>)
    requires
        sk.wf(),
        sk.cached_a_ntt@.len() == P::K,
        kappa + P::L <= 65535,
    ensures
        r matches Some(sig) ==> signed_with(sig, *sk, mu@),
        match r {
            Some(sig) => attempt_spec::<P>(*sk, mu@, rho_pp@, kappa as int) == Some(sig_values(sig)),
            None => attempt_spec::<P>(*sk, mu@, rho_pp@, kappa as int) is None,
        },
{
    proof {
        P::lemma_param_set();
        lemma_cache_matrix_ok(sk.cached_a_ntt@, P::K as int, P::L as int);
    }
    let y = crate::sampling::expand_mask(rho_pp, kappa, P::GAMMA1, P::L);
    assert forall|i: int| 0 <= i < y@.len() implies coeffs_bounded(#[trigger] y@[i], Q as int) by {
        assert forall|j: int| 0 <= j < N implies -Q < #[trigger] y@[i].coeffs[j] < Q by {
            assert(-P::GAMMA1 < y@[i].coeffs[j] <= P::GAMMA1);
        }
    }
    let y_hat = ntt_all(&y);
    let w = matrix_vector_mul_ntt(sk.cached_a_ntt.as_slice(), y_hat.as_slice(), P::K, P::L);
    let mut wr: Vec<Poly> = Vec::new();
    let mut w1: Vec<Poly> = Vec::new();
    for i in 0..P::K
        invariant
            polyvec_ok(w@, P::K as int, Q as int),
            wr@.len() == i,
            w1@.len() == i,
            forall|a: int, j: int| 0 <= a < i && 0 <= j < N ==> 0 <= #[trigger] wr@[a].coeffs[j] < Q,
            forall|a: int, j: int|
                0 <= a < i && 0 <= j < N ==> #[trigger] wr@[a].coeffs[j] as int == crate::poly::mod_q(
                    w@[a].coeffs[j] as int,
                ),
            forall|a: int, j: int|
                0 <= a < i && 0 <= j < N ==> #[trigger] w1@[a].coeffs[j] as int == high_bits_spec(
                    wr@[a].coeffs[j] as int,
                    2 * P::GAMMA2,
                ),
    {
        let mut p = w[i];
        p.reduce();
        assert(forall|t: int| 0 <= t < N ==> #[trigger] p.coeffs[t] as int == crate::poly::mod_q(w@[i as int].coeffs[t] as int));
        let mut hb = Poly::new();
        for j in 0..N
            invariant
                forall|t: int| 0 <= t < N ==> 0 <= #[trigger] p.coeffs[t] < Q,
                forall|t: int|
                    0 <= t < j ==> #[trigger] hb.coeffs[t] as int == high_bits_spec(
                        p.coeffs[t] as int,
                        2 * P::GAMMA2,
                    ),
        {
            hb.coeffs[j] = high_bits_optimized::<P>(p.coeffs[j]);
        }
        let ghost before = wr@;
        wr.push(p);
        w1.push(hb);
        proof {
            assert forall|a: int, j: int| 0 <= a < i + 1 && 0 <= j < N implies #[trigger] wr@[a].coeffs[j] as int
                == crate::poly::mod_q(w@[a].coeffs[j] as int) by {
                if a < i {
                    assert(wr@[a] == before[a]);
                }
            }
        }
    }
    let ghost yy = poly_ints(y@);
    let ghost cw = sign_commitment(*sk, yy);
    proof {
        lemma_commitment_rows(*sk, y@, y_hat@, w@, wr@);
        assert(high_bits_of::<P>(w1@, cw)) by {
            assert forall|i: int, j: int| 0 <= i < P::K && 0 <= j < N implies #[trigger] w1@[i].coeffs[j] as int
                == high_bits_spec(cw[i][j], 2 * P::GAMMA2) by {
                assert(ints(wr@[i].coeffs@) == cw[i]);
                assert(ints(wr@[i].coeffs@)[j] == wr@[i].coeffs[j] as int);
            }
        }
    }
    let w1b = encode_w1::<P>(w1.as_slice());
    let mut input: Vec<u8> = Vec::new();
    append_bytes(&mut input, mu);
    append_bytes(&mut input, w1b.as_slice());
    let c_tilde = h_var(input.as_slice(), P::CTILDEBYTES);
    assert(c_tilde@ == commitment_hash::<P>(mu@, w1@));
    proof {
        lemma_attempt_prefix(*sk, mu@, rho_pp@, kappa as int, y@, w1@);
        assert(poly_ints(wr@) =~= cw) by {
            assert forall|a: int| 0 <= a < P::K implies #[trigger] poly_ints(wr@)[a] == cw[a] by {
                assert(ints(wr@[a].coeffs@) == cw[a]);
            }
        }
    }
    let c = match sample_in_ball(c_tilde.as_slice(), P::TAU) {
        Some(c) => c,
        None => {
            return None;
        },
    };
    assert(coeffs_bounded(c, Q as int)) by {
        assert forall|j: int| 0 <= j < N implies -Q < #[trigger] c.coeffs[j] < Q by {
            assert(-1 <= c.coeffs[j] <= 1);
        }
    }
    let c_hat = ntt(&c);
    proof {
        lemma_attempt_tail(*sk, yy, cw, c_tilde@, c.coeffs@, c_hat);
    }
    let z = match compute_z::<P>(&y, &c_hat, &sk.s1_hat) {
        Some(z) => z,
        None => {
            return None;
        },
    };
    let h = match compute_hints::<P>(&wr, &c_hat, &sk.s2_hat, &sk.t0_hat) {
        Some(h) => h,
        None => {
            return None;
        },
    };
    let sig = Signature { c_tilde, z, h, _phantom: PhantomData };
    proof {
        let cs = c.coeffs@;
        assert(cs == challenge_of(sig));
        assert(sig.c_tilde@ == commitment_hash::<P>(mu@, w1@));
        assert(high_bits_of::<P>(w1@, cw) && sig.c_tilde@ == commitment_hash::<P>(mu@, w1@));
        assert forall|a: int, i: int| 0 <= a < P::L && 0 <= i < N implies cong(
            #[trigger] sig.z@[a].coeffs[i] as int,
            yy[a][i] + key_product(cs, sk.s1_hat@[a])[i],
        ) by {
            let pr = inv_ntt_spec(pointwise(ints(c_hat.coeffs@), ints(sk.s1_hat@[a].coeffs@)));
            lemma_key_product_cong(c_hat, cs, sk.s1_hat@[a]);
            assert(cong_at(pr, key_product(cs, sk.s1_hat@[a]), i));
            let yv = y@[a].coeffs[i] as int;
            assert(yy[a][i] == yv);
            assert(cong(yv, yv)) by {
                assert(yv - yv == 0);
            }
            lemma_cong_ops(yv, yv, pr[i], key_product(cs, sk.s1_hat@[a])[i], 0);
            lemma_cong_trans(sig.z@[a].coeffs[i] as int, yv + pr[i], yv + key_product(cs, sk.s1_hat@[a])[i]);
        }
        assert forall|a: int, j: int| 0 <= a < P::K && 0 <= j < N implies hint_ok::<P>(
            #[trigger] sig.h@[a].coeffs[j],
            cw[a][j],
            key_product(cs, sk.s2_hat@[a])[j],
            key_product(cs, sk.t0_hat@[a])[j],
        ) by {
            let p2 = inv_ntt_spec(pointwise(ints(c_hat.coeffs@), ints(sk.s2_hat@[a].coeffs@)));
            let p0 = inv_ntt_spec(pointwise(ints(c_hat.coeffs@), ints(sk.t0_hat@[a].coeffs@)));
            lemma_key_product_cong(c_hat, cs, sk.s2_hat@[a]);
            lemma_key_product_cong(c_hat, cs, sk.t0_hat@[a]);
            assert(cong_at(p2, key_product(cs, sk.s2_hat@[a]), j));
            assert(cong_at(p0, key_product(cs, sk.t0_hat@[a]), j));
            assert(ints(wr@[a].coeffs@) == cw[a]);
            assert(ints(wr@[a].coeffs@)[j] == wr@[a].coeffs[j] as int);
            lemma_hint_ok_cong::<P>(sig.h@[a].coeffs[j], cw[a][j], p2[j], key_product(cs, sk.s2_hat@[a])[j], p0[j], key_product(cs, sk.t0_hat@[a])[j]);
        }
        assert(sign_trace(sig, *sk, mu@, yy));
    }
    Some(sig)
}

/// The commitment that signing computes row by row, reduced to [0, q), is
/// `sign_commitment` of the masking vector.
proof fn lemma_commitment_rows<P: DsaParams>(
    sk: SecretKey<P>,
    y: Seq<Poly>,
    y_hat: Seq<Poly>,
    w: Seq<Poly>,
    wr: Seq<Poly>,
)
    requires
        sk.cached_a_ntt@.len() == P::K,
        y.len() == P::L,
        y_hat.len() == P::L,
        forall|j: int| 0 <= j < P::L ==> cong_seq(ints((#[trigger] y_hat[j]).coeffs@), ntt_spec(ints(y[j].coeffs@))),
        w.len() == P::K,
        forall|a: int|
            0 <= a < P::K ==> cong_seq(
                ints((#[trigger] w[a]).coeffs@),
                inv_ntt_spec(row_sum(poly_ints(sk.cached_a_ntt@[a]@), poly_ints(y_hat), P::L as int)),
            ),
        wr.len() == P::K,
        forall|a: int, j: int|
            0 <= a < P::K && 0 <= j < N ==> #[trigger] wr[a].coeffs[j] as int == crate::poly::mod_q(
                w[a].coeffs[j] as int,
            ),
    ensures
        forall|a: int| 0 <= a < P::K ==> ints((#[trigger] wr[a]).coeffs@) == sign_commitment(sk, poly_ints(y))[a],
{
    let yy = poly_ints(y);
    let ys = Seq::new(P::L as nat, |j: int| ntt_spec(yy[j]));
    let yh = poly_ints(y_hat);
    assert forall|a: int| 0 <= a < P::K implies ints((#[trigger] wr[a]).coeffs@) == sign_commitment(sk, yy)[a] by {
        let r = poly_ints(sk.cached_a_ntt@[a]@);
        assert forall|j: int| 0 <= j < P::L implies #[trigger] cong_seq(yh[j], ys[j]) by {
            assert(yh[j] == ints(y_hat[j].coeffs@));
            assert(yy[j] == ints(y[j].coeffs@));
        }
        lemma_row_sum_cong(r, yh, ys, P::L as int);
        let x = row_sum(r, yh, P::L as int);
        let x2 = row_sum(r, ys, P::L as int);
        lemma_inv_ntt_spec_cong(x, x2);
        lemma_cong_seq_trans(ints(w[a].coeffs@), inv_ntt_spec(x), inv_ntt_spec(x2));
        lemma_mod_seq_cong(ints(w[a].coeffs@), inv_ntt_spec(x2));
        assert(ints(wr[a].coeffs@) =~= mod_seq(ints(w[a].coeffs@)));
    }
}

/// Deterministic signing with the 32 bytes rnd (FIPS 204,
/// ML-DSA.Sign_internal, with mu = H(tr || M) and
/// rho'' = H(K || rnd || mu)): tries mask indices 0, l, 2l, ... for
/// MAX_SIGN_ATTEMPTS attempts. None when every attempt was rejected, or the
/// key holds no matrix A.
pub fn sign_deterministic<P: DsaParams>(sk: &SecretKey<P>, message: &[u8], rnd: &[u8; 32]) -> (r: Option<
    Signature<P>,
>)
    requires
        sk.wf(),
    ensures
        r matches Some(sig) ==> signed_with(sig, *sk, message_rep(sk.tr@, message@)),
        sk.cached_a_ntt@.len() == 0 ==> r is None,
        match r {
            Some(sig) => sign_spec::<P>(*sk, message@, rnd@) == Some(sig_values(sig)),
            None => sign_spec::<P>(*sk, message@, rnd@) is None,
        },
{
    proof {
        P::lemma_param_set();
    }
    if sk.cached_a_ntt.len() == 0 {
        return None;
    }
    let mu = message_digest(&sk.tr, message);
    let mut input: Vec<u8> = Vec::new();
    append_bytes(&mut input, &sk.k);
    append_bytes(&mut input, rnd);
    append_bytes(&mut input, &mu);
    let rho_pp = h(input.as_slice());
    assert(input@ =~= sk.k@ + rnd@ + mu@);
    for attempt in 0..MAX_SIGN_ATTEMPTS
        invariant
            sk.wf(),
            sk.cached_a_ntt@.len() == P::K,
            P::L <= 8,
            P::K >= 1,
            mu@ == message_rep(sk.tr@, message@),
            rho_pp@ == shake256_spec(sk.k@ + rnd@ + mu@, 64),
            first_attempt::<P>(*sk, mu@, rho_pp@, 0) == first_attempt::<P>(*sk, mu@, rho_pp@, attempt as int),
    {
        assert(attempt * P::L <= 575 * 8) by (nonlinear_arith)
            requires
                attempt < 576,
                P::L <= 8,
        ;
        let kappa: u16 = (attempt * P::L) as u16;
        match sign_attempt(sk, &mu, &rho_pp, kappa) {
            Some(sig) => {
                return Some(sig);
            },
            None => {},
        }
    }
    None
}

/// Signing with 32 fresh random bytes from the operating system (hedged
/// signing); None when the random source failed, or as
/// `sign_deterministic`.
pub fn sign<P: DsaParams>(sk: &SecretKey<P>, message: &[u8]) -> (r: Option<Signature<P>>)
    requires
        sk.wf(),
    ensures
        r matches Some(sig) ==> signed_with(sig, *sk, message_rep(sk.tr@, message@)),
        sk.cached_a_ntt@.len() == 0 ==> r is None,
        r matches Some(sig) ==> exists|rnd: Seq<u8>|
            rnd.len() == 32 && #[trigger] sign_spec::<P>(*sk, message@, rnd) == Some(sig_values(sig)),
{
    let mut rnd = [0u8; 32];
    if !fill_random(&mut rnd) {
        return None;
    }
    let r = sign_deterministic(sk, message, &rnd);
    proof {
        if r is Some {
            assert(sign_spec::<P>(*sk, message@, rnd@) == Some(sig_values(r->0)));
        }
    }
    r
}

} // verus!
