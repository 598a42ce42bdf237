//! Verification (FIPS 204, ML-DSA.Verify_internal): the shape and norm
//! checks, w' = A z - c t1 2^d, the hints applied to w', and the
//! comparison of the recomputed commitment hash with c~.

use vstd::prelude::*;
use crate::batch::{encode_w1, w1_bytes, w1_vals};
use crate::constant_time::ct_compare;
use crate::hints::{poly_hint_count, use_hint_optimized, use_hint_spec};
use crate::keygen::{PublicKey, lemma_cache_matrix_ok};
use crate::ntt::{
    coeffs_bounded,
    cong_at,
    cong_seq,
    ints,
    inv_ntt,
    inv_ntt_spec,
    lemma_cong_seq_ops,
    lemma_cong_seq_refl,
    lemma_cong_seq_trans,
    lemma_inv_ntt_spec_cong,
    lemma_mod_seq_cong,
    lemma_row_sum_cong,
    matrix_ok,
    mod_seq,
    ntt,
    ntt_multiply,
    ntt_spec,
    pointwise,
    poly_ints,
    poly_reduce32,
    polyvec_ok,
    row_sum,
    row_times_vector,
    vsub,
};
use crate::params::{DsaParams, N, Q};
use crate::poly::{Poly, center, center_i32, centered_abs};
use crate::sampling::{sample_in_ball, sample_in_ball_spec};
use crate::sign::{Signature, commitment_hash, hint_total, message_digest, message_rep, sig_ok};
use crate::symmetric::{append_bytes, h_var};

verus! {

/// The coefficients of p, each replaced by its representative in
/// [-(q-1)/2, (q-1)/2].
pub open spec fn centered_ints(p: Poly) -> Seq<int> {
    Seq::new(256, |i: int| center(p.coeffs[i] as int))
}

/// w' = InvNTT(A zhat - chat (t1 2^d)^) row by row, each coefficient in
/// [0, q), for the matrix A and the vector NTT(t1 2^d) that the key holds;
/// zhat and chat are NTT(z) and NTT(c) as integer sequences.
pub open spec fn commitment_from<P: DsaParams>(pk: PublicKey<P>, zhat: Seq<Seq<int>>, chat: Seq<int>) -> Seq<
    Seq<int>,
> {
    Seq::new(
        P::K as nat,
        |i: int|
            mod_seq(
                inv_ntt_spec(
                    vsub(
                        row_sum(poly_ints(pk.cached_a_ntt@[i]@), zhat, P::L as int),
                        pointwise(chat, ints(pk.t1_scaled_ntt@[i].coeffs@)),
                    ),
                ),
            ),
    )
}

/// The commitment w' that verification recomputes from the response z and
/// the challenge polynomial c: NTT(z) taken of z with centered coefficients.
pub open spec fn commitment_w<P: DsaParams>(pk: PublicKey<P>, z: Seq<Poly>, c: Seq<i32>) -> Seq<Seq<int>> {
    commitment_from(pk, Seq::new(P::L as nat, |j: int| ntt_spec(centered_ints(z[j]))), ntt_spec(ints(c)))
}

/// w1 holds UseHint(h, w) (alpha = 2 gamma2), coefficient by coefficient,
/// for k polynomials.
pub open spec fn hints_fit<P: DsaParams>(w1: Seq<Poly>, h: Seq<Poly>, w: Seq<Seq<int>>) -> bool {
    &&& w1.len() == P::K
    &&& forall|i: int, j: int|
        0 <= i < P::K && 0 <= j < N ==> #[trigger] w1[i].coeffs[j] as int == use_hint_spec(
            h[i].coeffs[j] != 0,
            w[i][j],
            2 * P::GAMMA2,
        )
}

/// The challenge polynomial that SampleInBall gives for c~ (meaningful when
/// there is one).
pub open spec fn challenge_of<P: DsaParams>(sig: Signature<P>) -> Seq<i32> {
    sample_in_ball_spec(sig.c_tilde@, P::TAU as int)->0
}

/// What verification needs before the commitment is recomputed: the key
/// holds the matrix A, the signature passes the shape and norm checks, and
/// c~ gives a challenge polynomial.
pub open spec fn verify_ready<P: DsaParams>(pk: PublicKey<P>, sig: Signature<P>) -> bool {
    &&& pk.cached_a_ntt@.len() == P::K
    &&& sig_ok(sig)
    &&& sample_in_ball_spec(sig.c_tilde@, P::TAU as int) is Some
}

/// ML-DSA.Verify_internal: the signature is ready for verification and
/// c~ = H(mu || w1Encode(w1)) for mu = H(tr || M) and w1 = UseHint(h, w'),
/// w' the commitment recomputed from z and c.
pub open spec fn verify_spec<P: DsaParams>(pk: PublicKey<P>, msg: Seq<u8>, sig: Signature<P>) -> bool {
    &&& verify_ready(pk, sig)
    &&& exists|w1: Seq<Poly>|
        #[trigger] hints_fit::<P>(w1, sig.h@, commitment_w(pk, sig.z@, challenge_of(sig)))
            && sig.c_tilde@ == commitment_hash::<P>(message_rep(pk.tr@, msg), w1)
}

/// w1Encode reads only the coefficients: vectors of polynomials with the
/// same coefficients have the same encoding.
pub(crate) proof fn lemma_w1_bytes_coeffs(a: Seq<Poly>, b: Seq<Poly>, bits: int)
    requires
        a.len() == b.len(),
        forall|i: int, j: int| 0 <= i < a.len() && 0 <= j < N ==> #[trigger] a[i].coeffs[j] == b[i].coeffs[j],
    ensures
        w1_bytes(a, bits) == w1_bytes(b, bits),
    decreases a.len(),
{
    if a.len() > 0 {
        let a2 = a.drop_last();
        let b2 = b.drop_last();
        assert forall|i: int, j: int| 0 <= i < a2.len() && 0 <= j < N implies #[trigger] a2[i].coeffs[j]
            == b2[i].coeffs[j] by {
            assert(a2[i] == a[i] && b2[i] == b[i]);
        }
        lemma_w1_bytes_coeffs(a2, b2, bits);
        let last = a.len() - 1;
        assert forall|j: int| 0 <= j < N implies #[trigger] w1_vals(a.last(), bits)[j] == w1_vals(b.last(), bits)[j] by {
            assert(a[last].coeffs[j] == b[last].coeffs[j]);
        }
        assert(w1_vals(a.last(), bits) =~= w1_vals(b.last(), bits));
    }
}

/// The commitment hash of w1 is the same for every w1 that `hints_fit`
/// gives.
proof fn lemma_hints_fit_hash<P: DsaParams>(mu: Seq<u8>, a: Seq<Poly>, b: Seq<Poly>, h: Seq<Poly>, w: Seq<Seq<int>>)
    requires
        hints_fit::<P>(a, h, w),
        hints_fit::<P>(b, h, w),
    ensures
        commitment_hash::<P>(mu, a) == commitment_hash::<P>(mu, b),
{
    assert forall|i: int, j: int| 0 <= i < a.len() && 0 <= j < N implies #[trigger] a[i].coeffs[j] == b[i].coeffs[j] by {
        assert(a[i].coeffs[j] as int == use_hint_spec(h[i].coeffs[j] != 0, w[i][j], 2 * P::GAMMA2));
        assert(b[i].coeffs[j] as int == use_hint_spec(h[i].coeffs[j] != 0, w[i][j], 2 * P::GAMMA2));
    }
    lemma_w1_bytes_coeffs(a, b, P::W1_BITS as int);
}

/// The commitment is a function of NTT(z) and NTT(c) modulo q.
#[verifier::spinoff_prover]
proof fn lemma_commitment_from_cong<P: DsaParams>(
    pk: PublicKey<P>,
    zh: Seq<Seq<int>>,
    zh2: Seq<Seq<int>>,
    ch: Seq<int>,
    ch2: Seq<int>,
)
    requires
        forall|j: int| 0 <= j < P::L ==> #[trigger] cong_seq(zh[j], zh2[j]),
        cong_seq(ch, ch2),
    ensures
        commitment_from(pk, zh, ch) == commitment_from(pk, zh2, ch2),
{
    let lhs = commitment_from(pk, zh, ch);
    let rhs = commitment_from(pk, zh2, ch2);
    assert forall|i: int| 0 <= i < P::K implies #[trigger] lhs[i] == rhs[i] by {
        let r = poly_ints(pk.cached_a_ntt@[i]@);
        let t = ints(pk.t1_scaled_ntt@[i].coeffs@);
        assert forall|j: int| 0 <= j < P::L implies #[trigger] cong_seq(zh[j], zh2[j]) by {}
        lemma_row_sum_cong(r, zh, zh2, P::L as int);
        lemma_cong_seq_refl(t);
        lemma_cong_seq_ops(ch, ch2, t, t);
        let x = row_sum(r, zh, P::L as int);
        let x2 = row_sum(r, zh2, P::L as int);
        lemma_cong_seq_ops(x, x2, pointwise(ch, t), pointwise(ch2, t));
        lemma_inv_ntt_spec_cong(vsub(x, pointwise(ch, t)), vsub(x2, pointwise(ch2, t)));
        lemma_mod_seq_cong(inv_ntt_spec(vsub(x, pointwise(ch, t))), inv_ntt_spec(vsub(x2, pointwise(ch2, t))));
    }
    assert(lhs =~= rhs);
}

/// Whether the signature has the shape that verification requires:
/// exactly `sig_ok`.
pub fn check_signature_shape<P: DsaParams>(sig: &Signature<P>) -> (ok: bool)
    ensures
        ok == sig_ok(*sig),
{
    proof {
        P::lemma_param_set();
    }
    if sig.c_tilde.len() != P::CTILDEBYTES || sig.z.len() != P::L || sig.h.len() != P::K {
        return false;
    }
    let bound: i32 = P::GAMMA1 - P::BETA;
    for r in 0..P::L
        invariant
            sig.z@.len() == P::L,
            bound == P::GAMMA1 - P::BETA,
            forall|a: int, i: int|
                0 <= a < r && 0 <= i < N ==> centered_abs(#[trigger] sig.z@[a].coeffs[i] as int) < bound,
    {
        let norm = sig.z[r].infinity_norm();
        if norm >= bound {
            return false;
        }
    }
    let mut total: usize = 0;
    let k = sig.h.len();
    for i in 0..k
        invariant
            k == sig.h@.len(),
            k <= 8,
            total as int == hint_total(sig.h@.subrange(0, i as int)),
            total <= 256 * i,
    {
        let c = poly_hint_count(&sig.h[i]);
        proof {
            let sub = sig.h@.subrange(0, i + 1);
            assert(sub.drop_last() =~= sig.h@.subrange(0, i as int));
        }
        total = total + c;
    }
    assert(sig.h@.subrange(0, k as int) =~= sig.h@);
    total <= P::OMEGA
}

/// NTT of z, each coefficient first replaced by its centered
/// representative modulo q.
pub(crate) fn z_to_ntt(z: &Vec<Poly>) -> (r: Vec<Poly>)
    ensures
        polyvec_ok(r@, z@.len() as int, 9 * Q as int),
        forall|a: int|
            0 <= a < z@.len() ==> cong_seq(ints((#[trigger] r@[a]).coeffs@), ntt_spec(centered_ints(z@[a]))),
{
    let mut r: Vec<Poly> = Vec::new();
    let n = z.len();
    for a in 0..n
        invariant
            n == z@.len(),
            polyvec_ok(r@, a as int, 9 * Q as int),
            forall|b: int|
                0 <= b < a ==> cong_seq(ints((#[trigger] r@[b]).coeffs@), ntt_spec(centered_ints(z@[b]))),
    {
        let mut p = Poly::new();
        for i in 0..N
            invariant
                a < n,
                n == z@.len(),
                forall|t: int| 0 <= t < N ==> -Q < #[trigger] p.coeffs[t] < Q,
                forall|t: int| 0 <= t < i ==> #[trigger] p.coeffs[t] as int == center(z@[a as int].coeffs[t] as int),
        {
            p.coeffs[i] = center_i32(z[a].coeffs[i]);
        }
        assert(ints(p.coeffs@) =~= centered_ints(z@[a as int]));
        r.push(ntt(&p));
    }
    r
}

/// Row i of w': InvNTT(row z_hat - c_hat t1_i), each coefficient in [0, q).
#[verifier::spinoff_prover]
fn commitment_row(row: &Vec<Poly>, z_hat: &Vec<Poly>, c_hat: &Poly, t1: &Poly, l: usize) -> (wi: Poly)
    requires
        1 <= l <= 8,
        row@.len() == l,
        polyvec_ok(row@, l as int, 9 * Q as int),
        polyvec_ok(z_hat@, l as int, 9 * Q as int),
        coeffs_bounded(*c_hat, 9 * Q as int),
        coeffs_bounded(*t1, 9 * Q as int),
    ensures
        forall|j: int| 0 <= j < N ==> 0 <= #[trigger] wi.coeffs[j] < Q,
        ints(wi.coeffs@) == mod_seq(
            inv_ntt_spec(
                vsub(
                    row_sum(poly_ints(row@), poly_ints(z_hat@), l as int),
                    pointwise(ints(c_hat.coeffs@), ints(t1.coeffs@)),
                ),
            ),
        ),
{
    let acc = row_times_vector(row, z_hat.as_slice(), l);
    let ct1 = ntt_multiply(c_hat, t1);
    let mut d = Poly::new();
    for t in 0..N
        invariant
            coeffs_bounded(acc, Q as int),
            coeffs_bounded(ct1, Q as int),
            forall|x: int| 0 <= x < t ==> #[trigger] d.coeffs[x] == acc.coeffs[x] - ct1.coeffs[x],
    {
        assert(-Q < acc.coeffs[t as int] < Q && -Q < ct1.coeffs[t as int] < Q);
        d.coeffs[t] = acc.coeffs[t] - ct1.coeffs[t];
    }
    assert forall|x: int| 0 <= x < N implies #[trigger] d.coeffs[x] <= 2143289343 by {
        assert(-Q < acc.coeffs[x] < Q && -Q < ct1.coeffs[x] < Q);
    }
    let red = poly_reduce32(&d);
    let inv = inv_ntt(&red);
    let mut wi = inv;
    wi.reduce();
    proof {
        let x = row_sum(poly_ints(row@), poly_ints(z_hat@), l as int);
        let y = pointwise(ints(c_hat.coeffs@), ints(t1.coeffs@));
        assert(ints(d.coeffs@) =~= vsub(ints(acc.coeffs@), ints(ct1.coeffs@)));
        lemma_cong_seq_ops(ints(acc.coeffs@), x, ints(ct1.coeffs@), y);
        assert forall|i: int| 0 <= i < 256 implies #[trigger] cong_at(ints(red.coeffs@), ints(d.coeffs@), i) by {
            assert((red.coeffs[i] as int - d.coeffs[i] as int) % (Q as int) == 0);
        }
        lemma_cong_seq_trans(ints(red.coeffs@), ints(d.coeffs@), vsub(x, y));
        lemma_inv_ntt_spec_cong(ints(red.coeffs@), vsub(x, y));
        lemma_cong_seq_trans(ints(inv.coeffs@), inv_ntt_spec(ints(red.coeffs@)), inv_ntt_spec(vsub(x, y)));
        lemma_mod_seq_cong(ints(inv.coeffs@), inv_ntt_spec(vsub(x, y)));
        assert(ints(wi.coeffs@) =~= mod_seq(ints(inv.coeffs@)));
    }
    wi
}

/// w' = InvNTT(A z_hat - c_hat t1_hat 2^d), each coefficient in [0, q):
/// exactly `commitment_from` of z_hat and c_hat.
pub(crate) fn approx_commitment<P: DsaParams>(pk: &PublicKey<P>, z_hat: &Vec<Poly>, c_hat: &Poly) -> (w: Vec<
    Poly,
>)
    requires
        pk.wf(),
        pk.cached_a_ntt@.len() == P::K,
        polyvec_ok(z_hat@, P::L as int, 9 * Q as int),
        coeffs_bounded(*c_hat, 9 * Q as int),
    ensures
        w@.len() == P::K,
        forall|i: int, j: int| 0 <= i < P::K && 0 <= j < N ==> 0 <= #[trigger] w@[i].coeffs[j] < Q,
        poly_ints(w@) == commitment_from(*pk, poly_ints(z_hat@), ints(c_hat.coeffs@)),
{
    proof {
        P::lemma_param_set();
        lemma_cache_matrix_ok(pk.cached_a_ntt@, P::K as int, P::L as int);
    }
    let ghost target = commitment_from(*pk, poly_ints(z_hat@), ints(c_hat.coeffs@));
    let mut w: Vec<Poly> = Vec::new();
    for i in 0..P::K
        invariant
            pk.wf(),
            1 <= P::L <= 8,
            matrix_ok(pk.cached_a_ntt@, P::K as int, P::L as int),
            polyvec_ok(z_hat@, P::L as int, 9 * Q as int),
            coeffs_bounded(*c_hat, 9 * Q as int),
            target == commitment_from(*pk, poly_ints(z_hat@), ints(c_hat.coeffs@)),
            w@.len() == i,
            forall|a: int, j: int| 0 <= a < i && 0 <= j < N ==> 0 <= #[trigger] w@[a].coeffs[j] < Q,
            forall|a: int| 0 <= a < i ==> ints((#[trigger] w@[a]).coeffs@) == target[a],
    {
        let row = &pk.cached_a_ntt[i];
        assert(row@.len() == P::L);
        let wi = commitment_row(row, z_hat, c_hat, &pk.t1_scaled_ntt[i], P::L);
        w.push(wi);
    }
    assert(poly_ints(w@) =~= target);
    w
}

/// w1' = UseHint(h, w') coefficient by coefficient.
pub(crate) fn apply_hints<P: DsaParams>(h: &Vec<Poly>, w: &Vec<Poly>) -> (w1: Vec<Poly>)
    requires
        h@.len() == P::K,
        w@.len() == P::K,
        forall|i: int, j: int| 0 <= i < P::K && 0 <= j < N ==> 0 <= #[trigger] w@[i].coeffs[j] < Q,
    ensures
        hints_fit::<P>(w1@, h@, poly_ints(w@)),
{
    let mut w1: Vec<Poly> = Vec::new();
    for i in 0..P::K
        invariant
            h@.len() == P::K,
            w@.len() == P::K,
            forall|a: int, j: int| 0 <= a < P::K && 0 <= j < N ==> 0 <= #[trigger] w@[a].coeffs[j] < Q,
            w1@.len() == i,
            forall|a: int, j: int|
                0 <= a < i && 0 <= j < N ==> #[trigger] w1@[a].coeffs[j] as int == use_hint_spec(
                    h@[a].coeffs[j] != 0,
                    w@[a].coeffs[j] as int,
                    2 * P::GAMMA2,
                ),
    {
        let mut p = Poly::new();
        for j in 0..N
            invariant
                i < P::K,
                w@.len() == P::K,
                h@.len() == P::K,
                forall|a: int, t: int| 0 <= a < P::K && 0 <= t < N ==> 0 <= #[trigger] w@[a].coeffs[t] < Q,
                forall|t: int|
                    0 <= t < j ==> #[trigger] p.coeffs[t] as int == use_hint_spec(
                        h@[i as int].coeffs[t] != 0,
                        w@[i as int].coeffs[t] as int,
                        2 * P::GAMMA2,
                    ),
        {
            assert(0 <= w@[i as int].coeffs[j as int] < Q);
            p.coeffs[j] = use_hint_optimized::<P>(h[i].coeffs[j] != 0, w[i].coeffs[j]);
        }
        w1.push(p);
    }
    proof {
        let pw = poly_ints(w@);
        assert forall|i: int, j: int| 0 <= i < P::K && 0 <= j < N implies #[trigger] w1@[i].coeffs[j] as int
            == use_hint_spec(h@[i].coeffs[j] != 0, pw[i][j], 2 * P::GAMMA2) by {
            assert(pw[i][j] == w@[i].coeffs[j] as int);
        }
    }
    w1
}

/// The last step of verification: c~' = H(mu || w1Encode(w1')) compared
/// in constant time with c~.
pub(crate) fn commitment_matches<P: DsaParams>(mu: &[u8; 64], w1: &Vec<Poly>, c_tilde: &Vec<u8>) -> (ok: bool)
    ensures
        ok == (c_tilde@ == commitment_hash::<P>(mu@, w1@)),
{
    let bytes = encode_w1::<P>(w1.as_slice());
    let mut input: Vec<u8> = Vec::new();
    append_bytes(&mut input, mu);
    append_bytes(&mut input, bytes.as_slice());
    let c_prime = h_var(input.as_slice(), P::CTILDEBYTES);
    ct_compare(c_prime.as_slice(), c_tilde.as_slice()) == 1
}

/// The commitment that verification recomputes for z and the challenge
/// c_hat = NTT(c) is `commitment_w` of z and c.
pub(crate) proof fn lemma_commitment_matches_spec<P: DsaParams>(
    pk: PublicKey<P>,
    z: Seq<Poly>,
    z_hat: Seq<Poly>,
    c: Seq<i32>,
    c_hat: Poly,
)
    requires
        z.len() == P::L,
        z_hat.len() == P::L,
        forall|a: int| 0 <= a < P::L ==> cong_seq(ints((#[trigger] z_hat[a]).coeffs@), ntt_spec(centered_ints(z[a]))),
        cong_seq(ints(c_hat.coeffs@), ntt_spec(ints(c))),
    ensures
        commitment_from(pk, poly_ints(z_hat), ints(c_hat.coeffs@)) == commitment_w(pk, z, c),
{
    let zh = poly_ints(z_hat);
    let zh2 = Seq::new(P::L as nat, |j: int| ntt_spec(centered_ints(z[j])));
    assert forall|j: int| 0 <= j < P::L implies #[trigger] cong_seq(zh[j], zh2[j]) by {
        assert(zh[j] == ints(z_hat[j].coeffs@));
    }
    lemma_commitment_from_cong(pk, zh, zh2, ints(c_hat.coeffs@), ntt_spec(ints(c)));
}

/// What the comparison of c~ with the recomputed hash decides, given the
/// hinted commitment w1 of verification: exactly `verify_spec`.
pub(crate) proof fn lemma_verify_decision<P: DsaParams>(
    pk: PublicKey<P>,
    msg: Seq<u8>,
    sig: Signature<P>,
    w1: Seq<Poly>,
    ok: bool,
)
    requires
        verify_ready(pk, sig),
        hints_fit::<P>(w1, sig.h@, commitment_w(pk, sig.z@, challenge_of(sig))),
        ok == (sig.c_tilde@ == commitment_hash::<P>(message_rep(pk.tr@, msg), w1)),
    ensures
        ok == verify_spec(pk, msg, sig),
{
    let w = commitment_w(pk, sig.z@, challenge_of(sig));
    let mu = message_rep(pk.tr@, msg);
    if !ok {
        assert forall|w2: Seq<Poly>| #[trigger] hints_fit::<P>(w2, sig.h@, w) implies sig.c_tilde@
            != commitment_hash::<P>(mu, w2) by {
            lemma_hints_fit_hash::<P>(mu, w1, w2, sig.h@, w);
        }
    }
}

/// ML-DSA verification: true exactly when `verify_spec` holds, that is when
/// the key holds A, the signature has the right shape and norms, c~ gives a
/// challenge c, and c~ is the hash of mu with UseHint(h, w') for the
/// commitment w' recomputed from z and c.
#[verifier::spinoff_prover]
pub fn verify<P: DsaParams>(pk: &PublicKey<P>, message: &[u8], sig: &Signature<P>) -> (ok: bool)
    requires
        pk.wf(),
    ensures
        ok == verify_spec(*pk, message@, *sig),
{
    proof {
        P::lemma_param_set();
    }
    if pk.cached_a_ntt.len() == 0 {
        return false;
    }
    if !check_signature_shape::<P>(sig) {
        return false;
    }
    let mu = message_digest(&pk.tr, message);
    let c = match sample_in_ball(sig.c_tilde.as_slice(), P::TAU) {
        Some(c) => c,
        None => {
            return false;
        },
    };
    assert(coeffs_bounded(c, Q as int)) by {
        assert forall|j: int| 0 <= j < N implies -Q < #[trigger] c.coeffs[j] < Q by {
            assert(-1 <= c.coeffs[j] <= 1);
        }
    }
    let c_hat = ntt(&c);
    let z_hat = z_to_ntt(&sig.z);
    let w = approx_commitment(pk, &z_hat, &c_hat);
    let w1 = apply_hints::<P>(&sig.h, &w);
    let ok = commitment_matches::<P>(&mu, &w1, &sig.c_tilde);
    proof {
        assert(c.coeffs@ == challenge_of(*sig));
        lemma_commitment_matches_spec(*pk, sig.z@, z_hat@, c.coeffs@, c_hat);
        lemma_verify_decision(*pk, message@, *sig, w1@, ok);
    }
    ok
}

} // verus!
