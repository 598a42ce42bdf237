//! Signatures made by signing pass verification: for a key pair from key
//! generation, the commitment that verification recomputes from z, c and
//! t1 is w - c s2 + c t0, and the hints give back HighBits(w).

use vstd::prelude::*;
use crate::hints::{lemma_use_hint_recovers_high_bits, make_hint_spec, use_hint_spec};
use crate::context::context_encoding;
use crate::keygen::{PublicKey, SecretKey, key_t, keypair_from_seed, t1_scaled};
use crate::modq::{cong, lemma_cong_mod, lemma_cong_ops, lemma_cong_trans, lemma_mod_q_cong, rinv};
use crate::ntt::{
    cong_at,
    cong_seq,
    ints,
    inv_ntt_spec,
    lemma_cong_seq_ops,
    lemma_cong_seq_refl,
    lemma_cong_seq_trans,
    lemma_inv_ntt_spec_cong,
    lemma_ntt_spec_cong,
    lemma_ntt_undoes_inv_ntt,
    lemma_row_sum_cong,
    ntt_spec,
    pointwise,
    poly_ints,
    row_sum,
    scale,
    vadd,
    vsub,
};
use crate::ntt_eval::{
    lemma_inv_ntt_of_pointwise,
    lemma_inv_ntt_spec_linear,
    lemma_negacyclic_sum_bound,
    lemma_ntt_spec_linear,
    lemma_row_sum_add,
    lemma_row_sum_mul,
    nega_product,
    vmul,
};
use crate::params::{DsaParams, N, Q};
use crate::poly::{Poly, center, lemma_center_cong, lemma_center_small};
use crate::rounding::{high_bits_spec, lemma_high_bits_stable};
use crate::sampling::poly_small;
use crate::sign::{Signature, high_bits_of, hint_ok, key_product, message_rep, sign_commitment, sign_trace, signed_with};
use crate::verify::{centered_ints, challenge_of, commitment_w, hints_fit, verify_ready, verify_spec};

verus! {

/// a b 2^-32 2^32 = a b (mod q).
proof fn lemma_unmont(x: int)
    ensures
        cong(x * rinv() * 4294967296, x),
{
    assert((4294967296 * rinv() - 1) % (Q as int) == 0) by {
        assert(4294967296 * rinv() - 1 == 35501448049459199);
    }
    crate::modq::lemma_multiples(4294967296 * rinv() - 1, 0, x);
    assert(x * rinv() * 4294967296 - x == (4294967296 * rinv() - 1) * x) by (nonlinear_arith);
}

/// NTT(z_j) for the centered z_j = y_j + c s1_j is NTT(y_j) + NTT(c) o NTT(s1_j).
#[verifier::spinoff_prover]
proof fn lemma_z_hat<P: DsaParams>(sig: Signature<P>, sk: SecretKey<P>, mu: Seq<u8>, y: Seq<Seq<int>>, j: int)
    requires
        sign_trace(sig, sk, mu, y),
        sig.z@.len() == P::L,
        0 <= j < P::L,
    ensures
        cong_seq(
            ntt_spec(centered_ints(sig.z@[j])),
            vadd(ntt_spec(y[j]), vmul(ntt_spec(ints(challenge_of(sig))), ints(sk.s1_hat@[j].coeffs@))),
        ),
{
    let c = challenge_of(sig);
    let ch = ntt_spec(ints(c));
    let sh = ints(sk.s1_hat@[j].coeffs@);
    let kp = key_product(c, sk.s1_hat@[j]);
    let u = vadd(y[j], kp);
    assert forall|i: int| 0 <= i < 256 implies #[trigger] cong_at(centered_ints(sig.z@[j]), u, i) by {
        let zv = sig.z@[j].coeffs[i] as int;
        assert(cong(zv, y[j][i] + kp[i]));
        lemma_center_cong(zv);
        lemma_cong_trans(center(zv), zv, y[j][i] + kp[i]);
    }
    lemma_ntt_spec_cong(centered_ints(sig.z@[j]), u);
    crate::ntt::lemma_fwd_layer_value(u, 128, 1, 0);
    lemma_ntt_spec_linear(u, y[j], kp, 1);
    let pw = pointwise(ch, sh);
    lemma_ntt_undoes_inv_ntt(pw);
    let target = vadd(ntt_spec(y[j]), vmul(ch, sh));
    assert forall|i: int| 0 <= i < 256 implies #[trigger] cong_at(ntt_spec(u), target, i) by {
        assert(cong(ntt_spec(u)[i], ntt_spec(y[j])[i] + 1 * ntt_spec(kp)[i]));
        assert(cong_at(ntt_spec(kp), scale(pw, 4294967296), i));
        lemma_unmont(ch[i] * sh[i]);
        assert(scale(pw, 4294967296)[i] == ch[i] * sh[i] * rinv() * 4294967296);
        lemma_cong_trans(ntt_spec(kp)[i], scale(pw, 4294967296)[i], ch[i] * sh[i]);
        assert(cong(ntt_spec(y[j])[i], ntt_spec(y[j])[i])) by {
            assert(ntt_spec(y[j])[i] - ntt_spec(y[j])[i] == 0);
        }
        lemma_cong_ops(ntt_spec(y[j])[i], ntt_spec(y[j])[i], ntt_spec(kp)[i], ch[i] * sh[i], 0);
        lemma_cong_trans(ntt_spec(u)[i], ntt_spec(y[j])[i] + ntt_spec(kp)[i], target[i]);
    }
    lemma_cong_seq_trans(ntt_spec(centered_ints(sig.z@[j])), ntt_spec(u), target);
}

/// x is a multiple of q when it is a sum of multiples of q as below.
proof fn lemma_multiple_combo(x: int, d1: int, d2: int, d3: int, d4: int, d5: int, d6: int, m: int)
    requires
        d1 % (Q as int) == 0,
        d2 % (Q as int) == 0,
        d3 % (Q as int) == 0,
        d4 % (Q as int) == 0,
        d5 % (Q as int) == 0,
        d6 % (Q as int) == 0,
        x == d1 + d2 + m * (d3 - d4 - d5 + d6),
    ensures
        x % (Q as int) == 0,
{
    crate::modq::lemma_multiples(d3, d4, 0);
    crate::modq::lemma_multiples(d3 - d4, d5, 0);
    crate::modq::lemma_multiples(d3 - d4 - d5, d6, 0);
    crate::modq::lemma_multiples(d3 - d4 - d5 + d6, 0, m);
    assert((d3 - d4 - d5 + d6) * m == m * (d3 - d4 - d5 + d6)) by (nonlinear_arith);
    crate::modq::lemma_multiples(d1, d2, 0);
    crate::modq::lemma_multiples(d1 + d2, m * (d3 - d4 - d5 + d6), 0);
}

/// From the key: c (A NTT(s1)) = NTT(c) o (NTT(t) - NTT(s2)) 2^-32 row by
/// row, for t = t1 2^13 + t0 = InvNTT(A NTT(s1)) + s2.
#[verifier::spinoff_prover]
proof fn lemma_key_row<P: DsaParams>(xi: Seq<u8>, pk: PublicKey<P>, sk: SecretKey<P>, ch: Seq<int>, i: int)
    requires
        keypair_from_seed(xi, pk, sk),
        0 <= i < P::K,
    ensures
        cong_seq(
            vmul(ch, row_sum(poly_ints(sk.cached_a_ntt@[i]@), poly_ints(sk.s1_hat@), P::L as int)),
            pointwise(ch, vsub(ntt_spec(key_t(pk.t1@[i], sk.t0@[i])), ntt_spec(ints(sk.s2@[i].coeffs@)))),
        ),
{
    let rs = row_sum(poly_ints(sk.cached_a_ntt@[i]@), poly_ints(sk.s1_hat@), P::L as int);
    let t = key_t(pk.t1@[i], sk.t0@[i]);
    let s2 = ints(sk.s2@[i].coeffs@);
    let inv = inv_ntt_spec(rs);
    assert(cong_seq(t, vadd(inv, s2)));
    let d = vsub(t, s2);
    assert forall|k: int| 0 <= k < 256 implies #[trigger] cong_at(inv, d, k) by {
        assert(cong_at(t, vadd(inv, s2), k));
        assert(cong(s2[k], s2[k])) by {
            assert(s2[k] - s2[k] == 0);
        }
        lemma_cong_ops(t[k], inv[k] + s2[k], s2[k], s2[k], 0);
        lemma_cong_ops(t[k] - s2[k], inv[k], 0, 0, 0);
    }
    lemma_ntt_spec_cong(inv, d);
    lemma_ntt_undoes_inv_ntt(rs);
    lemma_ntt_spec_linear(d, t, s2, -1);
    let nt = ntt_spec(t);
    let ns = ntt_spec(s2);
    let lhs = vmul(ch, rs);
    let rhs = pointwise(ch, vsub(nt, ns));
    assert forall|k: int| 0 <= k < 256 implies #[trigger] cong_at(lhs, rhs, k) by {
        assert(cong_at(ntt_spec(inv), scale(rs, 4294967296), k));
        assert(cong_at(ntt_spec(inv), ntt_spec(d), k));
        assert(cong(ntt_spec(d)[k], nt[k] + -1 * ns[k]));
        // rs 2^32 = nt - ns (mod q)
        lemma_cong_ops(ntt_spec(inv)[k], scale(rs, 4294967296)[k], 0, 0, 0);
        lemma_cong_trans(scale(rs, 4294967296)[k], ntt_spec(inv)[k], ntt_spec(d)[k]);
        lemma_cong_trans(scale(rs, 4294967296)[k], ntt_spec(d)[k], nt[k] + -1 * ns[k]);
        let m = ch[k] * rinv();
        lemma_cong_ops(scale(rs, 4294967296)[k], nt[k] + -1 * ns[k], 0, 0, m);
        assert(scale(rs, 4294967296)[k] * m == (ch[k] * rs[k]) * rinv() * 4294967296) by (nonlinear_arith)
            requires
                scale(rs, 4294967296)[k] == rs[k] * 4294967296,
                m == ch[k] * rinv(),
        ;
        assert((nt[k] + -1 * ns[k]) * m == rhs[k]) by (nonlinear_arith)
            requires
                m == ch[k] * rinv(),
                rhs[k] == ch[k] * (nt[k] - ns[k]) * rinv(),
        ;
        lemma_unmont(ch[k] * rs[k]);
        lemma_cong_ops((ch[k] * rs[k]) * rinv() * 4294967296, ch[k] * rs[k], 0, 0, 0);
        lemma_cong_trans(ch[k] * rs[k], (ch[k] * rs[k]) * rinv() * 4294967296, rhs[k]);
    }
}

/// Row i of what verification transforms back, for a signature that sk
/// made: InvNTT(A NTT(z) - NTT(c) o NTT(t1 2^13) 2^-32) = w - c s2 + c t0
/// (mod q), with w = InvNTT(A NTT(y)) the commitment of signing.
#[verifier::rlimit(40)]
#[verifier::spinoff_prover]
proof fn lemma_row_arg<P: DsaParams>(
    xi: Seq<u8>,
    pk: PublicKey<P>,
    sk: SecretKey<P>,
    sig: Signature<P>,
    mu: Seq<u8>,
    y: Seq<Seq<int>>,
    i: int,
)
    requires
        keypair_from_seed(xi, pk, sk),
        sign_trace(sig, sk, mu, y),
        sig.z@.len() == P::L,
        0 <= i < P::K,
    ensures
        cong_seq(
            inv_ntt_spec(
                vsub(
                    row_sum(
                        poly_ints(pk.cached_a_ntt@[i]@),
                        Seq::new(P::L as nat, |j: int| ntt_spec(centered_ints(sig.z@[j]))),
                        P::L as int,
                    ),
                    pointwise(ntt_spec(ints(challenge_of(sig))), ints(pk.t1_scaled_ntt@[i].coeffs@)),
                ),
            ),
            vadd(
                vsub(
                    inv_ntt_spec(
                        row_sum(
                            poly_ints(sk.cached_a_ntt@[i]@),
                            Seq::new(P::L as nat, |j: int| ntt_spec(y[j])),
                            P::L as int,
                        ),
                    ),
                    key_product(challenge_of(sig), sk.s2_hat@[i]),
                ),
                key_product(challenge_of(sig), sk.t0_hat@[i]),
            ),
        ),
{
    let l = P::L as int;
    let c = challenge_of(sig);
    let ch = ntt_spec(ints(c));
    let a = poly_ints(sk.cached_a_ntt@[i]@);
    assert(poly_ints(pk.cached_a_ntt@[i]@) == a);
    let zh = Seq::new(P::L as nat, |j: int| ntt_spec(centered_ints(sig.z@[j])));
    let ys = Seq::new(P::L as nat, |j: int| ntt_spec(y[j]));
    let s1h = poly_ints(sk.s1_hat@);
    let m = Seq::new(P::L as nat, |j: int| vmul(ch, s1h[j]));
    let v = Seq::new(P::L as nat, |j: int| vadd(ys[j], m[j]));
    assert forall|j: int| 0 <= j < l implies #[trigger] cong_seq(zh[j], v[j]) by {
        lemma_z_hat(sig, sk, mu, y, j);
        assert(s1h[j] == ints(sk.s1_hat@[j].coeffs@));
    }
    lemma_row_sum_cong(a, zh, v, l);
    lemma_row_sum_add(a, ys, m, v, l);
    lemma_row_sum_mul(a, s1h, m, ch, l);
    let rs = row_sum(a, s1h, l);
    lemma_key_row(xi, pk, sk, ch, i);
    let ry = row_sum(a, ys, l);
    let rz = row_sum(a, zh, l);
    let t = key_t(pk.t1@[i], sk.t0@[i]);
    let t1s = t1_scaled(pk.t1@[i]);
    let t0 = ints(sk.t0@[i].coeffs@);
    let s2 = ints(sk.s2@[i].coeffs@);
    lemma_ntt_spec_linear(t, t1s, t0, 1);
    let nt = ntt_spec(t);
    let nt1 = ntt_spec(t1s);
    let nt0 = ntt_spec(t0);
    let ns2 = ntt_spec(s2);
    let t1h = ints(pk.t1_scaled_ntt@[i].coeffs@);
    let t0h = ints(sk.t0_hat@[i].coeffs@);
    let s2h = ints(sk.s2_hat@[i].coeffs@);
    let arg = vsub(rz, pointwise(ch, t1h));
    let ps2 = pointwise(ch, s2h);
    let pt0 = pointwise(ch, t0h);
    let arg2 = vadd(vadd(ry, scale(ps2, -1)), scale(pt0, 1));
    assert(row_sum(a, v, l) == vadd(ry, vmul(ch, rs)));
    assert forall|k: int| 0 <= k < 256 implies #[trigger] cong_at(arg, arg2, k) by {
        assert(cong_at(rz, row_sum(a, v, l), k));
        assert(cong_at(vmul(ch, rs), pointwise(ch, vsub(nt, ns2)), k));
        assert(cong(nt[k], nt1[k] + 1 * nt0[k]));
        assert(cong_at(t1h, nt1, k));
        assert(cong_at(t0h, nt0, k));
        assert(cong_at(s2h, ns2, k));
        let g = ch[k] * rinv();
        let d1 = rz[k] - (ry[k] + ch[k] * rs[k]);
        let d2 = ch[k] * rs[k] - ch[k] * (nt[k] - ns2[k]) * rinv();
        let d3 = nt[k] - (nt1[k] + 1 * nt0[k]);
        let d4 = t1h[k] - nt1[k];
        let d5 = t0h[k] - nt0[k];
        let d6 = s2h[k] - ns2[k];
        assert(arg[k] == rz[k] - ch[k] * t1h[k] * rinv());
        assert(arg2[k] == (ry[k] + (ch[k] * s2h[k] * rinv()) * -1) + (ch[k] * t0h[k] * rinv()) * 1);
        assert(arg[k] - arg2[k] == d1 + d2 + g * (d3 - d4 - d5 + d6)) by (nonlinear_arith)
            requires
                arg[k] == rz[k] - ch[k] * t1h[k] * rinv(),
                arg2[k] == (ry[k] + (ch[k] * s2h[k] * rinv()) * -1) + (ch[k] * t0h[k] * rinv()) * 1,
                g == ch[k] * rinv(),
                d1 == rz[k] - (ry[k] + ch[k] * rs[k]),
                d2 == ch[k] * rs[k] - ch[k] * (nt[k] - ns2[k]) * rinv(),
                d3 == nt[k] - (nt1[k] + 1 * nt0[k]),
                d4 == t1h[k] - nt1[k],
                d5 == t0h[k] - nt0[k],
                d6 == s2h[k] - ns2[k],
        ;
        lemma_multiple_combo(arg[k] - arg2[k], d1, d2, d3, d4, d5, d6, g);
    }
    lemma_inv_ntt_spec_cong(arg, arg2);
    lemma_inv_ntt_spec_linear(vadd(ry, scale(ps2, -1)), pt0, 1);
    lemma_inv_ntt_spec_linear(ry, ps2, -1);
    let target = vadd(vsub(inv_ntt_spec(ry), key_product(c, sk.s2_hat@[i])), key_product(c, sk.t0_hat@[i]));
    assert forall|k: int| 0 <= k < 256 implies #[trigger] inv_ntt_spec(arg2)[k] == target[k] by {}
    assert(inv_ntt_spec(arg2) =~= target);
}

/// c s2 is small: each coefficient of c s2 (mod± q) is at most beta =
/// tau eta in absolute value, c having tau coefficients +-1 and s2 being
/// bounded by eta.
proof fn lemma_cs2_small<P: DsaParams>(
    xi: Seq<u8>,
    pk: PublicKey<P>,
    sk: SecretKey<P>,
    sig: Signature<P>,
    mu: Seq<u8>,
    y: Seq<Seq<int>>,
    i: int,
    k: int,
)
    requires
        keypair_from_seed(xi, pk, sk),
        sign_trace(sig, sk, mu, y),
        0 <= i < P::K,
        0 <= k < 256,
    ensures
        -P::BETA <= center(key_product(challenge_of(sig), sk.s2_hat@[i])[k]) <= P::BETA,
{
    P::lemma_param_set();
    let c = challenge_of(sig);
    let s2 = sk.s2@[i].coeffs@;
    let ch = ntt_spec(ints(c));
    let s2h = ints(sk.s2_hat@[i].coeffs@);
    let kp = key_product(c, sk.s2_hat@[i]);
    lemma_cong_seq_refl(ch);
    lemma_cong_seq_ops(ch, ch, s2h, ntt_spec(ints(s2)));
    lemma_inv_ntt_spec_cong(pointwise(ch, s2h), pointwise(ch, ntt_spec(ints(s2))));
    lemma_inv_ntt_of_pointwise(c, s2);
    lemma_cong_seq_trans(kp, inv_ntt_spec(pointwise(ch, ntt_spec(ints(s2)))), nega_product(c, s2));
    assert(cong_at(kp, nega_product(c, s2), k));
    let eta = P::ETA as int;
    assert(poly_small(sk.s2@[i], eta));
    assert forall|x: int| 0 <= x < 256 implies -eta <= #[trigger] s2[x] <= eta by {
        assert(-eta <= sk.s2@[i].coeffs[x] <= eta);
    }
    lemma_negacyclic_sum_bound(c, s2, k, 256, eta);
    assert(eta * (P::TAU as int) == P::BETA);
    lemma_center_small(kp[k], nega_product(c, s2)[k]);
}

/// One coefficient of verification: the hint bit that signing made turns
/// the recomputed commitment coefficient into HighBits(w).
#[verifier::spinoff_prover]
proof fn lemma_coefficient<P: DsaParams>(
    inv_arg: int,
    inv_ry: int,
    cs2: int,
    ct0: int,
    hv: i32,
    w1v: int,
)
    requires
        valid_params::<P>(),
        cong(inv_arg, (inv_ry - cs2) + ct0),
        hint_ok::<P>(hv, inv_ry % (Q as int), cs2, ct0),
        -P::BETA <= center(cs2) <= P::BETA,
        w1v == high_bits_spec(inv_ry % (Q as int), 2 * P::GAMMA2),
    ensures
        w1v == use_hint_spec(hv != 0, inv_arg % (Q as int), 2 * P::GAMMA2),
{
    let qq = Q as int;
    let alpha = 2 * P::GAMMA2;
    let w = inv_ry % qq;
    let r = (w - cs2) % qq;
    let t = center(ct0);
    let r2 = (r + t) % qq;
    lemma_mod_q_cong(inv_ry);
    lemma_mod_q_cong(w - cs2);
    lemma_center_cong(ct0);
    lemma_mod_q_cong(r + t);
    // r + t = inv_arg (mod q)
    lemma_cong_ops(w, inv_ry, cs2, cs2, 0);
    lemma_cong_trans(r, w - cs2, inv_ry - cs2);
    lemma_cong_ops(r, inv_ry - cs2, t, ct0, 0);
    lemma_cong_ops(inv_arg, (inv_ry - cs2) + ct0, 0, 0, 0);
    lemma_cong_trans(r + t, (inv_ry - cs2) + ct0, inv_arg);
    lemma_cong_mod(r + t, inv_arg);
    assert(r2 == inv_arg % qq);
    // (r2 - t) mod q = r
    lemma_cong_ops(r2, r + t, t, t, 0);
    lemma_cong_mod(r2 - t, r);
    vstd::arithmetic::div_mod::lemma_mod_twice(w - cs2, qq);
    assert((r2 + -t) % qq == r);
    assert(make_hint_spec(-t, r2, alpha) == make_hint_spec(t, r, alpha));
    lemma_use_hint_recovers_high_bits(t, r, P::GAMMA2 as int);
    assert((hv != 0) == make_hint_spec(t, r, alpha));
    // HighBits(r) = HighBits(w)
    let e = center(cs2);
    lemma_center_cong(cs2);
    lemma_cong_ops(r, w - cs2, e, cs2, 0);
    lemma_cong_mod(r + e, w);
    vstd::arithmetic::div_mod::lemma_mod_twice(inv_ry, qq);
    lemma_high_bits_stable(r, e, P::BETA as int, alpha);
}

/// The parameter facts that the coefficient argument needs.
pub open spec fn valid_params<P: DsaParams>() -> bool {
    &&& (P::GAMMA2 == 95232 || P::GAMMA2 == 261888)
    &&& 0 <= P::BETA < P::GAMMA2
}

/// Signatures made by signing pass verification: for a key pair that
/// `keygen_from_seed` made and a signature that signing with the secret
/// key made for message msg (mu = H(tr || msg)), verification with the
/// public key accepts.
#[verifier::rlimit(40)]
#[verifier::spinoff_prover]
pub proof fn lemma_signature_verifies<P: DsaParams>(
    xi: Seq<u8>,
    pk: PublicKey<P>,
    sk: SecretKey<P>,
    msg: Seq<u8>,
    sig: Signature<P>,
)
    requires
        keypair_from_seed(xi, pk, sk),
        signed_with(sig, sk, message_rep(sk.tr@, msg)),
    ensures
        verify_spec(pk, msg, sig),
{
    P::lemma_param_set();
    let mu = message_rep(sk.tr@, msg);
    let y = choose|y: Seq<Seq<int>>| #[trigger] sign_trace(sig, sk, mu, y);
    assert(sign_trace(sig, sk, mu, y));
    let c = challenge_of(sig);
    let w = sign_commitment(sk, y);
    let w1 = choose|w1: Seq<Poly>| #[trigger] high_bits_of::<P>(w1, w) && sig.c_tilde@ == crate::sign::commitment_hash::<P>(mu, w1);
    assert(high_bits_of::<P>(w1, w) && sig.c_tilde@ == crate::sign::commitment_hash::<P>(mu, w1));
    let cw = commitment_w(pk, sig.z@, c);
    assert(verify_ready(pk, sig));
    assert forall|i: int, k: int| 0 <= i < P::K && 0 <= k < N implies #[trigger] w1[i].coeffs[k] as int == use_hint_spec(
        sig.h@[i].coeffs[k] != 0,
        cw[i][k],
        2 * P::GAMMA2,
    ) by {
        lemma_row_arg(xi, pk, sk, sig, mu, y, i);
        lemma_cs2_small(xi, pk, sk, sig, mu, y, i, k);
        let ry = row_sum(
            poly_ints(sk.cached_a_ntt@[i]@),
            Seq::new(P::L as nat, |j: int| ntt_spec(y[j])),
            P::L as int,
        );
        let arg = vsub(
            row_sum(
                poly_ints(pk.cached_a_ntt@[i]@),
                Seq::new(P::L as nat, |j: int| ntt_spec(centered_ints(sig.z@[j]))),
                P::L as int,
            ),
            pointwise(ntt_spec(ints(c)), ints(pk.t1_scaled_ntt@[i].coeffs@)),
        );
        let kp2 = key_product(c, sk.s2_hat@[i]);
        let kp0 = key_product(c, sk.t0_hat@[i]);
        assert(cong_at(inv_ntt_spec(arg), vadd(vsub(inv_ntt_spec(ry), kp2), kp0), k));
        assert(cw[i][k] == inv_ntt_spec(arg)[k] % (Q as int));
        assert(w[i][k] == inv_ntt_spec(ry)[k] % (Q as int));
        assert(hint_ok::<P>(sig.h@[i].coeffs[k], w[i][k], kp2[k], kp0[k]));
        assert(w1[i].coeffs[k] as int == high_bits_spec(w[i][k], 2 * P::GAMMA2));
        lemma_coefficient::<P>(inv_ntt_spec(arg)[k], inv_ntt_spec(ry)[k], kp2[k], kp0[k], sig.h@[i].coeffs[k], w1[i].coeffs[k] as int);
    }
    assert(hints_fit::<P>(w1, sig.h@, cw));
    assert(message_rep(pk.tr@, msg) == mu);
}

/// Batch signing followed by batch verification accepts every signature
/// that was made: for a key pair from `keygen_from_seed`, each signature
/// that signing with the secret key made for message i passes verification
/// of message i with the public key.
pub proof fn lemma_batch_signatures_verify<P: DsaParams>(
    xi: Seq<u8>,
    pk: PublicKey<P>,
    sk: SecretKey<P>,
    msgs: Seq<Seq<u8>>,
    sigs: Seq<Signature<P>>,
)
    requires
        keypair_from_seed(xi, pk, sk),
        msgs.len() == sigs.len(),
        forall|i: int| 0 <= i < sigs.len() ==> signed_with(#[trigger] sigs[i], sk, message_rep(sk.tr@, msgs[i])),
    ensures
        forall|i: int| 0 <= i < sigs.len() ==> verify_spec(pk, msgs[i], #[trigger] sigs[i]),
{
    assert forall|i: int| 0 <= i < sigs.len() implies verify_spec(pk, msgs[i], #[trigger] sigs[i]) by {
        lemma_signature_verifies(xi, pk, sk, msgs[i], sigs[i]);
    }
}

/// A signature made with a context verifies with that context: when the
/// key pair comes from a seed and sig is what signing of 0 || len(ctx) ||
/// ctx || M produces (as `sign_with_context` ensures of its result), the
/// verification that `verify_with_context` performs for (M, ctx) accepts
/// it.
pub proof fn lemma_context_signature_verifies<P: DsaParams>(
    xi: Seq<u8>,
    pk: PublicKey<P>,
    sk: SecretKey<P>,
    msg: Seq<u8>,
    ctx: Seq<u8>,
    sig: Signature<P>,
)
    requires
        keypair_from_seed(xi, pk, sk),
        ctx.len() <= 255,
        signed_with(sig, sk, message_rep(sk.tr@, context_encoding(msg, ctx))),
    ensures
        ctx.len() <= 255 && verify_spec(pk, context_encoding(msg, ctx), sig),
{
    lemma_signature_verifies(xi, pk, sk, context_encoding(msg, ctx), sig);
}

} // verus!
