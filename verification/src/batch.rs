//! Signing and verifying several messages, and the encoding of w1 that
//! signing and verification hash.

use vstd::prelude::*;
use crate::keygen::{PublicKey, SecretKey};
use crate::ntt::{coeffs_bounded, cong_seq, ints, ntt, ntt_spec, poly_ints, polyvec_ok};
use crate::params::{DsaParams, N, Q};
use crate::poly::Poly;
use crate::sampling::sample_in_ball;
use crate::sign::{Signature, message_digest, message_rep, sig_ok, sig_values, sign, sign_spec, signed_with};
use crate::verify::{
    apply_hints,
    approx_commitment,
    centered_ints,
    challenge_of,
    check_signature_shape,
    commitment_matches,
    commitment_w,
    lemma_commitment_matches_spec,
    lemma_verify_decision,
    verify,
    verify_ready,
    verify_spec,
    z_to_ntt,
};
use crate::packing::bit_pack_spec;
use crate::serialize::{coeff_vals, encode_poly_w1, lemma_p2_consts};
use crate::symmetric::append_bytes;

verus! {

/// The mask of the low `bits` bits of a w1 coefficient (4 or 6 bits).
pub open spec fn w1_mask(bits: int) -> i32 {
    if bits == 4 {
        15i32
    } else {
        63i32
    }
}

/// The low `bits` bits of each coefficient of p.
pub open spec fn w1_vals(p: Poly, bits: int) -> Seq<u32> {
    Seq::new(N as nat, |i: int| (p.coeffs[i] & w1_mask(bits)) as u32)
}

/// w1Encode (FIPS 204, Algorithm 28): SimpleBitPack of each polynomial of
/// w1 on `bits` bits per coefficient, in turn.
pub open spec fn w1_bytes(w1: Seq<Poly>, bits: int) -> Seq<u8>
    decreases w1.len(),
{
    if w1.len() == 0 {
        Seq::empty()
    } else {
        w1_bytes(w1.drop_last(), bits) + bit_pack_spec(w1_vals(w1.last(), bits), bits as nat)
    }
}

/// w1Encode with the W1_BITS of the parameter set: 4 bits per coefficient
/// (two per byte) when gamma2 = (q-1)/32, 6 bits (four per three bytes)
/// when gamma2 = (q-1)/88; only the low bits of each coefficient are kept.
pub fn encode_w1<P: DsaParams>(w1: &[Poly]) -> (out: Vec<u8>)
    ensures
        out@ == w1_bytes(w1@, P::W1_BITS as int),
{
    proof {
        P::lemma_param_set();
        lemma_p2_consts();
    }
    let bits = P::W1_BITS;
    let mask: i32 = if bits == 4 {
        15
    } else {
        63
    };
    let mut out: Vec<u8> = Vec::new();
    let n = w1.len();
    for i in 0..n
        invariant
            n == w1@.len(),
            bits == 4 || bits == 6,
            mask == w1_mask(bits as int),
            crate::packing::p2(4) == 16,
            crate::packing::p2(6) == 64,
            out@ == w1_bytes(w1@.subrange(0, i as int), bits as int),
    {
        let mut m = Poly::new();
        for j in 0..N
            invariant
                i < n,
                n == w1@.len(),
                bits == 4 || bits == 6,
                mask == w1_mask(bits as int),
                forall|x: int| 0 <= x < j ==> #[trigger] m.coeffs[x] == w1@[i as int].coeffs[x] & mask,
                forall|x: int| 0 <= x < j ==> 0 <= #[trigger] m.coeffs[x] <= mask,
        {
            let c = w1[i].coeffs[j];
            let v = c & mask;
            assert(0 <= c & 15i32 <= 15i32) by (bit_vector);
            assert(0 <= c & 63i32 <= 63i32) by (bit_vector);
            m.coeffs[j] = v;
        }
        let enc = encode_poly_w1(&m, bits);
        proof {
            assert(coeff_vals(m) =~= w1_vals(w1@[i as int], bits as int));
            let sub = w1@.subrange(0, i + 1);
            assert(sub.drop_last() =~= w1@.subrange(0, i as int));
        }
        append_bytes(&mut out, &enc);
    }
    assert(w1@.subrange(0, n as int) =~= w1@);
    out
}

/// Signs each message in turn with `sign`; entry i is None when signing
/// message i failed.
pub fn sign_batch<P: DsaParams>(sk: &SecretKey<P>, messages: &[&[u8]]) -> (sigs: Vec<Option<Signature<P>>>)
    requires
        sk.wf(),
    ensures
        sigs@.len() == messages@.len(),
        forall|i: int|
            0 <= i < messages@.len() ==> (#[trigger] sigs@[i] matches Some(sig) ==> signed_with(
                sig,
                *sk,
                message_rep(sk.tr@, messages@[i]@),
            ) && exists|rnd: Seq<u8>|
                rnd.len() == 32 && #[trigger] sign_spec::<P>(*sk, messages@[i]@, rnd) == Some(sig_values(sig))),
{
    let mut sigs: Vec<Option<Signature<P>>> = Vec::new();
    let n = messages.len();
    for i in 0..n
        invariant
            n == messages@.len(),
            sk.wf(),
            sigs@.len() == i,
            forall|a: int|
                0 <= a < i ==> (#[trigger] sigs@[a] matches Some(sig) ==> signed_with(
                    sig,
                    *sk,
                    message_rep(sk.tr@, messages@[a]@),
                ) && exists|rnd: Seq<u8>|
                    rnd.len() == 32 && #[trigger] sign_spec::<P>(*sk, messages@[a]@, rnd) == Some(sig_values(sig))),
    {
        sigs.push(sign(sk, messages[i]));
    }
    sigs
}

/// Verifies signature i against message i for each i: with `verify` one by
/// one for fewer than 4 signatures, with `verify_batch_optimized` from 4 on.
/// Entry i is what `verify` answers for message i and signature i.
pub fn verify_batch<P: DsaParams>(pk: &PublicKey<P>, messages: &[&[u8]], signatures: &[&Signature<P>]) -> (r: Vec<
    bool,
>)
    requires
        pk.wf(),
        messages@.len() == signatures@.len(),
    ensures
        r@.len() == signatures@.len(),
        forall|i: int|
            0 <= i < signatures@.len() ==> #[trigger] r@[i] == verify_spec(*pk, messages@[i]@, *signatures@[i]),
{
    if signatures.len() >= 4 {
        verify_batch_optimized(pk, messages, signatures)
    } else {
        let mut r: Vec<bool> = Vec::new();
        let n = signatures.len();
        for i in 0..n
            invariant
                n == signatures@.len(),
                n == messages@.len(),
                pk.wf(),
                r@.len() == i,
                forall|a: int|
                    0 <= a < i ==> #[trigger] r@[a] == verify_spec(*pk, messages@[a]@, *signatures@[a]),
        {
            r.push(verify(pk, messages[i], signatures[i]));
        }
        r
    }
}

/// The NTT of z that verification computes for a signature: NTT of z with
/// centered coefficients, modulo q.
pub open spec fn z_hat_ok<P: DsaParams>(z_hat: Seq<Poly>, sig: Signature<P>) -> bool {
    &&& polyvec_ok(z_hat, P::L as int, 9 * Q as int)
    &&& forall|b: int|
        0 <= b < P::L ==> cong_seq(ints((#[trigger] z_hat[b]).coeffs@), ntt_spec(centered_ints(sig.z@[b])))
}

/// The commitment w' that verification recomputes for a signature, as a
/// vector of polynomials with coefficients in [0, q).
pub open spec fn w_prime_ok<P: DsaParams>(pk: PublicKey<P>, w: Seq<Poly>, sig: Signature<P>) -> bool {
    &&& w.len() == P::K
    &&& forall|i: int, j: int| 0 <= i < P::K && 0 <= j < N ==> 0 <= #[trigger] w[i].coeffs[j] < Q
    &&& poly_ints(w) == commitment_w(pk, sig.z@, challenge_of(sig))
}

/// Batch verification in stages: the shape checks of all signatures, then
/// every mu, every NTT(z), every challenge, every w' = A z - c t1 2^d, and
/// last the hints and the commitment hashes. Gives each signature the
/// answer that `verify` gives it.
#[verifier::spinoff_prover]
pub fn verify_batch_optimized<P: DsaParams>(
    pk: &PublicKey<P>,
    messages: &[&[u8]],
    signatures: &[&Signature<P>],
) -> (results: Vec<bool>)
    requires
        pk.wf(),
        messages@.len() == signatures@.len(),
    ensures
        results@.len() == signatures@.len(),
        forall|i: int|
            0 <= i < signatures@.len() ==> #[trigger] results@[i] == verify_spec(*pk, messages@[i]@, *signatures@[i]),
{
    proof {
        P::lemma_param_set();
    }
    let n = signatures.len();
    let has_a = pk.cached_a_ntt.len() == P::K;
    let mut results: Vec<bool> = Vec::new();
    for idx in 0..n
        invariant
            n == signatures@.len(),
            has_a == (pk.cached_a_ntt@.len() == P::K),
            results@.len() == idx,
            forall|a: int| 0 <= a < idx ==> #[trigger] results@[a] == (has_a && sig_ok(*signatures@[a])),
    {
        let ok = has_a && check_signature_shape::<P>(signatures[idx]);
        results.push(ok);
    }
    let mut mus: Vec<[u8; 64]> = Vec::new();
    for idx in 0..n
        invariant
            n == signatures@.len(),
            n == messages@.len(),
            results@.len() == n,
            has_a == (pk.cached_a_ntt@.len() == P::K),
            forall|a: int| 0 <= a < n ==> #[trigger] results@[a] == (has_a && sig_ok(*signatures@[a])),
            mus@.len() == idx,
            forall|a: int|
                0 <= a < idx ==> #[trigger] results@[a] ==> mus@[a]@ == message_rep(pk.tr@, messages@[a]@),
    {
        if results[idx] {
            mus.push(message_digest(&pk.tr, messages[idx]));
        } else {
            mus.push([0u8; 64]);
        }
    }
    let mut z_ntts: Vec<Vec<Poly>> = Vec::new();
    for idx in 0..n
        invariant
            n == signatures@.len(),
            n == messages@.len(),
            results@.len() == n,
            has_a == (pk.cached_a_ntt@.len() == P::K),
            forall|a: int| 0 <= a < n ==> #[trigger] results@[a] == (has_a && sig_ok(*signatures@[a])),
            mus@.len() == n,
            forall|a: int|
                0 <= a < n ==> #[trigger] results@[a] ==> mus@[a]@ == message_rep(pk.tr@, messages@[a]@),
            z_ntts@.len() == idx,
            forall|a: int| 0 <= a < idx ==> #[trigger] results@[a] ==> z_hat_ok(z_ntts@[a]@, *signatures@[a]),
    {
        if results[idx] {
            z_ntts.push(z_to_ntt(&signatures[idx].z));
        } else {
            z_ntts.push(Vec::new());
        }
    }
    let mut challenges: Vec<Poly> = Vec::new();
    for idx in 0..n
        invariant
            n == signatures@.len(),
            n == messages@.len(),
            1 <= P::TAU <= 64,
            results@.len() == n,
            has_a == (pk.cached_a_ntt@.len() == P::K),
            forall|a: int| 0 <= a < idx ==> #[trigger] results@[a] == verify_ready(*pk, *signatures@[a]),
            forall|a: int| idx <= a < n ==> #[trigger] results@[a] == (has_a && sig_ok(*signatures@[a])),
            mus@.len() == n,
            forall|a: int|
                0 <= a < n ==> #[trigger] results@[a] ==> mus@[a]@ == message_rep(pk.tr@, messages@[a]@),
            z_ntts@.len() == n,
            forall|a: int| 0 <= a < n ==> #[trigger] results@[a] ==> z_hat_ok(z_ntts@[a]@, *signatures@[a]),
            challenges@.len() == idx,
            forall|a: int|
                0 <= a < idx ==> #[trigger] results@[a] ==> coeffs_bounded(challenges@[a], 9 * Q as int)
                    && cong_seq(ints(challenges@[a].coeffs@), ntt_spec(ints(challenge_of(*signatures@[a])))),
    {
        let mut c_hat = Poly::new();
        if results[idx] {
            match sample_in_ball(signatures[idx].c_tilde.as_slice(), P::TAU) {
                Some(c) => {
                    assert(coeffs_bounded(c, Q as int)) by {
                        assert forall|j: int| 0 <= j < N implies -Q < #[trigger] c.coeffs[j] < Q by {
                            assert(-1 <= c.coeffs[j] <= 1);
                        }
                    }
                    c_hat = ntt(&c);
                    assert(c.coeffs@ == challenge_of(*signatures@[idx as int]));
                },
                None => {
                    results.set(idx, false);
                },
            }
        }
        challenges.push(c_hat);
    }
    let mut w_primes: Vec<Vec<Poly>> = Vec::new();
    for idx in 0..n
        invariant
            n == signatures@.len(),
            n == messages@.len(),
            pk.wf(),
            results@.len() == n,
            z_ntts@.len() == n,
            challenges@.len() == n,
            forall|a: int| 0 <= a < n ==> #[trigger] results@[a] == verify_ready(*pk, *signatures@[a]),
            mus@.len() == n,
            forall|a: int|
                0 <= a < n ==> #[trigger] results@[a] ==> mus@[a]@ == message_rep(pk.tr@, messages@[a]@),
            forall|a: int| 0 <= a < n ==> #[trigger] results@[a] ==> z_hat_ok(z_ntts@[a]@, *signatures@[a]),
            forall|a: int|
                0 <= a < n ==> #[trigger] results@[a] ==> coeffs_bounded(challenges@[a], 9 * Q as int)
                    && cong_seq(ints(challenges@[a].coeffs@), ntt_spec(ints(challenge_of(*signatures@[a])))),
            w_primes@.len() == idx,
            forall|a: int|
                0 <= a < idx ==> #[trigger] results@[a] ==> w_prime_ok(*pk, w_primes@[a]@, *signatures@[a]),
    {
        if results[idx] {
            let w = approx_commitment(pk, &z_ntts[idx], &challenges[idx]);
            proof {
                let sig = *signatures@[idx as int];
                lemma_commitment_matches_spec(
                    *pk,
                    sig.z@,
                    z_ntts@[idx as int]@,
                    challenge_of(sig),
                    challenges@[idx as int],
                );
            }
            let ghost before = w_primes@;
            w_primes.push(w);
            proof {
                assert(w_primes@[idx as int] == w);
                assert forall|a: int| 0 <= a < idx implies w_primes@[a] == before[a] by {}
            }
        } else {
            w_primes.push(Vec::new());
        }
    }
    for idx in 0..n
        invariant
            n == signatures@.len(),
            n == messages@.len(),
            results@.len() == n,
            mus@.len() == n,
            w_primes@.len() == n,
            forall|a: int| 0 <= a < idx ==> #[trigger] results@[a] == verify_spec(*pk, messages@[a]@, *signatures@[a]),
            forall|a: int| idx <= a < n ==> #[trigger] results@[a] == verify_ready(*pk, *signatures@[a]),
            forall|a: int|
                idx <= a < n ==> #[trigger] results@[a] ==> mus@[a]@ == message_rep(pk.tr@, messages@[a]@),
            forall|a: int|
                idx <= a < n ==> #[trigger] results@[a] ==> w_prime_ok(*pk, w_primes@[a]@, *signatures@[a]),
    {
        if results[idx] {
            let sig = signatures[idx];
            let w1 = apply_hints::<P>(&sig.h, &w_primes[idx]);
            let ok = commitment_matches::<P>(&mus[idx], &w1, &sig.c_tilde);
            proof {
                lemma_verify_decision(*pk, messages@[idx as int]@, *sig, w1@, ok);
            }
            results.set(idx, ok);
        }
    }
    results
}

} // verus!
