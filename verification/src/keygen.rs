//! Key generation (FIPS 204, Algorithm 6) and the public and secret keys,
//! with the NTT-domain values that signing and verification reuse.

use vstd::prelude::*;
use core::marker::PhantomData;
use crate::errors::{KeyGenError, SerializationError};
use crate::ntt::{coeffs_bounded, matrix_ok, matrix_vector_mul_ntt, ntt, ntt_exact, polyvec_ok};
use crate::ntt_eval::{lemma_inv_ntt_of_pointwise, lemma_negacyclic_sum_cong, nega_product, negacyclic_sum};
use crate::ntt::{
    cong_at,
    cong_seq,
    ints,
    inv_ntt_spec,
    poly_ints,
    row_sum,
    vadd,
    lemma_cong_seq_ops,
    lemma_cong_seq_trans,
    lemma_inv_ntt_spec_cong,
    ntt_product_inverse,
    ntt_spec,
    pointwise,
};
use crate::modq::{cong, lemma_cong_mod, lemma_cong_ops, lemma_cong_trans, lemma_mod_q_cong};
use crate::params::{DsaParams, N, Q};
use crate::poly::{Poly, mod_q, mod_q_i32};
use crate::rng::fill_random;
use crate::rounding::{power2round, power2round_spec};
use crate::sampling::{
    a_seed,
    eta_poly_from,
    expand_a_entry,
    expand_matrix_a,
    expand_s,
    index_seed,
    poly_in_range,
    poly_small,
    rej_bounded_spec,
    rej_ntt_spec,
};
use crate::serialize::{
    coeff_vals,
    decode_poly_eta,
    decode_poly_t0,
    decode_poly_t1,
    encode_poly_eta,
    encode_poly_t0,
    encode_poly_t1,
    eta_bits,
    offset_vals,
};
use crate::packing::{bit_pack_spec, p2};
use crate::serialize::{lemma_coeff_packing_roundtrip, lemma_offset_packing_roundtrip};
use crate::symmetric::{append_bytes, h, h128, shake256_spec};

verus! {

/// The t1 part of a public key: 320 bytes per polynomial.
pub open spec fn t1_bytes(t1: Seq<Poly>) -> Seq<u8>
    decreases t1.len(),
{
    if t1.len() == 0 {
        Seq::empty()
    } else {
        t1_bytes(t1.drop_last()) + bit_pack_spec(coeff_vals(t1.last()), 10)
    }
}

/// Polynomials whose coefficients are t1 values (10 bits).
pub open spec fn t1_ok(t1: Seq<Poly>, k: int) -> bool {
    &&& t1.len() == k
    &&& forall|i: int, j: int| 0 <= i < k && 0 <= j < N ==> 0 <= #[trigger] t1[i].coeffs[j] <= 1023
}

/// Polynomials whose coefficients are t0 values in (-2^12, 2^12].
pub open spec fn t0_ok(t0: Seq<Poly>, k: int) -> bool {
    &&& t0.len() == k
    &&& forall|i: int, j: int| 0 <= i < k && 0 <= j < N ==> -4096 < #[trigger] t0[i].coeffs[j] <= 4096
}

/// Polynomials whose coefficients c have eta - c on 3 (eta = 2) or 4
/// (eta = 4) bits: the values that the secret key encoding holds.
pub open spec fn s_ok(s: Seq<Poly>, l: int, eta: int) -> bool {
    &&& s.len() == l
    &&& forall|i: int, j: int|
        0 <= i < l && 0 <= j < N ==> 0 <= eta - #[trigger] s[i].coeffs[j] < p2(eta_bits(eta))
}

/// A cache of A: empty, or k x l polynomials with coefficients in [0, q).
pub open spec fn a_cache_ok(a: Seq<Vec<Poly>>, k: int, l: int) -> bool {
    a.len() == 0 || (matrix_ok(a, k, l) && forall|i: int, j: int|
        0 <= i < k && 0 <= j < l ==> poly_in_range(#[trigger] a[i]@[j]))
}

/// A cache of A as ExpandA(rho) leaves it: empty exactly when the sampling
/// of some entry ran out of bytes, else entry (i, j) is RejNTTPoly(rho || j
/// || i).
pub open spec fn a_cache_of(a: Seq<Vec<Poly>>, rho: Seq<u8>, k: int, l: int) -> bool {
    &&& (a.len() == 0 <==> exists|i: int, j: int|
        0 <= i < k && 0 <= j < l && #[trigger] rej_ntt_spec(a_seed(rho, i, j)) is None)
    &&& forall|i: int, j: int|
        0 <= i < k && 0 <= j < l && a.len() != 0 ==> expand_a_entry(rho, i, j, #[trigger] a[i]@[j])
}

/// hat holds, polynomial by polynomial, what `ntt` computes of v.
pub open spec fn ntt_of_each(hat: Seq<Poly>, v: Seq<Poly>) -> bool {
    &&& hat.len() == v.len()
    &&& forall|i: int| 0 <= i < v.len() ==> ints((#[trigger] hat[i]).coeffs@) == ntt_exact(ints(v[i].coeffs@))
}

/// The coefficients of t1 * 2^13 as integers.
pub open spec fn t1_scaled(p: Poly) -> Seq<int> {
    Seq::new(256, |x: int| p.coeffs[x] * 8192)
}

/// Whether every coefficient of every polynomial of v lies in [lo, hi].
fn coeffs_within(v: &Vec<Poly>, lo: i32, hi: i32) -> (b: bool)
    ensures
        b == forall|i: int, j: int| 0 <= i < v@.len() && 0 <= j < N ==> lo <= #[trigger] v@[i].coeffs[j] <= hi,
{
    let n = v.len();
    for i in 0..n
        invariant
            n == v@.len(),
            forall|a: int, j: int| 0 <= a < i && 0 <= j < N ==> lo <= #[trigger] v@[a].coeffs[j] <= hi,
    {
        for j in 0..N
            invariant
                i < n,
                n == v@.len(),
                forall|a: int, x: int| 0 <= a < i && 0 <= x < N ==> lo <= #[trigger] v@[a].coeffs[x] <= hi,
                forall|x: int| 0 <= x < j ==> lo <= #[trigger] v@[i as int].coeffs[x] <= hi,
        {
            let c = v[i].coeffs[j];
            if c < lo || c > hi {
                return false;
            }
        }
    }
    true
}

/// Whether t1 has the shape of a public key's t1: `t1_ok`.
pub fn t1_shape_ok<P: DsaParams>(t1: &Vec<Poly>) -> (b: bool)
    ensures
        b == t1_ok(t1@, P::K as int),
{
    t1.len() == P::K && coeffs_within(t1, 0, 1023)
}

/// Whether s has the shape of a secret key's s1 (n = l) or s2 (n = k):
/// `s_ok`.
pub fn s_shape_ok<P: DsaParams>(s: &Vec<Poly>, n: usize) -> (b: bool)
    ensures
        b == s_ok(s@, n as int, P::ETA as int),
{
    proof {
        P::lemma_param_set();
        crate::serialize::lemma_eta_bits_p2(P::ETA as int);
    }
    let lo: i32 = if P::ETA == 2 {
        -5
    } else {
        -11
    };
    s.len() == n && coeffs_within(s, lo, P::ETA)
}

/// Whether t0 has the shape of a secret key's t0: `t0_ok`.
pub fn t0_shape_ok<P: DsaParams>(t0: &Vec<Poly>) -> (b: bool)
    ensures
        b == t0_ok(t0@, P::K as int),
{
    t0.len() == P::K && coeffs_within(t0, -4095, 4096)
}

/// Overwrites every polynomial of v with zeros, then empties v.
fn wipe_polys(v: &mut Vec<Poly>)
    ensures
        final(v)@.len() == 0,
{
    let n = v.len();
    for i in 0..n
        invariant
            n == v@.len(),
    {
        v.set(i, Poly::new());
    }
    v.clear();
}

/// Public key of ML-DSA: the seed rho, t1, the hash tr and the values that
/// verification precomputes.
#[derive(Debug)]
pub struct PublicKey<P: DsaParams> {
    /// Seed of the matrix A (32 bytes).
    pub rho: [u8; 32],
    /// High-order bits of t (k polynomials).
    pub t1: Vec<Poly>,
    /// Hash of the encoded public key, tr = H(rho || t1).
    pub tr: [u8; 64],
    /// The matrix A in the NTT domain (k x l), or empty when it could not be
    /// sampled.
    pub cached_a_ntt: Vec<Vec<Poly>>,
    /// NTT(t1 * 2^d) (k polynomials).
    pub t1_scaled_ntt: Vec<Poly>,
    pub _phantom: PhantomData<P>,
}

impl<P: DsaParams> Clone for PublicKey<P> {
    fn clone(&self) -> Self {
        PublicKey {
            rho: self.rho,
            t1: self.t1.clone(),
            tr: self.tr,
            cached_a_ntt: self.cached_a_ntt.clone(),
            t1_scaled_ntt: self.t1_scaled_ntt.clone(),
            _phantom: PhantomData,
        }
    }
}

impl<P: DsaParams> PublicKey<P> {
    /// The shape and ranges of a well-formed public key.
    pub open spec fn wf(&self) -> bool {
        &&& t1_ok(self.t1@, P::K as int)
        &&& polyvec_ok(self.t1_scaled_ntt@, P::K as int, 9 * Q as int)
        &&& a_cache_ok(self.cached_a_ntt@, P::K as int, P::L as int)
    }

    /// The precomputed values are what `new` computes from rho and t1: the
    /// matrix A = ExpandA(rho) (empty when its sampling ran out of bytes)
    /// and NTT(t1 * 2^13) as `ntt` computes it.
    pub open spec fn caches_ok(&self) -> bool {
        &&& a_cache_of(self.cached_a_ntt@, self.rho@, P::K as int, P::L as int)
        &&& self.t1_scaled_ntt@.len() == P::K
        &&& forall|i: int|
            0 <= i < P::K ==> ints((#[trigger] self.t1_scaled_ntt@[i]).coeffs@) == ntt_exact(t1_scaled(self.t1@[i]))
    }

    /// A public key from rho, t1 and tr, with A = ExpandA(rho) and
    /// NTT(t1 * 2^13) computed (A is left empty when its sampling ran out of
    /// bytes).
    pub fn new(rho: [u8; 32], t1: Vec<Poly>, tr: [u8; 64]) -> (pk: Self)
        requires
            t1_ok(t1@, P::K as int),
        ensures
            pk.wf(),
            pk.caches_ok(),
            pk.rho == rho,
            pk.t1 == t1,
            pk.tr == tr,
            forall|i: int, j: int|
                0 <= i < P::K && 0 <= j < P::L && pk.cached_a_ntt@.len() != 0 ==> expand_a_entry(
                    rho@,
                    i,
                    j,
                    #[trigger] pk.cached_a_ntt@[i]@[j],
                ),
            pk.cached_a_ntt@.len() == 0 <==> exists|i: int, j: int|
                0 <= i < P::K && 0 <= j < P::L && #[trigger] rej_ntt_spec(a_seed(rho@, i, j)) is None,
            forall|i: int|
                0 <= i < P::K ==> cong_seq(
                    ints((#[trigger] pk.t1_scaled_ntt@[i]).coeffs@),
                    ntt_spec(t1_scaled(t1@[i])),
                ),
    {
        proof {
            P::lemma_param_set();
        }
        let cached_a_ntt = match expand_matrix_a(&rho, P::K, P::L) {
            Some(m) => m,
            None => Vec::new(),
        };
        let mut t1_scaled_ntt: Vec<Poly> = Vec::new();
        for i in 0..P::K
            invariant
                t1_ok(t1@, P::K as int),
                polyvec_ok(t1_scaled_ntt@, i as int, 9 * Q as int),
                forall|a: int|
                    0 <= a < i ==> cong_seq(
                        ints((#[trigger] t1_scaled_ntt@[a]).coeffs@),
                        ntt_spec(t1_scaled(t1@[a])),
                    ),
                forall|a: int|
                    0 <= a < i ==> ints((#[trigger] t1_scaled_ntt@[a]).coeffs@) == ntt_exact(t1_scaled(t1@[a])),
        {
            let mut scaled = Poly::new();
            for j in 0..N
                invariant
                    i < P::K,
                    t1_ok(t1@, P::K as int),
                    forall|x: int| 0 <= x < j ==> #[trigger] scaled.coeffs[x] == t1@[i as int].coeffs[x] * 8192,
                    forall|x: int| 0 <= x < N ==> -Q < #[trigger] scaled.coeffs[x] < Q,
            {
                scaled.coeffs[j] = t1[i].coeffs[j] * 8192;
            }
            assert(ints(scaled.coeffs@) =~= t1_scaled(t1@[i as int]));
            t1_scaled_ntt.push(ntt(&scaled));
        }
        PublicKey { rho, t1, tr, cached_a_ntt, t1_scaled_ntt, _phantom: PhantomData }
    }

    /// `new` where t1 has the shape it takes (k polynomials with
    /// coefficients in [0, 1023]); None otherwise.
    pub fn try_new(rho: [u8; 32], t1: Vec<Poly>, tr: [u8; 64]) -> (r: Option<Self>)
        ensures
            r is None <==> !t1_ok(t1@, P::K as int),
            r matches Some(pk) ==> {
                &&& pk.wf()
                &&& pk.caches_ok()
                &&& pk.rho == rho
                &&& pk.t1 == t1
                &&& pk.tr == tr
            },
    {
        if t1_shape_ok::<P>(&t1) {
            Some(Self::new(rho, t1, tr))
        } else {
            None
        }
    }

    /// A public key whose precomputed values are given.
    pub fn new_with_cache(
        rho: [u8; 32],
        t1: Vec<Poly>,
        tr: [u8; 64],
        cached_a_ntt: Vec<Vec<Poly>>,
        t1_scaled_ntt: Vec<Poly>,
    ) -> (pk: Self)
        ensures
            pk.rho == rho,
            pk.t1 == t1,
            pk.tr == tr,
            pk.cached_a_ntt == cached_a_ntt,
            pk.t1_scaled_ntt == t1_scaled_ntt,
    {
        PublicKey { rho, t1, tr, cached_a_ntt, t1_scaled_ntt, _phantom: PhantomData }
    }

    /// The encoding pkEncode: rho || SimpleBitPack(t1[i], 1023) for each i
    /// (32 + 320 k bytes).
    pub fn to_bytes(&self) -> (out: Vec<u8>)
        requires
            t1_ok(self.t1@, P::K as int),
        ensures
            out@ == self.rho@ + t1_bytes(self.t1@),
    {
        let mut out: Vec<u8> = Vec::new();
        append_bytes(&mut out, &self.rho);
        let k = self.t1.len();
        for i in 0..k
            invariant
                k == self.t1@.len(),
                t1_ok(self.t1@, P::K as int),
                out@ == self.rho@ + t1_bytes(self.t1@.subrange(0, i as int)),
        {
            let enc = encode_poly_t1(&self.t1[i]);
            append_bytes(&mut out, &enc);
            proof {
                let s = self.t1@.subrange(0, i + 1);
                assert(s.drop_last() =~= self.t1@.subrange(0, i as int));
                assert(s.last() == self.t1@[i as int]);
            }
        }
        proof {
            assert(self.t1@.subrange(0, k as int) =~= self.t1@);
        }
        out
    }

    /// The decoding pkDecode of 32 + 320 k bytes, with tr = H(bytes, 64)
    /// and the precomputed values computed; an error for any other length.
    pub fn from_bytes(bytes: &[u8]) -> (r: Result<Self, SerializationError>)
        ensures
            bytes@.len() != 32 + 320 * P::K <==> r is Err,
            r matches Err(e) ==> e == (SerializationError::InvalidLength {
                expected: (32 + 320 * P::K) as usize,
                actual: bytes@.len() as usize,
            }),
            r matches Ok(pk) ==> pk_decodes(pk, bytes@),
    {
        proof {
            P::lemma_param_set();
        }
        let expected: usize = 32 + 320 * P::K;
        if bytes.len() != expected {
            return Err(SerializationError::InvalidLength { expected, actual: bytes.len() });
        }
        let mut rho = [0u8; 32];
        for i in 0..32usize
            invariant
                bytes@.len() == expected,
                expected == 32 + 320 * P::K,
                forall|j: int| 0 <= j < i ==> rho@[j] == bytes@[j],
        {
            rho[i] = bytes[i];
        }
        assert(rho@ =~= bytes@.subrange(0, 32));
        let mut t1: Vec<Poly> = Vec::new();
        for i in 0..P::K
            invariant
                bytes@.len() == expected,
                expected == 32 + 320 * P::K,
                P::K <= 8,
                t1@.len() == i,
                forall|a: int, j: int| 0 <= a < i && 0 <= j < N ==> 0 <= #[trigger] t1@[a].coeffs[j] <= 1023,
                forall|a: int|
                    0 <= a < i ==> (#[trigger] t1@[a]).coeffs@ == decode_t1_spec(
                        bytes@.subrange(32 + 320 * a, 32 + 320 * (a + 1)),
                    ),
        {
            let part = vstd::slice::slice_subrange(bytes, 32 + 320 * i, 32 + 320 * (i + 1));
            let p = decode_poly_t1(part);
            proof {
                assert(p.coeffs@ =~= decode_t1_spec(part@));
            }
            t1.push(p);
        }
        let tr = h(bytes);
        Ok(Self::new(rho, t1, tr))
    }
}

/// What pkDecode of bytes gives, with tr = H(bytes, 64) and the
/// precomputed values of `PublicKey::new`.
pub open spec fn pk_decodes<P: DsaParams>(pk: PublicKey<P>, bytes: Seq<u8>) -> bool {
    &&& pk.wf()
    &&& pk.caches_ok()
    &&& pk.rho@ == bytes.subrange(0, 32)
    &&& pk.tr@ == shake256_spec(bytes, 64)
    &&& forall|i: int|
        0 <= i < P::K ==> (#[trigger] pk.t1@[i]).coeffs@ == decode_t1_spec(
            bytes.subrange(32 + 320 * i, 32 + 320 * (i + 1)),
        )
}

/// What skDecode of bytes gives, with the precomputed values of
/// `SecretKey::from_components`.
pub open spec fn sk_decodes<P: DsaParams>(sk: SecretKey<P>, bytes: Seq<u8>) -> bool {
    let sb = 32 * eta_bits(P::ETA as int);
    let t0_start = 128 + sb * (P::L + P::K);
    &&& sk.wf()
    &&& sk.caches_ok()
    &&& sk.rho@ == bytes.subrange(0, 32)
    &&& sk.k@ == bytes.subrange(32, 64)
    &&& sk.tr@ == bytes.subrange(64, 128)
    &&& forall|i: int|
        0 <= i < P::L ==> (#[trigger] sk.s1@[i]).coeffs@ == decode_eta_spec(
            bytes.subrange(128 + sb * i, 128 + sb * (i + 1)),
            P::ETA as int,
        )
    &&& forall|i: int|
        0 <= i < P::K ==> (#[trigger] sk.s2@[i]).coeffs@ == decode_eta_spec(
            bytes.subrange(128 + sb * P::L + sb * i, 128 + sb * P::L + sb * (i + 1)),
            P::ETA as int,
        )
    &&& forall|i: int|
        0 <= i < P::K ==> (#[trigger] sk.t0@[i]).coeffs@ == decode_t0_spec(
            bytes.subrange(t0_start + 416 * i, t0_start + 416 * (i + 1)),
        )
}

/// The coefficients that SimpleBitUnpack reads from 320 bytes (10 bits
/// each).
pub open spec fn decode_t1_spec(b: Seq<u8>) -> Seq<i32> {
    Seq::new(N as nat, |i: int| crate::packing::bits_value(b, i * 10, 10) as i32)
}

/// The coefficients that BitUnpack reads from 32 * b bytes of s1 or s2:
/// eta minus each b-bit field (b = 3 for eta = 2, 4 for eta = 4).
pub open spec fn decode_eta_spec(b: Seq<u8>, eta: int) -> Seq<i32> {
    Seq::new(N as nat, |i: int| (eta - crate::packing::bits_value(b, i * eta_bits(eta), eta_bits(eta))) as i32)
}

/// The coefficients that BitUnpack reads from 416 bytes of t0: 2^12 minus
/// each 13-bit field.
pub open spec fn decode_t0_spec(b: Seq<u8>) -> Seq<i32> {
    Seq::new(N as nat, |i: int| (4096 - crate::packing::bits_value(b, i * 13, 13)) as i32)
}

/// Secret key of ML-DSA, with the NTT-domain values that signing reuses.
#[derive(Debug)]
pub struct SecretKey<P: DsaParams> {
    /// Seed of the matrix A (32 bytes).
    pub rho: [u8; 32],
    /// Signing seed K (32 bytes).
    pub k: [u8; 32],
    /// Hash of the public key (64 bytes).
    pub tr: [u8; 64],
    /// Secret vector s1 (l polynomials).
    pub s1: Vec<Poly>,
    /// Secret vector s2 (k polynomials).
    pub s2: Vec<Poly>,
    /// Low-order bits of t (k polynomials).
    pub t0: Vec<Poly>,
    /// NTT(s1).
    pub s1_hat: Vec<Poly>,
    /// NTT(s2).
    pub s2_hat: Vec<Poly>,
    /// NTT(t0).
    pub t0_hat: Vec<Poly>,
    /// The matrix A in the NTT domain (k x l), or empty when it could not be
    /// sampled.
    pub cached_a_ntt: Vec<Vec<Poly>>,
    pub _phantom: PhantomData<P>,
}

impl<P: DsaParams> Clone for SecretKey<P> {
    fn clone(&self) -> Self {
        SecretKey {
            rho: self.rho,
            k: self.k,
            tr: self.tr,
            s1: self.s1.clone(),
            s2: self.s2.clone(),
            t0: self.t0.clone(),
            s1_hat: self.s1_hat.clone(),
            s2_hat: self.s2_hat.clone(),
            t0_hat: self.t0_hat.clone(),
            cached_a_ntt: self.cached_a_ntt.clone(),
            _phantom: PhantomData,
        }
    }
}

impl<P: DsaParams> SecretKey<P> {
    /// The shape and ranges of a well-formed secret key.
    pub open spec fn wf(&self) -> bool {
        &&& s_ok(self.s1@, P::L as int, P::ETA as int)
        &&& s_ok(self.s2@, P::K as int, P::ETA as int)
        &&& t0_ok(self.t0@, P::K as int)
        &&& polyvec_ok(self.s1_hat@, P::L as int, 9 * Q as int)
        &&& polyvec_ok(self.s2_hat@, P::K as int, 9 * Q as int)
        &&& polyvec_ok(self.t0_hat@, P::K as int, 9 * Q as int)
        &&& a_cache_ok(self.cached_a_ntt@, P::K as int, P::L as int)
    }

    /// The precomputed values are what `from_components` computes: the
    /// matrix A = ExpandA(rho) (empty when its sampling ran out of bytes)
    /// and NTT(s1), NTT(s2), NTT(t0) as `ntt` computes them.
    pub open spec fn caches_ok(&self) -> bool {
        &&& a_cache_of(self.cached_a_ntt@, self.rho@, P::K as int, P::L as int)
        &&& ntt_of_each(self.s1_hat@, self.s1@)
        &&& ntt_of_each(self.s2_hat@, self.s2@)
        &&& ntt_of_each(self.t0_hat@, self.t0@)
    }

    /// A secret key whose precomputed values are given.
    pub fn new(
        rho: [u8; 32],
        k: [u8; 32],
        tr: [u8; 64],
        s1: Vec<Poly>,
        s2: Vec<Poly>,
        t0: Vec<Poly>,
        s1_hat: Vec<Poly>,
        s2_hat: Vec<Poly>,
        t0_hat: Vec<Poly>,
        cached_a_ntt: Vec<Vec<Poly>>,
    ) -> (sk: Self)
        ensures
            sk.rho == rho,
            sk.k == k,
            sk.tr == tr,
            sk.s1 == s1,
            sk.s2 == s2,
            sk.t0 == t0,
            sk.s1_hat == s1_hat,
            sk.s2_hat == s2_hat,
            sk.t0_hat == t0_hat,
            sk.cached_a_ntt == cached_a_ntt,
    {
        SecretKey { rho, k, tr, s1, s2, t0, s1_hat, s2_hat, t0_hat, cached_a_ntt, _phantom: PhantomData }
    }

    /// A secret key from its components, with NTT(s1), NTT(s2), NTT(t0) and
    /// A = ExpandA(rho) computed (A is left empty when its sampling ran out
    /// of bytes).
    pub fn from_components(
        rho: [u8; 32],
        k: [u8; 32],
        tr: [u8; 64],
        s1: Vec<Poly>,
        s2: Vec<Poly>,
        t0: Vec<Poly>,
    ) -> (sk: Self)
        requires
            s_ok(s1@, P::L as int, P::ETA as int),
            s_ok(s2@, P::K as int, P::ETA as int),
            t0_ok(t0@, P::K as int),
        ensures
            sk.wf(),
            sk.caches_ok(),
            sk.rho == rho,
            sk.k == k,
            sk.tr == tr,
            sk.s1 == s1,
            sk.s2 == s2,
            sk.t0 == t0,
            forall|j: int|
                0 <= j < P::L ==> cong_seq(ints((#[trigger] sk.s1_hat@[j]).coeffs@), ntt_spec(ints(s1@[j].coeffs@))),
            forall|i: int|
                0 <= i < P::K ==> cong_seq(ints((#[trigger] sk.s2_hat@[i]).coeffs@), ntt_spec(ints(s2@[i].coeffs@))),
            forall|i: int|
                0 <= i < P::K ==> cong_seq(ints((#[trigger] sk.t0_hat@[i]).coeffs@), ntt_spec(ints(t0@[i].coeffs@))),
            forall|i: int, j: int|
                0 <= i < P::K && 0 <= j < P::L && sk.cached_a_ntt@.len() != 0 ==> expand_a_entry(
                    rho@,
                    i,
                    j,
                    #[trigger] sk.cached_a_ntt@[i]@[j],
                ),
    {
        proof {
            P::lemma_param_set();
            lemma_small_polys_bounded(s1@, P::L as int, P::ETA as int);
            lemma_small_polys_bounded(s2@, P::K as int, P::ETA as int);
        }
        let s1_hat = ntt_all(&s1);
        let s2_hat = ntt_all(&s2);
        let t0_hat = ntt_all(&t0);
        let cached_a_ntt = match expand_matrix_a(&rho, P::K, P::L) {
            Some(m) => m,
            None => Vec::new(),
        };
        SecretKey { rho, k, tr, s1, s2, t0, s1_hat, s2_hat, t0_hat, cached_a_ntt, _phantom: PhantomData }
    }

    /// `from_components` where s1, s2 and t0 have the shapes it takes;
    /// None otherwise.
    pub fn try_from_components(
        rho: [u8; 32],
        k: [u8; 32],
        tr: [u8; 64],
        s1: Vec<Poly>,
        s2: Vec<Poly>,
        t0: Vec<Poly>,
    ) -> (r: Option<Self>)
        ensures
            r is None <==> !(s_ok(s1@, P::L as int, P::ETA as int) && s_ok(s2@, P::K as int, P::ETA as int) && t0_ok(
                t0@,
                P::K as int,
            )),
            r matches Some(sk) ==> {
                &&& sk.wf()
                &&& sk.caches_ok()
                &&& sk.rho == rho
                &&& sk.k == k
                &&& sk.tr == tr
                &&& sk.s1 == s1
                &&& sk.s2 == s2
                &&& sk.t0 == t0
            },
    {
        if s_shape_ok::<P>(&s1, P::L) && s_shape_ok::<P>(&s2, P::K) && t0_shape_ok::<P>(&t0) {
            Some(Self::from_components(rho, k, tr, s1, s2, t0))
        } else {
            None
        }
    }

    /// Erases the secret values: K is overwritten with zeros, and every
    /// polynomial of s1, s2, t0, NTT(s1), NTT(s2) and NTT(t0) is overwritten
    /// with zeros before the vector is emptied. rho, tr and A, which are
    /// public, stay. This is what the key's zeroization on drop does; it is
    /// not run on drop here, since a destructor cannot be verified, so call
    /// it before the key goes out of use.
    pub fn zeroize(&mut self)
        ensures
            final(self).k@ == Seq::new(32, |i: int| 0u8),
            final(self).s1@.len() == 0,
            final(self).s2@.len() == 0,
            final(self).t0@.len() == 0,
            final(self).s1_hat@.len() == 0,
            final(self).s2_hat@.len() == 0,
            final(self).t0_hat@.len() == 0,
            final(self).rho == old(self).rho,
            final(self).tr == old(self).tr,
            final(self).cached_a_ntt == old(self).cached_a_ntt,
    {
        self.k = [0u8; 32];
        assert(self.k@ =~= Seq::new(32, |i: int| 0u8));
        wipe_polys(&mut self.s1);
        wipe_polys(&mut self.s2);
        wipe_polys(&mut self.t0);
        wipe_polys(&mut self.s1_hat);
        wipe_polys(&mut self.s2_hat);
        wipe_polys(&mut self.t0_hat);
    }

    /// The encoding skEncode: rho || K || tr || s1 || s2 || t0, with s1 and
    /// s2 on 3 or 4 bits per coefficient and t0 on 13.
    pub fn to_bytes(&self) -> (out: Vec<u8>)
        requires
            self.wf(),
        ensures
            out@ == self.rho@ + self.k@ + self.tr@ + eta_bytes(self.s1@, P::ETA as int) + eta_bytes(
                self.s2@,
                P::ETA as int,
            ) + t0_bytes(self.t0@),
    {
        proof {
            P::lemma_param_set();
        }
        let mut out: Vec<u8> = Vec::new();
        append_bytes(&mut out, &self.rho);
        append_bytes(&mut out, &self.k);
        append_bytes(&mut out, &self.tr);
        let ghost prefix = out@;
        append_eta_polys(&mut out, &self.s1, P::ETA);
        append_eta_polys(&mut out, &self.s2, P::ETA);
        let ghost mid = out@;
        let kk = self.t0.len();
        for i in 0..kk
            invariant
                kk == self.t0@.len(),
                t0_ok(self.t0@, P::K as int),
                out@ == mid + t0_bytes(self.t0@.subrange(0, i as int)),
        {
            let enc = encode_poly_t0(&self.t0[i]);
            append_bytes(&mut out, &enc);
            proof {
                let s = self.t0@.subrange(0, i + 1);
                assert(s.drop_last() =~= self.t0@.subrange(0, i as int));
            }
        }
        proof {
            assert(self.t0@.subrange(0, kk as int) =~= self.t0@);
        }
        out
    }

    /// The decoding skDecode, with the precomputed values computed; an error
    /// for any length other than 128 + 32 * b * (l + k) + 416 k (b = 3 for
    /// eta = 2, 4 for eta = 4).
    pub fn from_bytes(bytes: &[u8]) -> (r: Result<Self, SerializationError>)
        ensures
            bytes@.len() != sk_len::<P>() <==> r is Err,
            r matches Err(e) ==> e == (SerializationError::InvalidLength {
                expected: sk_len::<P>() as usize,
                actual: bytes@.len() as usize,
            }),
            r matches Ok(sk) ==> sk_decodes(sk, bytes@),
    {
        proof {
            P::lemma_param_set();
            crate::serialize::lemma_eta_bits_p2(P::ETA as int);
        }
        let eb: usize = if P::ETA == 2 {
            3
        } else {
            4
        };
        assert(32 * eb * (P::L + P::K) <= 32 * 4 * 16) by (nonlinear_arith)
            requires
                eb <= 4,
                P::L + P::K <= 16,
        ;
        let expected: usize = 128 + 32 * eb * (P::L + P::K) + 416 * P::K;
        if bytes.len() != expected {
            return Err(SerializationError::InvalidLength { expected, actual: bytes.len() });
        }
        let mut rho = [0u8; 32];
        let mut kseed = [0u8; 32];
        let mut tr = [0u8; 64];
        for i in 0..32usize
            invariant
                bytes@.len() == expected,
                expected >= 128,
                forall|j: int| 0 <= j < i ==> rho@[j] == bytes@[j],
                forall|j: int| 0 <= j < i ==> kseed@[j] == bytes@[32 + j],
        {
            rho[i] = bytes[i];
            kseed[i] = bytes[32 + i];
        }
        for i in 0..64usize
            invariant
                bytes@.len() == expected,
                expected >= 128,
                forall|j: int| 0 <= j < i ==> tr@[j] == bytes@[64 + j],
        {
            tr[i] = bytes[64 + i];
        }
        assert(rho@ =~= bytes@.subrange(0, 32));
        assert(kseed@ =~= bytes@.subrange(32, 64));
        assert(tr@ =~= bytes@.subrange(64, 128));
        let sb = 32 * eb;
        let s1 = decode_eta_polys(bytes, 128, P::L, P::ETA);
        let s2 = decode_eta_polys(bytes, 128 + sb * P::L, P::K, P::ETA);
        let t0_start = 128 + sb * (P::L + P::K);
        let mut t0: Vec<Poly> = Vec::new();
        for i in 0..P::K
            invariant
                bytes@.len() == expected,
                expected == 128 + 32 * eb * (P::L + P::K) + 416 * P::K,
                t0_start == 128 + 32 * eb * (P::L + P::K),
                P::K <= 8,
                t0@.len() == i,
                forall|a: int, j: int| 0 <= a < i && 0 <= j < N ==> -4096 < #[trigger] t0@[a].coeffs[j] <= 4096,
                forall|a: int|
                    0 <= a < i ==> (#[trigger] t0@[a]).coeffs@ == decode_t0_spec(
                        bytes@.subrange(t0_start + 416 * a, t0_start + 416 * (a + 1)),
                    ),
        {
            let part = vstd::slice::slice_subrange(bytes, t0_start + 416 * i, t0_start + 416 * (i + 1));
            let p = decode_poly_t0(part);
            assert(p.coeffs@ =~= decode_t0_spec(part@));
            t0.push(p);
        }
        Ok(Self::from_components(rho, kseed, tr, s1, s2, t0))
    }
}

/// Length of the encoded secret key of P.
pub open spec fn sk_len<P: DsaParams>() -> int {
    128 + 32 * (eta_bits(P::ETA as int) as int) * (P::L + P::K) + 416 * P::K
}

/// The encoding of s1 or s2: BitPack of each polynomial in turn.
pub open spec fn eta_bytes(s: Seq<Poly>, eta: int) -> Seq<u8>
    decreases s.len(),
{
    if s.len() == 0 {
        Seq::empty()
    } else {
        eta_bytes(s.drop_last(), eta) + bit_pack_spec(offset_vals(s.last(), eta), eta_bits(eta))
    }
}

/// The encoding of t0: BitPack of each polynomial in turn.
pub open spec fn t0_bytes(t0: Seq<Poly>) -> Seq<u8>
    decreases t0.len(),
{
    if t0.len() == 0 {
        Seq::empty()
    } else {
        t0_bytes(t0.drop_last()) + bit_pack_spec(offset_vals(t0.last(), 4096), 13)
    }
}

fn append_eta_polys(out: &mut Vec<u8>, s: &Vec<Poly>, eta: i32)
    requires
        eta == 2 || eta == 4,
        s_ok(s@, s@.len() as int, eta as int),
    ensures
        final(out)@ == old(out)@ + eta_bytes(s@, eta as int),
{
    let n = s.len();
    let ghost start = out@;
    for i in 0..n
        invariant
            n == s@.len(),
            eta == 2 || eta == 4,
            s_ok(s@, n as int, eta as int),
            out@ == start + eta_bytes(s@.subrange(0, i as int), eta as int),
    {
        let enc = encode_poly_eta(&s[i], eta);
        append_bytes(out, &enc);
        proof {
            let sub = s@.subrange(0, i + 1);
            assert(sub.drop_last() =~= s@.subrange(0, i as int));
        }
    }
    proof {
        assert(s@.subrange(0, n as int) =~= s@);
    }
}

fn decode_eta_polys(bytes: &[u8], start: usize, count: usize, eta: i32) -> (s: Vec<Poly>)
    requires
        eta == 2 || eta == 4,
        count <= 8,
        start + 32 * eta_bits(eta as int) * count <= bytes@.len(),
    ensures
        s_ok(s@, count as int, eta as int),
        forall|i: int|
            0 <= i < count ==> (#[trigger] s@[i]).coeffs@ == decode_eta_spec(
                bytes@.subrange(start + 32 * eta_bits(eta as int) * i, start + 32 * eta_bits(eta as int) * (i + 1)),
                eta as int,
            ),
{
    proof {
        crate::serialize::lemma_eta_bits_p2(eta as int);
    }
    let eb: usize = if eta == 2 {
        3
    } else {
        4
    };
    let sb = 32 * eb;
    let blen = bytes.len();
    let mut s: Vec<Poly> = Vec::new();
    for i in 0..count
        invariant
            blen == bytes@.len(),
            eta == 2 || eta == 4,
            eb as nat == eta_bits(eta as int),
            sb == 32 * eb,
            count <= 8,
            p2(eta_bits(eta as int)) == (if eta == 2 { 8int } else { 16int }),
            start + sb * count <= bytes@.len(),
            s_ok(s@, i as int, eta as int),
            s@.len() == i,
            forall|a: int|
                0 <= a < i ==> (#[trigger] s@[a]).coeffs@ == decode_eta_spec(
                    bytes@.subrange(start + sb * a, start + sb * (a + 1)),
                    eta as int,
                ),
    {
        proof {
            assert(sb * (i + 1) <= sb * count) by (nonlinear_arith)
                requires
                    i < count,
            ;
            assert(sb * (i + 1) == sb * i + sb) by (nonlinear_arith);
            assert(start + sb * (i + 1) <= bytes@.len());
        }
        let part = vstd::slice::slice_subrange(bytes, start + sb * i, start + sb * (i + 1));
        let p = decode_poly_eta(part, eta);
        assert(p.coeffs@ =~= decode_eta_spec(part@, eta as int));
        s.push(p);
    }
    s
}

proof fn lemma_small_polys_bounded(s: Seq<Poly>, l: int, eta: int)
    requires
        eta == 2 || eta == 4,
        s_ok(s, l, eta),
    ensures
        forall|i: int| 0 <= i < l ==> coeffs_bounded(#[trigger] s[i], Q as int),
{
    crate::serialize::lemma_eta_bits_p2(eta);
    assert forall|i: int| 0 <= i < l implies coeffs_bounded(#[trigger] s[i], Q as int) by {
        assert forall|j: int| 0 <= j < N implies -Q < #[trigger] s[i].coeffs[j] < Q by {
            assert(0 <= eta - s[i].coeffs[j] < p2(eta_bits(eta)));
        }
    }
}

proof fn lemma_small_is_s_ok(s: Seq<Poly>, l: int, eta: int)
    requires
        eta == 2 || eta == 4,
        s.len() == l,
        forall|j: int| 0 <= j < l ==> poly_small(#[trigger] s[j], eta),
    ensures
        s_ok(s, l, eta),
{
    crate::serialize::lemma_eta_bits_p2(eta);
    assert forall|i: int, j: int| 0 <= i < l && 0 <= j < N implies 0 <= eta - #[trigger] s[i].coeffs[j] < p2(
        eta_bits(eta),
    ) by {
        assert(poly_small(s[i], eta));
    }
}

/// The 34 bytes that key generation expands with H: xi || k || l.
pub open spec fn keygen_input(xi: Seq<u8>, k: int, l: int) -> Seq<u8> {
    xi + seq![k as u8, l as u8]
}

/// The 128 bytes (rho, rho', K) = H(xi || k || l, 128).
pub open spec fn keygen_expansion(xi: Seq<u8>, k: int, l: int) -> Seq<u8> {
    shake256_spec(keygen_input(xi, k, l), 128)
}

/// What a key pair made from the seed xi holds: rho, K, s1 and s2 as
/// sampled from H(xi || k || l), t1 and t0 the Power2Round halves of
/// coefficients in [0, q), tr = H(pkEncode), and A cached as ExpandA(rho)
/// in both keys. Modulo q, t = t1 2^13 + t0 is InvNTT(A NTT(s1)) + s2, and
/// the NTT-domain values that the keys keep are NTT(s1), NTT(s2), NTT(t0)
/// and NTT(t1 2^13).
pub open spec fn keypair_from_seed<P: DsaParams>(xi: Seq<u8>, pk: PublicKey<P>, sk: SecretKey<P>) -> bool {
    let e = keygen_expansion(xi, P::K as int, P::L as int);
    let rho_prime = e.subrange(32, 96);
    &&& pk.wf()
    &&& sk.wf()
    &&& pk.caches_ok()
    &&& sk.caches_ok()
    &&& pk.rho@ == e.subrange(0, 32)
    &&& sk.rho == pk.rho
    &&& sk.k@ == e.subrange(96, 128)
    &&& pk.tr@ == shake256_spec(pk.rho@ + t1_bytes(pk.t1@), 64)
    &&& sk.tr == pk.tr
    &&& forall|j: int| 0 <= j < P::L ==> eta_poly_from(index_seed(rho_prime, j), P::ETA as int, #[trigger] sk.s1@[j])
    &&& forall|j: int| 0 <= j < P::K ==> eta_poly_from(index_seed(rho_prime, P::L + j), P::ETA as int, #[trigger] sk.s2@[j])
    &&& forall|j: int| 0 <= j < P::L ==> poly_small(#[trigger] sk.s1@[j], P::ETA as int)
    &&& forall|j: int| 0 <= j < P::K ==> poly_small(#[trigger] sk.s2@[j], P::ETA as int)
    &&& forall|i: int, j: int| 0 <= i < P::K && 0 <= j < N ==>
        power2round_spec(#[trigger] pk.t1@[i].coeffs[j] * 8192 + sk.t0@[i].coeffs[j]) == (pk.t1@[i].coeffs[j] as int, sk.t0@[i].coeffs[j] as int)
            && 0 <= pk.t1@[i].coeffs[j] * 8192 + sk.t0@[i].coeffs[j] < Q
    &&& sk.cached_a_ntt@.len() == P::K
    &&& forall|i: int, j: int| 0 <= i < P::K && 0 <= j < P::L ==> expand_a_entry(pk.rho@, i, j, #[trigger] sk.cached_a_ntt@[i]@[j])
    &&& pk.cached_a_ntt@.len() == P::K
    &&& forall|i: int| 0 <= i < P::K ==> poly_ints((#[trigger] pk.cached_a_ntt@[i])@) == poly_ints(sk.cached_a_ntt@[i]@)
    &&& forall|j: int| 0 <= j < P::L ==> cong_seq(ints((#[trigger] sk.s1_hat@[j]).coeffs@), ntt_spec(ints(sk.s1@[j].coeffs@)))
    &&& forall|i: int| 0 <= i < P::K ==> cong_seq(ints((#[trigger] sk.s2_hat@[i]).coeffs@), ntt_spec(ints(sk.s2@[i].coeffs@)))
    &&& forall|i: int| 0 <= i < P::K ==> cong_seq(ints((#[trigger] sk.t0_hat@[i]).coeffs@), ntt_spec(ints(sk.t0@[i].coeffs@)))
    &&& forall|i: int| 0 <= i < P::K ==> cong_seq(ints((#[trigger] pk.t1_scaled_ntt@[i]).coeffs@), ntt_spec(t1_scaled(pk.t1@[i])))
    &&& forall|i: int| 0 <= i < P::K ==> cong_seq(
        key_t(#[trigger] pk.t1@[i], sk.t0@[i]),
        vadd(inv_ntt_spec(row_sum(poly_ints(sk.cached_a_ntt@[i]@), poly_ints(sk.s1_hat@), P::L as int)), ints(sk.s2@[i].coeffs@)),
    )
}

/// t = t1 2^13 + t0, coefficient by coefficient.
pub open spec fn key_t(t1: Poly, t0: Poly) -> Seq<int> {
    Seq::new(256, |x: int| t1.coeffs[x] * 8192 + t0.coeffs[x])
}

/// Key generation from xi fails exactly when a rejection sampler runs out
/// of the bytes it reads: for an entry of A = ExpandA(rho), or for a
/// polynomial of (s1, s2) = ExpandS(rho').
pub open spec fn keygen_fails<P: DsaParams>(xi: Seq<u8>) -> bool {
    let e = keygen_expansion(xi, P::K as int, P::L as int);
    let rho = e.subrange(0, 32);
    let rho_prime = e.subrange(32, 96);
    ||| exists|i: int, j: int| 0 <= i < P::K && 0 <= j < P::L && #[trigger] rej_ntt_spec(a_seed(rho, i, j)) is None
    ||| exists|j: int|
        0 <= j < P::L + P::K && #[trigger] rej_bounded_spec(index_seed(rho_prime, j), P::ETA as int) is None
}

/// Key generation from a 32-byte seed (FIPS 204, ML-DSA.KeyGen_internal):
/// deterministic in xi. An internal error exactly when a rejection sampler
/// ran out of the bytes it reads.
#[verifier::spinoff_prover]
pub fn keygen_from_seed<P: DsaParams>(xi: &[u8; 32]) -> (r: Result<(PublicKey<P>, SecretKey<P>), KeyGenError>)
    ensures
        r matches Err(e) ==> e == KeyGenError::InternalError,
        r is Err <==> keygen_fails::<P>(xi@),
        r matches Ok((pk, sk)) ==> keypair_from_seed(xi@, pk, sk),
{
    proof {
        P::lemma_param_set();
    }
    let k = P::K;
    let l = P::L;
    let mut input: Vec<u8> = Vec::new();
    append_bytes(&mut input, xi);
    input.push(k as u8);
    input.push(l as u8);
    assert(input@ =~= keygen_input(xi@, k as int, l as int));
    let e = h128(&input);
    let mut rho = [0u8; 32];
    let mut kseed = [0u8; 32];
    for i in 0..32usize
        invariant
            e@.len() == 128,
            forall|j: int| 0 <= j < i ==> rho@[j] == e@[j],
            forall|j: int| 0 <= j < i ==> kseed@[j] == e@[96 + j],
    {
        rho[i] = e[i];
        kseed[i] = e[96 + i];
    }
    assert(rho@ =~= e@.subrange(0, 32));
    assert(kseed@ =~= e@.subrange(96, 128));
    let mut rho_prime: Vec<u8> = Vec::new();
    for i in 32..96usize
        invariant
            e@.len() == 128,
            rho_prime@ == e@.subrange(32, i as int),
    {
        rho_prime.push(e[i]);
        assert(e@.subrange(32, i + 1) =~= e@.subrange(32, i as int).push(e@[i as int]));
    }
    let matrix_a = match expand_matrix_a(&rho, k, l) {
        Some(m) => m,
        None => {
            return Err(KeyGenError::InternalError);
        },
    };
    let (s1, s2) = match expand_s(rho_prime.as_slice(), P::ETA, k, l) {
        Some(pair) => pair,
        None => {
            return Err(KeyGenError::InternalError);
        },
    };
    proof {
        lemma_small_is_s_ok(s1@, l as int, P::ETA as int);
        lemma_small_is_s_ok(s2@, k as int, P::ETA as int);
        lemma_small_polys_bounded(s1@, l as int, P::ETA as int);
        lemma_small_polys_bounded(s2@, k as int, P::ETA as int);
        assert forall|i: int, j: int| 0 <= i < k && 0 <= j < l implies coeffs_bounded(
            #[trigger] matrix_a@[i]@[j],
            9 * Q as int,
        ) by {
            assert(poly_in_range(matrix_a@[i]@[j]));
        }
    }
    let s1_hat = ntt_all(&s1);
    let t_as1 = matrix_vector_mul_ntt(matrix_a.as_slice(), s1_hat.as_slice(), k, l);
    let mut t1: Vec<Poly> = Vec::new();
    let mut t0: Vec<Poly> = Vec::new();
    for i in 0..k
        invariant
            k == P::K,
            1 <= k <= 8,
            polyvec_ok(t_as1@, k as int, Q as int),
            s2@.len() == k,
            forall|a: int| 0 <= a < k ==> poly_small(#[trigger] s2@[a], P::ETA as int),
            P::ETA == 2 || P::ETA == 4,
            t1@.len() == i,
            t0@.len() == i,
            forall|a: int, j: int| 0 <= a < i && 0 <= j < N ==> 0 <= #[trigger] t1@[a].coeffs[j] <= 1023,
            forall|a: int, j: int| 0 <= a < i && 0 <= j < N ==> -4096 < #[trigger] t0@[a].coeffs[j] <= 4096,
            forall|a: int, j: int| 0 <= a < i && 0 <= j < N ==>
                power2round_spec(#[trigger] t1@[a].coeffs[j] * 8192 + t0@[a].coeffs[j]) == (t1@[a].coeffs[j] as int, t0@[a].coeffs[j] as int)
                    && 0 <= t1@[a].coeffs[j] * 8192 + t0@[a].coeffs[j] < Q,
            forall|a: int|
                0 <= a < k ==> cong_seq(
                    ints((#[trigger] t_as1@[a]).coeffs@),
                    inv_ntt_spec(row_sum(poly_ints(matrix_a@[a]@), poly_ints(s1_hat@), l as int)),
                ),
            forall|a: int|
                0 <= a < i ==> cong_seq(
                    key_t(#[trigger] t1@[a], t0@[a]),
                    vadd(inv_ntt_spec(row_sum(poly_ints(matrix_a@[a]@), poly_ints(s1_hat@), l as int)), ints(s2@[a].coeffs@)),
                ),
    {
        proof {
            assert(coeffs_bounded(t_as1@[i as int], Q as int));
            assert(poly_small(s2@[i as int], P::ETA as int));
        }
        let sum_i = t_as1[i].add(&s2[i]);
        let mut t_i = sum_i;
        t_i.reduce();
        let mut hi = Poly::new();
        let mut lo = Poly::new();
        for j in 0..N
            invariant
                forall|x: int| 0 <= x < N ==> 0 <= #[trigger] t_i.coeffs[x] < Q,
                forall|x: int| 0 <= x < j ==> #[trigger] hi.coeffs[x] * 8192 + lo.coeffs[x] == t_i.coeffs[x],
                forall|x: int| 0 <= x < j ==> 0 <= #[trigger] hi.coeffs[x] <= 1023,
                forall|x: int| 0 <= x < j ==> -4096 < #[trigger] lo.coeffs[x] <= 4096,
                forall|x: int| 0 <= x < j ==>
                    power2round_spec(#[trigger] hi.coeffs[x] * 8192 + lo.coeffs[x]) == (hi.coeffs[x] as int, lo.coeffs[x] as int)
                        && 0 <= hi.coeffs[x] * 8192 + lo.coeffs[x] < Q,
        {
            let (r1, r0) = power2round(t_i.coeffs[j], 13);
            hi.coeffs[j] = r1;
            lo.coeffs[j] = r0;
        }
        proof {
            let target = vadd(
                inv_ntt_spec(row_sum(poly_ints(matrix_a@[i as int]@), poly_ints(s1_hat@), l as int)),
                ints(s2@[i as int].coeffs@),
            );
            let x0 = inv_ntt_spec(row_sum(poly_ints(matrix_a@[i as int]@), poly_ints(s1_hat@), l as int));
            assert forall|x: int| 0 <= x < 256 implies #[trigger] cong_at(key_t(hi, lo), target, x) by {
                assert(cong_at(ints(t_as1@[i as int].coeffs@), x0, x));
                lemma_mod_q_cong(sum_i.coeffs[x] as int);
                assert(key_t(hi, lo)[x] == t_i.coeffs[x]);
                assert(sum_i.coeffs[x] == t_as1@[i as int].coeffs[x] + s2@[i as int].coeffs[x]);
                lemma_cong_ops(
                    t_as1@[i as int].coeffs[x] as int,
                    x0[x],
                    s2@[i as int].coeffs[x] as int,
                    s2@[i as int].coeffs[x] as int,
                    0,
                );
                lemma_cong_trans(key_t(hi, lo)[x], sum_i.coeffs[x] as int, target[x]);
            }
        }
        t1.push(hi);
        t0.push(lo);
    }
    let mut pk_bytes: Vec<u8> = Vec::new();
    append_bytes(&mut pk_bytes, &rho);
    for i in 0..k
        invariant
            k == t1@.len(),
            forall|a: int, j: int| 0 <= a < k && 0 <= j < N ==> 0 <= #[trigger] t1@[a].coeffs[j] <= 1023,
            pk_bytes@ == rho@ + t1_bytes(t1@.subrange(0, i as int)),
    {
        let enc = encode_poly_t1(&t1[i]);
        append_bytes(&mut pk_bytes, &enc);
        proof {
            let sub = t1@.subrange(0, i + 1);
            assert(sub.drop_last() =~= t1@.subrange(0, i as int));
        }
    }
    assert(t1@.subrange(0, k as int) =~= t1@);
    let tr = h(pk_bytes.as_slice());
    let pk = PublicKey::new(rho, t1, tr);
    assert forall|i: int| 0 <= i < t0@.len() implies coeffs_bounded(#[trigger] t0@[i], Q as int) by {
        assert forall|j: int| 0 <= j < N implies -Q < #[trigger] t0@[i].coeffs[j] < Q by {
            assert(-4096 < t0@[i].coeffs[j] <= 4096);
        }
    }
    let s2_hat = ntt_all(&s2);
    let t0_hat = ntt_all(&t0);
    let sk = SecretKey::new(rho, kseed, tr, s1, s2, t0, s1_hat, s2_hat, t0_hat, matrix_a);
    proof {
        assert(!exists|i: int, j: int|
            0 <= i < P::K && 0 <= j < P::L && #[trigger] rej_ntt_spec(a_seed(rho@, i, j)) is None) by {
            assert forall|i: int, j: int| 0 <= i < P::K && 0 <= j < P::L implies !(#[trigger] rej_ntt_spec(
                a_seed(rho@, i, j),
            ) is None) by {
                assert(expand_a_entry(rho@, i, j, matrix_a@[i]@[j]));
            }
        }
        assert forall|i: int| 0 <= i < P::K implies poly_ints((#[trigger] pk.cached_a_ntt@[i])@) == poly_ints(
            sk.cached_a_ntt@[i]@,
        ) by {
            assert forall|j: int| 0 <= j < P::L implies #[trigger] poly_ints(pk.cached_a_ntt@[i]@)[j] == poly_ints(
                sk.cached_a_ntt@[i]@,
            )[j] by {
                assert(expand_a_entry(rho@, i, j, pk.cached_a_ntt@[i]@[j]));
                assert(expand_a_entry(rho@, i, j, matrix_a@[i]@[j]));
            }
            assert(poly_ints(pk.cached_a_ntt@[i]@) =~= poly_ints(sk.cached_a_ntt@[i]@));
        }
    }
    Ok((pk, sk))
}

/// Polynomials with the same coefficients are equal.
proof fn lemma_poly_ext(a: Poly, b: Poly)
    requires
        a.coeffs@ == b.coeffs@,
    ensures
        a == b,
{
    assert forall|i: int| 0 <= i < 256 implies a.coeffs[i] == b.coeffs[i] by {
        assert(a.coeffs@[i] == b.coeffs@[i]);
    }
    assert(a.coeffs =~= b.coeffs);
}

/// Polynomials with the same coefficients as integers are equal.
proof fn lemma_poly_ext_ints(a: Poly, b: Poly)
    requires
        ints(a.coeffs@) == ints(b.coeffs@),
    ensures
        a == b,
{
    assert forall|i: int| 0 <= i < 256 implies a.coeffs@[i] == b.coeffs@[i] by {
        assert(ints(a.coeffs@)[i] == a.coeffs@[i] as int);
        assert(ints(b.coeffs@)[i] == b.coeffs@[i] as int);
    }
    assert(a.coeffs@ =~= b.coeffs@);
    lemma_poly_ext(a, b);
}

/// Two caches of ExpandA(rho) for the same rho are the same matrix.
proof fn lemma_a_cache_determined(a1: Seq<Vec<Poly>>, a2: Seq<Vec<Poly>>, rho: Seq<u8>, k: int, l: int)
    requires
        a_cache_of(a1, rho, k, l),
        a_cache_of(a2, rho, k, l),
        a_cache_ok(a1, k, l),
        a_cache_ok(a2, k, l),
    ensures
        a1.len() == a2.len(),
        forall|i: int| 0 <= i < a1.len() ==> (#[trigger] a1[i])@ == a2[i]@,
{
    if a1.len() != 0 {
        assert forall|i: int| 0 <= i < a1.len() implies (#[trigger] a1[i])@ == a2[i]@ by {
            assert forall|j: int| 0 <= j < l implies #[trigger] a1[i]@[j] == a2[i]@[j] by {
                assert(expand_a_entry(rho, i, j, a1[i]@[j]));
                assert(expand_a_entry(rho, i, j, a2[i]@[j]));
                lemma_poly_ext(a1[i]@[j], a2[i]@[j]);
            }
            assert(a1[i]@ =~= a2[i]@);
        }
    }
}

/// NTT tables of the same polynomials, as `ntt` computes them, are equal.
proof fn lemma_ntt_of_each_determined(h1: Seq<Poly>, h2: Seq<Poly>, v: Seq<Poly>)
    requires
        ntt_of_each(h1, v),
        ntt_of_each(h2, v),
    ensures
        h1 == h2,
{
    assert forall|i: int| 0 <= i < v.len() implies #[trigger] h1[i] == h2[i] by {
        lemma_poly_ext_ints(h1[i], h2[i]);
    }
    assert(h1 =~= h2);
}

/// The precomputed values of a public key are a function of rho and t1:
/// two well-formed keys whose values are the ones `new` computes, with the
/// same rho and t1, have the same A and NTT(t1 * 2^13).
pub proof fn lemma_pk_caches_determined<P: DsaParams>(pk1: PublicKey<P>, pk2: PublicKey<P>)
    requires
        pk1.wf(),
        pk2.wf(),
        pk1.caches_ok(),
        pk2.caches_ok(),
        pk1.rho == pk2.rho,
        pk1.t1@ == pk2.t1@,
    ensures
        pk1.cached_a_ntt@.len() == pk2.cached_a_ntt@.len(),
        forall|i: int| 0 <= i < pk1.cached_a_ntt@.len() ==> (#[trigger] pk1.cached_a_ntt@[i])@ == pk2.cached_a_ntt@[i]@,
        pk1.t1_scaled_ntt@ == pk2.t1_scaled_ntt@,
{
    lemma_a_cache_determined(pk1.cached_a_ntt@, pk2.cached_a_ntt@, pk1.rho@, P::K as int, P::L as int);
    assert forall|i: int| 0 <= i < P::K implies #[trigger] pk1.t1_scaled_ntt@[i] == pk2.t1_scaled_ntt@[i] by {
        assert(pk1.t1@[i] == pk2.t1@[i]);
        lemma_poly_ext_ints(pk1.t1_scaled_ntt@[i], pk2.t1_scaled_ntt@[i]);
    }
    assert(pk1.t1_scaled_ntt@ =~= pk2.t1_scaled_ntt@);
}

/// The precomputed values of a secret key are a function of rho, s1, s2
/// and t0: two well-formed keys whose values are the ones
/// `from_components` computes, with the same rho, s1, s2 and t0, have the
/// same A, NTT(s1), NTT(s2) and NTT(t0).
pub proof fn lemma_sk_caches_determined<P: DsaParams>(sk1: SecretKey<P>, sk2: SecretKey<P>)
    requires
        sk1.wf(),
        sk2.wf(),
        sk1.caches_ok(),
        sk2.caches_ok(),
        sk1.rho == sk2.rho,
        sk1.s1@ == sk2.s1@,
        sk1.s2@ == sk2.s2@,
        sk1.t0@ == sk2.t0@,
    ensures
        sk1.cached_a_ntt@.len() == sk2.cached_a_ntt@.len(),
        forall|i: int| 0 <= i < sk1.cached_a_ntt@.len() ==> (#[trigger] sk1.cached_a_ntt@[i])@ == sk2.cached_a_ntt@[i]@,
        sk1.s1_hat@ == sk2.s1_hat@,
        sk1.s2_hat@ == sk2.s2_hat@,
        sk1.t0_hat@ == sk2.t0_hat@,
{
    lemma_a_cache_determined(sk1.cached_a_ntt@, sk2.cached_a_ntt@, sk1.rho@, P::K as int, P::L as int);
    lemma_ntt_of_each_determined(sk1.s1_hat@, sk2.s1_hat@, sk1.s1@);
    lemma_ntt_of_each_determined(sk1.s2_hat@, sk2.s2_hat@, sk1.s2@);
    lemma_ntt_of_each_determined(sk1.t0_hat@, sk2.t0_hat@, sk1.t0@);
}

/// Key generation is a function of the seed: two key pairs made from the
/// same seed xi are the same, field by field (rho, K, tr, s1, s2, t0, t1
/// and every precomputed value).
pub proof fn lemma_keygen_deterministic<P: DsaParams>(
    xi: Seq<u8>,
    pk1: PublicKey<P>,
    sk1: SecretKey<P>,
    pk2: PublicKey<P>,
    sk2: SecretKey<P>,
)
    requires
        keypair_from_seed(xi, pk1, sk1),
        keypair_from_seed(xi, pk2, sk2),
    ensures
        pk1.rho == pk2.rho,
        pk1.t1@ == pk2.t1@,
        pk1.tr == pk2.tr,
        pk1.cached_a_ntt@.len() == pk2.cached_a_ntt@.len(),
        forall|i: int| 0 <= i < pk1.cached_a_ntt@.len() ==> (#[trigger] pk1.cached_a_ntt@[i])@ == pk2.cached_a_ntt@[i]@,
        pk1.t1_scaled_ntt@ == pk2.t1_scaled_ntt@,
        sk1.rho == sk2.rho,
        sk1.k == sk2.k,
        sk1.tr == sk2.tr,
        sk1.s1@ == sk2.s1@,
        sk1.s2@ == sk2.s2@,
        sk1.t0@ == sk2.t0@,
        sk1.cached_a_ntt@.len() == sk2.cached_a_ntt@.len(),
        forall|i: int| 0 <= i < sk1.cached_a_ntt@.len() ==> (#[trigger] sk1.cached_a_ntt@[i])@ == sk2.cached_a_ntt@[i]@,
        sk1.s1_hat@ == sk2.s1_hat@,
        sk1.s2_hat@ == sk2.s2_hat@,
        sk1.t0_hat@ == sk2.t0_hat@,
{
    let e = keygen_expansion(xi, P::K as int, P::L as int);
    let rho_prime = e.subrange(32, 96);
    assert(pk1.rho =~= pk2.rho);
    assert(sk1.k =~= sk2.k);
    assert forall|j: int| 0 <= j < P::L implies #[trigger] sk1.s1@[j] == sk2.s1@[j] by {
        assert(eta_poly_from(index_seed(rho_prime, j), P::ETA as int, sk1.s1@[j]));
        assert(eta_poly_from(index_seed(rho_prime, j), P::ETA as int, sk2.s1@[j]));
        lemma_poly_ext(sk1.s1@[j], sk2.s1@[j]);
    }
    assert(sk1.s1@ =~= sk2.s1@);
    assert forall|j: int| 0 <= j < P::K implies #[trigger] sk1.s2@[j] == sk2.s2@[j] by {
        assert(eta_poly_from(index_seed(rho_prime, P::L + j), P::ETA as int, sk1.s2@[j]));
        assert(eta_poly_from(index_seed(rho_prime, P::L + j), P::ETA as int, sk2.s2@[j]));
        lemma_poly_ext(sk1.s2@[j], sk2.s2@[j]);
    }
    assert(sk1.s2@ =~= sk2.s2@);
    lemma_a_cache_determined(sk1.cached_a_ntt@, sk2.cached_a_ntt@, sk1.rho@, P::K as int, P::L as int);
    lemma_ntt_of_each_determined(sk1.s1_hat@, sk2.s1_hat@, sk1.s1@);
    assert(poly_ints(sk1.s1_hat@) == poly_ints(sk2.s1_hat@));
    assert forall|i: int|
        #![trigger pk1.t1@[i]]
        #![trigger sk1.t0@[i]]
        0 <= i < P::K implies pk1.t1@[i] == pk2.t1@[i] && sk1.t0@[i] == sk2.t0@[i] by {
        assert(poly_ints(sk1.cached_a_ntt@[i]@) =~= poly_ints(sk2.cached_a_ntt@[i]@));
        let target = vadd(
            inv_ntt_spec(row_sum(poly_ints(sk1.cached_a_ntt@[i]@), poly_ints(sk1.s1_hat@), P::L as int)),
            ints(sk1.s2@[i].coeffs@),
        );
        assert(cong_seq(key_t(pk1.t1@[i], sk1.t0@[i]), target));
        assert(cong_seq(key_t(pk2.t1@[i], sk2.t0@[i]), target));
        assert forall|x: int|
            #![trigger pk1.t1@[i].coeffs@[x]]
            #![trigger sk1.t0@[i].coeffs@[x]]
            0 <= x < N implies pk1.t1@[i].coeffs@[x] == pk2.t1@[i].coeffs@[x]
            && sk1.t0@[i].coeffs@[x] == sk2.t0@[i].coeffs@[x] by {
            let v1 = pk1.t1@[i].coeffs[x] * 8192 + sk1.t0@[i].coeffs[x];
            let v2 = pk2.t1@[i].coeffs[x] * 8192 + sk2.t0@[i].coeffs[x];
            assert(cong_at(key_t(pk1.t1@[i], sk1.t0@[i]), target, x));
            assert(cong_at(key_t(pk2.t1@[i], sk2.t0@[i]), target, x));
            assert(key_t(pk1.t1@[i], sk1.t0@[i])[x] == v1);
            assert(key_t(pk2.t1@[i], sk2.t0@[i])[x] == v2);
            lemma_cong_trans_sym(v1, v2, target[x]);
            lemma_cong_small_eq(v1, v2);
            assert(power2round_spec(v1) == (pk1.t1@[i].coeffs[x] as int, sk1.t0@[i].coeffs[x] as int));
            assert(power2round_spec(v2) == (pk2.t1@[i].coeffs[x] as int, sk2.t0@[i].coeffs[x] as int));
        }
        assert(pk1.t1@[i].coeffs@ =~= pk2.t1@[i].coeffs@);
        assert(sk1.t0@[i].coeffs@ =~= sk2.t0@[i].coeffs@);
        lemma_poly_ext(pk1.t1@[i], pk2.t1@[i]);
        lemma_poly_ext(sk1.t0@[i], sk2.t0@[i]);
    }
    assert(pk1.t1@ =~= pk2.t1@);
    assert(sk1.t0@ =~= sk2.t0@);
    assert(pk1.rho@ == pk2.rho@);
    assert(pk1.rho@ + t1_bytes(pk1.t1@) == pk2.rho@ + t1_bytes(pk2.t1@));
    assert(pk1.tr@ == pk2.tr@);
    assert forall|i: int| 0 <= i < 64 implies pk1.tr[i] == pk2.tr[i] by {
        assert(pk1.tr@[i] == pk2.tr@[i]);
    }
    assert(pk1.tr =~= pk2.tr);
    lemma_sk_caches_determined(sk1, sk2);
    lemma_pk_caches_determined(pk1, pk2);
}

/// a = c and b = c (mod q) give a = b (mod q).
proof fn lemma_cong_trans_sym(a: int, b: int, c: int)
    requires
        cong(a, c),
        cong(b, c),
    ensures
        cong(a, b),
{
    crate::modq::lemma_multiples(a - c, b - c, 0);
    assert(a - b == (a - c) - (b - c));
}

/// Two values in [0, q) that are congruent modulo q are equal.
proof fn lemma_cong_small_eq(a: int, b: int)
    requires
        cong(a, b),
        0 <= a < Q,
        0 <= b < Q,
    ensures
        a == b,
{
    let d = a - b;
    assert(d % (Q as int) == 0);
    vstd::arithmetic::div_mod::lemma_fundamental_div_mod(d, Q as int);
    assert(d == (Q as int) * (d / (Q as int)));
    if d / (Q as int) >= 1 {
        assert((Q as int) * (d / (Q as int)) >= Q as int) by (nonlinear_arith)
            requires d / (Q as int) >= 1;
    } else if d / (Q as int) <= -1 {
        assert((Q as int) * (d / (Q as int)) <= -(Q as int)) by (nonlinear_arith)
            requires d / (Q as int) <= -1;
    }
}

/// Key generation with a fresh seed from the operating system; an error
/// when the random source failed, or as `keygen_from_seed`.
pub fn keygen<P: DsaParams>() -> (r: Result<(PublicKey<P>, SecretKey<P>), KeyGenError>)
    ensures
        r matches Ok((pk, sk)) ==> exists|xi: Seq<u8>| xi.len() == 32 && #[trigger] keypair_from_seed(xi, pk, sk),
        r matches Err(e) ==> (e == KeyGenError::RngFailure || exists|xi: Seq<u8>|
            xi.len() == 32 && #[trigger] keygen_fails::<P>(xi)),
{
    let mut xi = [0u8; 32];
    if !fill_random(&mut xi) {
        return Err(KeyGenError::RngFailure);
    }
    let r = keygen_from_seed::<P>(&xi);
    match r {
        Ok((pk, sk)) => {
            assert(keypair_from_seed(xi@, pk, sk));
            Ok((pk, sk))
        },
        Err(e) => {
            assert(keygen_fails::<P>(xi@));
            Err(e)
        },
    }
}

/// A nonempty cache of A is a k x l matrix whose coefficients are in
/// (-9q, 9q), as the NTT-domain products need.
pub proof fn lemma_cache_matrix_ok(a: Seq<Vec<Poly>>, k: int, l: int)
    requires
        a_cache_ok(a, k, l),
        a.len() == k,
        k >= 1,
    ensures
        matrix_ok(a, k, l),
{
    assert forall|i: int, j: int| 0 <= i < k && 0 <= j < l implies coeffs_bounded(
        #[trigger] a[i]@[j],
        9 * Q as int,
    ) by {
        assert(poly_in_range(a[i]@[j]));
    }
}

/// NTT of every polynomial of a vector whose coefficients are in (-q, q).
pub(crate) fn ntt_all(v: &Vec<Poly>) -> (r: Vec<Poly>)
    requires
        forall|i: int| 0 <= i < v@.len() ==> coeffs_bounded(#[trigger] v@[i], Q as int),
    ensures
        polyvec_ok(r@, v@.len() as int, 9 * Q as int),
        forall|i: int|
            0 <= i < v@.len() ==> cong_seq(ints((#[trigger] r@[i]).coeffs@), ntt_spec(ints(v@[i].coeffs@))),
        ntt_of_each(r@, v@),
{
    let mut r: Vec<Poly> = Vec::new();
    let n = v.len();
    for i in 0..n
        invariant
            n == v@.len(),
            forall|a: int| 0 <= a < v@.len() ==> coeffs_bounded(#[trigger] v@[a], Q as int),
            polyvec_ok(r@, i as int, 9 * Q as int),
            forall|a: int|
                0 <= a < i ==> cong_seq(ints((#[trigger] r@[a]).coeffs@), ntt_spec(ints(v@[a].coeffs@))),
            forall|a: int| 0 <= a < i ==> ints((#[trigger] r@[a]).coeffs@) == ntt_exact(ints(v@[a].coeffs@)),
    {
        r.push(ntt(&v[i]));
    }
    r
}


/// The product of a and b in R_q = Z_q[X]/(X^256 + 1), each coefficient in
/// [0, q), computed with the NTT: both factors reduced to [0, q),
/// transformed, multiplied coefficient by coefficient and transformed back.
#[verifier::spinoff_prover]
pub fn poly_multiply(a: &Poly, b: &Poly) -> (r: Poly)
    ensures
        forall|k: int|
            0 <= k < N ==> #[trigger] r.coeffs[k] as int == mod_q(negacyclic_sum(a.coeffs@, b.coeffs@, k, 256)),
{
    let mut ar = Poly::new();
    let mut br = Poly::new();
    for i in 0..N
        invariant
            forall|t: int| 0 <= t < N ==> -Q < #[trigger] ar.coeffs[t] < Q,
            forall|t: int| 0 <= t < N ==> -Q < #[trigger] br.coeffs[t] < Q,
            forall|t: int| 0 <= t < i ==> #[trigger] ar.coeffs[t] as int == mod_q(a.coeffs[t] as int),
            forall|t: int| 0 <= t < i ==> #[trigger] br.coeffs[t] as int == mod_q(b.coeffs[t] as int),
    {
        ar.coeffs[i] = mod_q_i32(a.coeffs[i]);
        br.coeffs[i] = mod_q_i32(b.coeffs[i]);
    }
    let a_hat = ntt(&ar);
    let b_hat = ntt(&br);
    let prod = ntt_product_inverse(&a_hat, &b_hat);
    let mut r = Poly::new();
    for k in 0..N
        invariant
            forall|t: int| 0 <= t < k ==> #[trigger] r.coeffs[t] as int == mod_q(prod.coeffs[t] as int),
    {
        r.coeffs[k] = mod_q_i32(prod.coeffs[k]);
    }
    proof {
        let ia = ints(ar.coeffs@);
        let ib = ints(br.coeffs@);
        lemma_cong_seq_ops(ints(a_hat.coeffs@), ntt_spec(ia), ints(b_hat.coeffs@), ntt_spec(ib));
        let pw = pointwise(ints(a_hat.coeffs@), ints(b_hat.coeffs@));
        let pw2 = pointwise(ntt_spec(ia), ntt_spec(ib));
        lemma_inv_ntt_spec_cong(pw, pw2);
        lemma_cong_seq_trans(ints(prod.coeffs@), inv_ntt_spec(pw), inv_ntt_spec(pw2));
        assert(ia =~= ints(ar.coeffs@));
        lemma_inv_ntt_of_pointwise(ar.coeffs@, br.coeffs@);
        lemma_cong_seq_trans(ints(prod.coeffs@), inv_ntt_spec(pw2), nega_product(ar.coeffs@, br.coeffs@));
        assert forall|i: int| 0 <= i < 256 implies cong(#[trigger] ar.coeffs@[i] as int, a.coeffs@[i] as int) && cong(
            br.coeffs@[i] as int,
            b.coeffs@[i] as int,
        ) by {
            lemma_mod_q_cong(a.coeffs[i] as int);
            lemma_mod_q_cong(b.coeffs[i] as int);
        }
        assert forall|k: int| 0 <= k < N implies #[trigger] r.coeffs[k] as int == mod_q(
            negacyclic_sum(a.coeffs@, b.coeffs@, k, 256),
        ) by {
            lemma_negacyclic_sum_cong(ar.coeffs@, br.coeffs@, a.coeffs@, b.coeffs@, k, 256);
            assert(cong_at(ints(prod.coeffs@), nega_product(ar.coeffs@, br.coeffs@), k));
            lemma_cong_trans(
                prod.coeffs[k] as int,
                negacyclic_sum(ar.coeffs@, br.coeffs@, k, 256),
                negacyclic_sum(a.coeffs@, b.coeffs@, k, 256),
            );
            lemma_cong_mod(prod.coeffs[k] as int, negacyclic_sum(a.coeffs@, b.coeffs@, k, 256));
        }
    }
    r
}

/// Part i (m bytes) of prefix + last, for i inside prefix (m parts) or the
/// last part.
proof fn lemma_part_of_concat(prefix: Seq<u8>, last: Seq<u8>, m: int, n: int, i: int)
    requires
        m > 0,
        prefix.len() == m * n,
        last.len() == m,
        0 <= i <= n,
    ensures
        (prefix + last).len() == m * (n + 1),
        i < n ==> (prefix + last).subrange(m * i, m * (i + 1)) == prefix.subrange(m * i, m * (i + 1)),
        i == n ==> (prefix + last).subrange(m * i, m * (i + 1)) == last,
{
    assert(m * (n + 1) == m * n + m) by (nonlinear_arith);
    assert(m * (i + 1) == m * i + m) by (nonlinear_arith);
    if i < n {
        assert(m * (i + 1) <= m * n) by (nonlinear_arith)
            requires
                i < n,
                m > 0,
        ;
        assert(0 <= m * i) by (nonlinear_arith)
            requires
                i >= 0,
                m > 0,
        ;
        assert((prefix + last).subrange(m * i, m * (i + 1)) =~= prefix.subrange(m * i, m * (i + 1)));
    } else {
        assert((prefix + last).subrange(m * i, m * (i + 1)) =~= last);
    }
}

proof fn lemma_t1_bytes_parts(t1: Seq<Poly>)
    ensures
        t1_bytes(t1).len() == 320 * t1.len(),
        forall|i: int|
            0 <= i < t1.len() ==> t1_bytes(t1).subrange(320 * i, 320 * (i + 1)) == bit_pack_spec(
                coeff_vals(#[trigger] t1[i]),
                10,
            ),
    decreases t1.len(),
{
    if t1.len() > 0 {
        let prev = t1.drop_last();
        lemma_t1_bytes_parts(prev);
        let last = bit_pack_spec(coeff_vals(t1.last()), 10);
        assert forall|i: int| 0 <= i < t1.len() implies t1_bytes(t1).subrange(320 * i, 320 * (i + 1))
            == bit_pack_spec(coeff_vals(#[trigger] t1[i]), 10) by {
            lemma_part_of_concat(t1_bytes(prev), last, 320, prev.len() as int, i);
            if i < prev.len() {
                assert(prev[i] == t1[i]);
            }
        }
        lemma_part_of_concat(t1_bytes(prev), last, 320, prev.len() as int, 0);
    }
}

proof fn lemma_eta_bytes_parts(s: Seq<Poly>, eta: int)
    requires
        eta == 2 || eta == 4,
    ensures
        eta_bytes(s, eta).len() == 32 * eta_bits(eta) * s.len(),
        forall|i: int|
            0 <= i < s.len() ==> eta_bytes(s, eta).subrange(
                32 * eta_bits(eta) * i,
                32 * eta_bits(eta) * (i + 1),
            ) == bit_pack_spec(offset_vals(#[trigger] s[i], eta), eta_bits(eta)),
    decreases s.len(),
{
    let m = 32 * eta_bits(eta);
    if s.len() > 0 {
        let prev = s.drop_last();
        lemma_eta_bytes_parts(prev, eta);
        let last = bit_pack_spec(offset_vals(s.last(), eta), eta_bits(eta));
        assert(last.len() == m);
        assert forall|i: int| 0 <= i < s.len() implies eta_bytes(s, eta).subrange(m * i, m * (i + 1))
            == bit_pack_spec(offset_vals(#[trigger] s[i], eta), eta_bits(eta)) by {
            lemma_part_of_concat(eta_bytes(prev, eta), last, m as int, prev.len() as int, i);
            if i < prev.len() {
                assert(prev[i] == s[i]);
            }
        }
        lemma_part_of_concat(eta_bytes(prev, eta), last, m as int, prev.len() as int, 0);
    }
}

proof fn lemma_t0_bytes_parts(t0: Seq<Poly>)
    ensures
        t0_bytes(t0).len() == 416 * t0.len(),
        forall|i: int|
            0 <= i < t0.len() ==> t0_bytes(t0).subrange(416 * i, 416 * (i + 1)) == bit_pack_spec(
                offset_vals(#[trigger] t0[i], 4096),
                13,
            ),
    decreases t0.len(),
{
    if t0.len() > 0 {
        let prev = t0.drop_last();
        lemma_t0_bytes_parts(prev);
        let last = bit_pack_spec(offset_vals(t0.last(), 4096), 13);
        assert forall|i: int| 0 <= i < t0.len() implies t0_bytes(t0).subrange(416 * i, 416 * (i + 1))
            == bit_pack_spec(offset_vals(#[trigger] t0[i], 4096), 13) by {
            lemma_part_of_concat(t0_bytes(prev), last, 416, prev.len() as int, i);
            if i < prev.len() {
                assert(prev[i] == t0[i]);
            }
        }
        lemma_part_of_concat(t0_bytes(prev), last, 416, prev.len() as int, 0);
    }
}

/// pkDecode undoes pkEncode: in rho || pkEncode(t1), the first 32 bytes
/// are rho and part i of 320 bytes after them decodes to t1[i].
pub proof fn lemma_pk_encoding_roundtrip(rho: Seq<u8>, t1: Seq<Poly>, k: int)
    requires
        rho.len() == 32,
        t1_ok(t1, k),
    ensures
        (rho + t1_bytes(t1)).len() == 32 + 320 * k,
        (rho + t1_bytes(t1)).subrange(0, 32) == rho,
        forall|i: int|
            0 <= i < k ==> decode_t1_spec((rho + t1_bytes(t1)).subrange(32 + 320 * i, 32 + 320 * (i + 1)))
                == (#[trigger] t1[i]).coeffs@,
{
    lemma_t1_bytes_parts(t1);
    let e = rho + t1_bytes(t1);
    assert(e.subrange(0, 32) =~= rho);
    assert forall|i: int| 0 <= i < k implies decode_t1_spec(e.subrange(32 + 320 * i, 32 + 320 * (i + 1)))
        == (#[trigger] t1[i]).coeffs@ by {
        assert(320 * (i + 1) <= 320 * k) by (nonlinear_arith)
            requires
                i < k,
        ;
        assert(e.subrange(32 + 320 * i, 32 + 320 * (i + 1)) =~= t1_bytes(t1).subrange(320 * i, 320 * (i + 1)));
        crate::serialize::lemma_p2_consts();
        assert forall|j: int| 0 <= j < N implies 0 <= #[trigger] t1[i].coeffs[j] < p2(10) by {}
        lemma_coeff_packing_roundtrip(t1[i], 10);
        assert(decode_t1_spec(bit_pack_spec(coeff_vals(t1[i]), 10)) =~= t1[i].coeffs@);
    }
}

proof fn lemma_subrange_left(a: Seq<u8>, b: Seq<u8>, lo: int, hi: int)
    requires
        0 <= lo <= hi <= a.len(),
    ensures
        (a + b).subrange(lo, hi) == a.subrange(lo, hi),
{
    assert((a + b).subrange(lo, hi) =~= a.subrange(lo, hi));
}

proof fn lemma_subrange_right(a: Seq<u8>, b: Seq<u8>, lo: int, hi: int)
    requires
        a.len() <= lo <= hi <= a.len() + b.len(),
    ensures
        (a + b).subrange(lo, hi) == b.subrange(lo - a.len(), hi - a.len()),
{
    assert((a + b).subrange(lo, hi) =~= b.subrange(lo - a.len(), hi - a.len()));
}

/// Part i of the s1 or s2 encoding decodes to s[i].
proof fn lemma_eta_part_decodes(s: Seq<Poly>, n: int, eta: int, i: int)
    requires
        eta == 2 || eta == 4,
        s_ok(s, n, eta),
        0 <= i < n,
    ensures
        decode_eta_spec(
            eta_bytes(s, eta).subrange(32 * eta_bits(eta) * i, 32 * eta_bits(eta) * (i + 1)),
            eta,
        ) == s[i].coeffs@,
{
    lemma_eta_bytes_parts(s, eta);
    crate::serialize::lemma_eta_bits_p2(eta);
    assert forall|j: int| 0 <= j < N implies 0 <= eta - #[trigger] s[i].coeffs[j] < p2(eta_bits(eta)) by {}
    lemma_offset_packing_roundtrip(s[i], eta, eta_bits(eta));
    assert(decode_eta_spec(bit_pack_spec(offset_vals(s[i], eta), eta_bits(eta)), eta) =~= s[i].coeffs@);
}

/// Part i of the t0 encoding decodes to t0[i].
proof fn lemma_t0_part_decodes(t0: Seq<Poly>, k: int, i: int)
    requires
        t0_ok(t0, k),
        0 <= i < k,
    ensures
        decode_t0_spec(t0_bytes(t0).subrange(416 * i, 416 * (i + 1))) == t0[i].coeffs@,
{
    lemma_t0_bytes_parts(t0);
    crate::serialize::lemma_p2_consts();
    assert forall|j: int| 0 <= j < N implies 0 <= 4096 - #[trigger] t0[i].coeffs[j] < p2(13) by {}
    lemma_offset_packing_roundtrip(t0[i], 4096, 13);
    assert(decode_t0_spec(bit_pack_spec(offset_vals(t0[i], 4096), 13)) =~= t0[i].coeffs@);
}

/// skDecode undoes skEncode: in rho || K || tr || s1 || s2 || t0 (s1, s2 on
/// b = 3 or 4 bits, t0 on 13), the seeds are the first 128 bytes and each
/// part of 32 b or 416 bytes decodes to its polynomial.
pub proof fn lemma_sk_encoding_roundtrip(
    rho: Seq<u8>,
    key: Seq<u8>,
    tr: Seq<u8>,
    s1: Seq<Poly>,
    s2: Seq<Poly>,
    t0: Seq<Poly>,
    l: int,
    k: int,
    eta: int,
)
    requires
        eta == 2 || eta == 4,
        rho.len() == 32,
        key.len() == 32,
        tr.len() == 64,
        s_ok(s1, l, eta),
        s_ok(s2, k, eta),
        t0_ok(t0, k),
    ensures
        ({
            let e = rho + key + tr + eta_bytes(s1, eta) + eta_bytes(s2, eta) + t0_bytes(t0);
            let sb = 32 * eta_bits(eta);
            let t0_start = 128 + sb * (l + k);
            &&& e.len() == 128 + sb * (l + k) + 416 * k
            &&& e.subrange(0, 32) == rho
            &&& e.subrange(32, 64) == key
            &&& e.subrange(64, 128) == tr
            &&& forall|i: int|
                0 <= i < l ==> decode_eta_spec(e.subrange(128 + sb * i, 128 + sb * (i + 1)), eta)
                    == (#[trigger] s1[i]).coeffs@
            &&& forall|i: int|
                0 <= i < k ==> decode_eta_spec(e.subrange(128 + sb * l + sb * i, 128 + sb * l + sb * (i + 1)), eta)
                    == (#[trigger] s2[i]).coeffs@
            &&& forall|i: int|
                0 <= i < k ==> decode_t0_spec(e.subrange(t0_start + 416 * i, t0_start + 416 * (i + 1)))
                    == (#[trigger] t0[i]).coeffs@
        }),
{
    let sb = 32 * eta_bits(eta);
    let h = rho + key + tr;
    let e1 = eta_bytes(s1, eta);
    let e2 = eta_bytes(s2, eta);
    let e3 = t0_bytes(t0);
    let a = h + e1;
    let b = a + e2;
    let e = b + e3;
    assert(e =~= rho + key + tr + e1 + e2 + e3);
    lemma_eta_bytes_parts(s1, eta);
    lemma_eta_bytes_parts(s2, eta);
    lemma_t0_bytes_parts(t0);
    crate::serialize::lemma_eta_bits_p2(eta);
    assert(sb * (l + k) == sb * l + sb * k) by (nonlinear_arith);
    assert(h.len() == 128);
    assert(e.subrange(0, 32) =~= rho);
    assert(e.subrange(32, 64) =~= key);
    assert(e.subrange(64, 128) =~= tr);
    assert forall|i: int| 0 <= i < l implies decode_eta_spec(e.subrange(128 + sb * i, 128 + sb * (i + 1)), eta)
        == (#[trigger] s1[i]).coeffs@ by {
        assert(sb * (i + 1) <= sb * l && 0 <= sb * i && sb * (i + 1) == sb * i + sb) by (nonlinear_arith)
            requires
                0 <= i < l,
                sb > 0,
        ;
        lemma_subrange_left(b, e3, 128 + sb * i, 128 + sb * (i + 1));
        lemma_subrange_left(a, e2, 128 + sb * i, 128 + sb * (i + 1));
        lemma_subrange_right(h, e1, 128 + sb * i, 128 + sb * (i + 1));
        lemma_eta_part_decodes(s1, l, eta, i);
    }
    assert forall|i: int| 0 <= i < k implies decode_eta_spec(
        e.subrange(128 + sb * l + sb * i, 128 + sb * l + sb * (i + 1)),
        eta,
    ) == (#[trigger] s2[i]).coeffs@ by {
        assert(sb * (i + 1) <= sb * k && 0 <= sb * i && sb * (i + 1) == sb * i + sb) by (nonlinear_arith)
            requires
                0 <= i < k,
                sb > 0,
        ;
        lemma_subrange_left(b, e3, 128 + sb * l + sb * i, 128 + sb * l + sb * (i + 1));
        lemma_subrange_right(a, e2, 128 + sb * l + sb * i, 128 + sb * l + sb * (i + 1));
        lemma_eta_part_decodes(s2, k, eta, i);
    }
    assert forall|i: int| 0 <= i < k implies decode_t0_spec(
        e.subrange(128 + sb * (l + k) + 416 * i, 128 + sb * (l + k) + 416 * (i + 1)),
    ) == (#[trigger] t0[i]).coeffs@ by {
        assert(416 * (i + 1) <= 416 * k) by (nonlinear_arith)
            requires
                i < k,
        ;
        lemma_subrange_right(b, e3, 128 + sb * (l + k) + 416 * i, 128 + sb * (l + k) + 416 * (i + 1));
        lemma_t0_part_decodes(t0, k, i);
    }
}

/// Arrays of 32 bytes with the same contents are equal.
proof fn lemma_bytes32_ext(a: [u8; 32], b: [u8; 32])
    requires
        a@ == b@,
    ensures
        a == b,
{
    assert forall|i: int| 0 <= i < 32 implies a[i] == b[i] by {
        assert(a@[i] == b@[i]);
    }
    assert(a =~= b);
}

/// Arrays of 64 bytes with the same contents are equal.
proof fn lemma_bytes64_ext(a: [u8; 64], b: [u8; 64])
    requires
        a@ == b@,
    ensures
        a == b,
{
    assert forall|i: int| 0 <= i < 64 implies a[i] == b[i] by {
        assert(a@[i] == b@[i]);
    }
    assert(a =~= b);
}

/// Sequences of k polynomials whose coefficients agree are equal.
proof fn lemma_polys_ext(a: Seq<Poly>, b: Seq<Poly>, k: int)
    requires
        a.len() == k,
        b.len() == k,
        forall|i: int| 0 <= i < k ==> (#[trigger] a[i]).coeffs@ == b[i].coeffs@,
    ensures
        a == b,
{
    assert forall|i: int| 0 <= i < k implies #[trigger] a[i] == b[i] by {
        lemma_poly_ext(a[i], b[i]);
    }
    assert(a =~= b);
}

/// Decoding the encoding of a public key gives the key back: for a
/// well-formed key whose tr is H(pkEncode) and whose precomputed values are
/// those of `PublicKey::new`, the key that `from_bytes` makes of rho ||
/// pkEncode(t1) equals it field by field, precomputed values included.
pub proof fn lemma_pk_bytes_roundtrip<P: DsaParams>(pk: PublicKey<P>, pk2: PublicKey<P>)
    requires
        pk.wf(),
        pk.caches_ok(),
        pk.tr@ == shake256_spec(pk.rho@ + t1_bytes(pk.t1@), 64),
        pk_decodes(pk2, pk.rho@ + t1_bytes(pk.t1@)),
    ensures
        pk2.rho == pk.rho,
        pk2.t1@ == pk.t1@,
        pk2.tr == pk.tr,
        pk2.cached_a_ntt@.len() == pk.cached_a_ntt@.len(),
        forall|i: int| 0 <= i < pk.cached_a_ntt@.len() ==> (#[trigger] pk2.cached_a_ntt@[i])@ == pk.cached_a_ntt@[i]@,
        pk2.t1_scaled_ntt@ == pk.t1_scaled_ntt@,
{
    lemma_pk_encoding_roundtrip(pk.rho@, pk.t1@, P::K as int);
    lemma_bytes32_ext(pk2.rho, pk.rho);
    lemma_bytes64_ext(pk2.tr, pk.tr);
    lemma_polys_ext(pk2.t1@, pk.t1@, P::K as int);
    lemma_pk_caches_determined(pk2, pk);
}

/// Decoding the encoding of a secret key gives the key back: for a
/// well-formed key whose precomputed values are those of
/// `SecretKey::from_components`, the key that `from_bytes` makes of
/// skEncode equals it field by field, precomputed values included.
pub proof fn lemma_sk_bytes_roundtrip<P: DsaParams>(sk: SecretKey<P>, sk2: SecretKey<P>)
    requires
        sk.wf(),
        sk.caches_ok(),
        sk_decodes(
            sk2,
            sk.rho@ + sk.k@ + sk.tr@ + eta_bytes(sk.s1@, P::ETA as int) + eta_bytes(sk.s2@, P::ETA as int)
                + t0_bytes(sk.t0@),
        ),
    ensures
        sk2.rho == sk.rho,
        sk2.k == sk.k,
        sk2.tr == sk.tr,
        sk2.s1@ == sk.s1@,
        sk2.s2@ == sk.s2@,
        sk2.t0@ == sk.t0@,
        sk2.cached_a_ntt@.len() == sk.cached_a_ntt@.len(),
        forall|i: int| 0 <= i < sk.cached_a_ntt@.len() ==> (#[trigger] sk2.cached_a_ntt@[i])@ == sk.cached_a_ntt@[i]@,
        sk2.s1_hat@ == sk.s1_hat@,
        sk2.s2_hat@ == sk.s2_hat@,
        sk2.t0_hat@ == sk.t0_hat@,
{
    P::lemma_param_set();
    lemma_sk_encoding_roundtrip(
        sk.rho@,
        sk.k@,
        sk.tr@,
        sk.s1@,
        sk.s2@,
        sk.t0@,
        P::L as int,
        P::K as int,
        P::ETA as int,
    );
    lemma_bytes32_ext(sk2.rho, sk.rho);
    lemma_bytes32_ext(sk2.k, sk.k);
    lemma_bytes64_ext(sk2.tr, sk.tr);
    lemma_polys_ext(sk2.s1@, sk.s1@, P::L as int);
    lemma_polys_ext(sk2.s2@, sk.s2@, P::K as int);
    lemma_polys_ext(sk2.t0@, sk.t0@, P::K as int);
    lemma_sk_caches_determined(sk2, sk);
}

} // verus!
