//! The symmetric primitives of ML-DSA: SHAKE128 and SHAKE256 (FIPS 202),
//! and the hash H = SHAKE256 at the output lengths that ML-DSA uses.

use vstd::prelude::*;
use sha3::digest::{ExtendableOutput, Update, XofReader};

verus! {

/// The first `outlen` bytes of SHAKE128(input) (FIPS 202).
pub uninterp spec fn shake128_spec(input: Seq<u8>, outlen: nat) -> Seq<u8>;

/// The first `outlen` bytes of SHAKE256(input) (FIPS 202).
pub uninterp spec fn shake256_spec(input: Seq<u8>, outlen: nat) -> Seq<u8>;

/// Calls `sha3::Shake128`: absorbs `input`, then reads `outlen` bytes from
/// the XOF reader. Claimed: the bytes are those named by `shake128_spec`
/// for this input and length, and there are `outlen` of them.
#[verifier::external_body]
pub(crate) fn shake128(input: &[u8], outlen: usize) -> (out: Vec<u8>)
    ensures
        out@ == shake128_spec(input@, outlen as nat),
        out@.len() == outlen,
{
    let mut hasher = sha3::Shake128::default();
    hasher.update(input);
    let mut reader = hasher.finalize_xof();
    let mut out = vec![0u8; outlen];
    reader.read(&mut out);
    out
}

/// Calls `sha3::Shake256`: absorbs `input`, then reads `outlen` bytes from
/// the XOF reader. Claimed: the bytes are those named by `shake256_spec`
/// for this input and length, and there are `outlen` of them.
#[verifier::external_body]
pub(crate) fn shake256(input: &[u8], outlen: usize) -> (out: Vec<u8>)
    ensures
        out@ == shake256_spec(input@, outlen as nat),
        out@.len() == outlen,
{
    let mut hasher = sha3::Shake256::default();
    hasher.update(input);
    let mut reader = hasher.finalize_xof();
    let mut out = vec![0u8; outlen];
    reader.read(&mut out);
    out
}

/// Copies 64 bytes of a vector into an array.
pub fn to_array64(v: &Vec<u8>) -> (a: [u8; 64])
    requires
        v@.len() == 64,
    ensures
        a@ == v@,
{
    let mut a = [0u8; 64];
    for i in 0..64usize
        invariant
            v@.len() == 64,
            forall|j: int| 0 <= j < i ==> a@[j] == v@[j],
    {
        a[i] = v[i];
    }
    assert(a@ =~= v@);
    a
}

/// H(input, 64) = SHAKE256(input) truncated to 64 bytes.
pub fn h(input: &[u8]) -> (out: [u8; 64])
    ensures
        out@ == shake256_spec(input@, 64),
{
    let v = shake256(input, 64);
    to_array64(&v)
}

/// H(input, 128) = SHAKE256(input) truncated to 128 bytes.
pub fn h128(input: &[u8]) -> (out: Vec<u8>)
    ensures
        out@ == shake256_spec(input@, 128),
        out@.len() == 128,
{
    shake256(input, 128)
}

/// H(input, len) = SHAKE256(input) truncated to `len` bytes.
pub fn h_var(input: &[u8], len: usize) -> (out: Vec<u8>)
    ensures
        out@ == shake256_spec(input@, len as nat),
        out@.len() == len,
{
    shake256(input, len)
}

/// Appends the bytes of `s` to `v`.
pub fn append_bytes(v: &mut Vec<u8>, s: &[u8])
    ensures
        final(v)@ == old(v)@ + s@,
{
    let n = s.len();
    for i in 0..n
        invariant
            n == s@.len(),
            v@ == old(v)@ + s@.subrange(0, i as int),
    {
        v.push(s[i]);
        assert(s@.subrange(0, i + 1) =~= s@.subrange(0, i as int).push(s@[i as int]));
    }
    assert(s@.subrange(0, n as int) =~= s@);
}

} // verus!
