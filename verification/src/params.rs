//! Parameter sets of ML-DSA (FIPS 204, Table 1).

use vstd::prelude::*;

verus! {

/// The prime modulus q = 2^23 - 2^13 + 1.
pub const Q: i32 = 8380417;

/// Number of coefficients of a polynomial.
pub const N: usize = 256;

/// Number of bits dropped from t by Power2Round.
pub const D: u32 = 13;

/// The three parameter sets of FIPS 204, as tuples
/// (k, l, eta, tau, beta, gamma1, gamma2, omega, c~ bytes).
pub open spec fn is_param_set(
    k: usize,
    l: usize,
    eta: i32,
    tau: usize,
    beta: i32,
    gamma1: i32,
    gamma2: i32,
    omega: usize,
    ctilde: usize,
) -> bool {
    ||| (k == 4 && l == 4 && eta == 2 && tau == 39 && beta == 78 && gamma1 == 131072
        && gamma2 == 95232 && omega == 80 && ctilde == 32)
    ||| (k == 6 && l == 5 && eta == 4 && tau == 49 && beta == 196 && gamma1 == 524288
        && gamma2 == 261888 && omega == 55 && ctilde == 48)
    ||| (k == 8 && l == 7 && eta == 2 && tau == 60 && beta == 120 && gamma1 == 524288
        && gamma2 == 261888 && omega == 75 && ctilde == 64)
}

/// The two values of gamma2 that ML-DSA uses: (q-1)/88 and (q-1)/32.
pub open spec fn valid_gamma2(gamma2: int) -> bool {
    gamma2 == 95232 || gamma2 == 261888
}

/// A parameter set of ML-DSA.
pub trait DsaParams {
    /// Rows of the matrix A.
    const K: usize;
    /// Columns of the matrix A.
    const L: usize;
    /// Bound on the coefficients of the secret vectors.
    const ETA: i32;
    /// Number of nonzero coefficients of the challenge.
    const TAU: usize;
    /// tau * eta.
    const BETA: i32;
    /// Range of the masking vector y.
    const GAMMA1: i32;
    /// Low-order rounding range.
    const GAMMA2: i32;
    /// Maximum number of ones in the hint.
    const OMEGA: usize;
    /// Bits dropped from t.
    const D: u32;
    /// Length of the commitment hash c~ in bytes.
    const CTILDEBYTES: usize;
    /// Bits per coefficient of w1 (6 when gamma2 = (q-1)/88, 4 otherwise).
    const W1_BITS: usize;
    /// Length of the encoding of w1: k * 32 * W1_BITS.
    const W1_ENCODED_SIZE: usize;

    /// The constants of an implementation are those of one of the three
    /// parameter sets.
    proof fn lemma_param_set()
        ensures
            is_param_set(
                Self::K,
                Self::L,
                Self::ETA,
                Self::TAU,
                Self::BETA,
                Self::GAMMA1,
                Self::GAMMA2,
                Self::OMEGA,
                Self::CTILDEBYTES,
            ),
            Self::D == 13,
            Self::W1_BITS == (if Self::GAMMA2 == 95232 { 6usize } else { 4usize }),
            Self::W1_ENCODED_SIZE == Self::K * 32 * Self::W1_BITS,
    ;
}

/// ML-DSA-44 (NIST security category 2).
#[derive(Clone, Copy, Debug, PartialEq, Eq)]
pub struct MlDsa44;

/// ML-DSA-65 (NIST security category 3).
#[derive(Clone, Copy, Debug, PartialEq, Eq)]
pub struct MlDsa65;

/// ML-DSA-87 (NIST security category 5).
#[derive(Clone, Copy, Debug, PartialEq, Eq)]
pub struct MlDsa87;

impl DsaParams for MlDsa44 {
    const K: usize = 4;
    const L: usize = 4;
    const ETA: i32 = 2;
    const TAU: usize = 39;
    const BETA: i32 = 78;
    const GAMMA1: i32 = 131072;
    const GAMMA2: i32 = 95232;
    const OMEGA: usize = 80;
    const D: u32 = 13;
    const CTILDEBYTES: usize = 32;
    const W1_BITS: usize = 6;
    const W1_ENCODED_SIZE: usize = 768;

    proof fn lemma_param_set() {
    }
}

impl DsaParams for MlDsa65 {
    const K: usize = 6;
    const L: usize = 5;
    const ETA: i32 = 4;
    const TAU: usize = 49;
    const BETA: i32 = 196;
    const GAMMA1: i32 = 524288;
    const GAMMA2: i32 = 261888;
    const OMEGA: usize = 55;
    const D: u32 = 13;
    const CTILDEBYTES: usize = 48;
    const W1_BITS: usize = 4;
    const W1_ENCODED_SIZE: usize = 768;

    proof fn lemma_param_set() {
    }
}

impl DsaParams for MlDsa87 {
    const K: usize = 8;
    const L: usize = 7;
    const ETA: i32 = 2;
    const TAU: usize = 60;
    const BETA: i32 = 120;
    const GAMMA1: i32 = 524288;
    const GAMMA2: i32 = 261888;
    const OMEGA: usize = 75;
    const D: u32 = 13;
    const CTILDEBYTES: usize = 64;
    const W1_BITS: usize = 4;
    const W1_ENCODED_SIZE: usize = 1024;

    proof fn lemma_param_set() {
    }
}

} // verus!
