//! Encodings of polynomials (FIPS 204, Section 7.2): t1 on 10 bits, t0 on
//! 13 bits, s1 and s2 on 3 or 4 bits, z on 18 or 20 bits, w1 on 4 or 6
//! bits, each built on SimpleBitPack / BitPack.

use vstd::prelude::*;
use crate::params::N;
use crate::poly::Poly;
use crate::packing::{bit_pack_spec, bits_value, lemma_p2_le, lemma_unpack_pack, p2, pack_bits, unpack_bits};

verus! {

/// The coefficients of p as unsigned values.
pub open spec fn coeff_vals(p: Poly) -> Seq<u32> {
    Seq::new(N as nat, |i: int| p.coeffs[i] as u32)
}

/// The values b - c over the coefficients c of p (BitPack's offset).
pub open spec fn offset_vals(p: Poly, b: int) -> Seq<u32> {
    Seq::new(N as nat, |i: int| (b - p.coeffs[i]) as u32)
}

/// The powers of two that the encodings use.
pub proof fn lemma_p2_consts()
    ensures
        p2(3) == 8,
        p2(4) == 16,
        p2(6) == 64,
        p2(10) == 1024,
        p2(13) == 8192,
        p2(18) == 262144,
        p2(20) == 1048576,
{
    reveal_with_fuel(p2, 21);
}

/// The coefficients of p, each in [0, 2^c), as values.
fn coeffs_to_vals(p: &Poly, c: usize) -> (v: Vec<u32>)
    requires
        1 <= c <= 24,
        forall|i: int| 0 <= i < N ==> 0 <= #[trigger] p.coeffs[i] < p2(c as nat),
    ensures
        v@ == coeff_vals(*p),
        forall|i: int| 0 <= i < N ==> (#[trigger] v@[i] as int) < p2(c as nat),
{
    let mut v: Vec<u32> = Vec::new();
    for i in 0..N
        invariant
            v@.len() == i,
            forall|j: int| 0 <= j < i ==> #[trigger] v@[j] == p.coeffs[j] as u32,
            forall|j: int| 0 <= j < N ==> 0 <= #[trigger] p.coeffs[j] < p2(c as nat),
    {
        v.push(p.coeffs[i] as u32);
    }
    assert(v@ =~= coeff_vals(*p));
    v
}

/// The values b - c over the coefficients c of p, each in [0, 2^c).
fn offset_to_vals(p: &Poly, b: i32, c: usize) -> (v: Vec<u32>)
    requires
        1 <= c <= 24,
        forall|i: int| 0 <= i < N ==> 0 <= b - #[trigger] p.coeffs[i] < p2(c as nat),
    ensures
        v@ == offset_vals(*p, b as int),
        forall|i: int| 0 <= i < N ==> (#[trigger] v@[i] as int) < p2(c as nat),
{
    proof {
        lemma_p2_le(c as nat, 24);
        assert(p2(24) == 16777216) by {
            reveal_with_fuel(p2, 25);
        }
    }
    let mut v: Vec<u32> = Vec::new();
    for i in 0..N
        invariant
            p2(c as nat) <= 16777216,
            v@.len() == i,
            forall|j: int| 0 <= j < i ==> #[trigger] v@[j] == (b - p.coeffs[j]) as u32,
            forall|j: int| 0 <= j < N ==> 0 <= b - #[trigger] p.coeffs[j] < p2(c as nat),
    {
        v.push((b - p.coeffs[i]) as u32);
    }
    assert(v@ =~= offset_vals(*p, b as int));
    v
}

/// SimpleBitPack(t1, 1023): 320 bytes.
pub fn encode_poly_t1(p: &Poly) -> (out: Vec<u8>)
    requires
        forall|i: int| 0 <= i < N ==> 0 <= #[trigger] p.coeffs[i] <= 1023,
    ensures
        out@ == bit_pack_spec(coeff_vals(*p), 10),
        out@.len() == 320,
{
    proof {
        lemma_p2_consts();
    }
    let v = coeffs_to_vals(p, 10);
    pack_bits(&v, 10)
}

/// SimpleBitUnpack of 320 bytes into t1 coefficients in [0, 1023].
pub fn decode_poly_t1(bytes: &[u8]) -> (p: Poly)
    requires
        bytes@.len() == 320,
    ensures
        forall|i: int| 0 <= i < N ==> #[trigger] p.coeffs[i] as int == bits_value(bytes@, i * 10, 10),
        forall|i: int| 0 <= i < N ==> 0 <= #[trigger] p.coeffs[i] <= 1023,
{
    proof {
        lemma_p2_consts();
    }
    let v = unpack_bits(bytes, 10, N);
    let mut p = Poly::new();
    for i in 0..N
        invariant
            v@.len() == N,
            p2(10) == 1024,
            forall|j: int| 0 <= j < N ==> (#[trigger] v@[j]) as int == bits_value(bytes@, j * 10, 10),
            forall|j: int| 0 <= j < N ==> (#[trigger] v@[j]) as int <= p2(10) - 1,
            forall|j: int| 0 <= j < i ==> #[trigger] p.coeffs[j] as int == bits_value(bytes@, j * 10, 10),
            forall|j: int| 0 <= j < i ==> 0 <= #[trigger] p.coeffs[j] <= 1023,
    {
        p.coeffs[i] = v[i] as i32;
    }
    p
}

/// Bits per coefficient of s1 and s2: 3 for eta = 2, 4 for eta = 4.
pub open spec fn eta_bits(eta: int) -> nat {
    if eta == 2 { 3 } else { 4 }
}

/// 2^3 = 8 and 2^4 = 16: the ranges of the 3- and 4-bit fields of s1, s2.
pub proof fn lemma_eta_bits_p2(eta: int)
    requires
        eta == 2 || eta == 4,
    ensures
        p2(eta_bits(eta)) == (if eta == 2 { 8int } else { 16int }),
        eta_bits(eta) == (if eta == 2 { 3nat } else { 4nat }),
{
    lemma_p2_consts();
}

/// BitPack(s, eta, eta): the values eta - c on 3 or 4 bits.
pub fn encode_poly_eta(p: &Poly, eta: i32) -> (out: Vec<u8>)
    requires
        eta == 2 || eta == 4,
        forall|i: int| 0 <= i < N ==> 0 <= eta - #[trigger] p.coeffs[i] < p2(eta_bits(eta as int)),
    ensures
        out@ == bit_pack_spec(offset_vals(*p, eta as int), eta_bits(eta as int)),
        out@.len() == 32 * eta_bits(eta as int),
{
    proof {
        lemma_p2_consts();
    }
    let c: usize = if eta == 2 {
        3
    } else {
        4
    };
    let v = offset_to_vals(p, eta, c);
    pack_bits(&v, c)
}

/// BitUnpack of s1 or s2 coefficients: eta minus each 3- or 4-bit field.
pub fn decode_poly_eta(bytes: &[u8], eta: i32) -> (p: Poly)
    requires
        eta == 2 || eta == 4,
        bytes@.len() == 32 * eta_bits(eta as int),
    ensures
        forall|i: int|
            0 <= i < N ==> #[trigger] p.coeffs[i] as int == eta - bits_value(
                bytes@,
                i * eta_bits(eta as int),
                eta_bits(eta as int),
            ),
        forall|i: int| 0 <= i < N ==> 0 <= eta - #[trigger] p.coeffs[i] < p2(eta_bits(eta as int)),
{
    proof {
        lemma_p2_consts();
    }
    let c: usize = if eta == 2 {
        3
    } else {
        4
    };
    let v = unpack_bits(bytes, c, N);
    let mut p = Poly::new();
    for i in 0..N
        invariant
            eta == 2 || eta == 4,
            c as nat == eta_bits(eta as int),
            p2(3) == 8,
            p2(4) == 16,
            v@.len() == N,
            forall|j: int| 0 <= j < N ==> (#[trigger] v@[j]) as int == bits_value(bytes@, j * c, c as nat),
            forall|j: int| 0 <= j < N ==> (#[trigger] v@[j]) as int <= p2(c as nat) - 1,
            forall|j: int| 0 <= j < i ==> #[trigger] p.coeffs[j] as int == eta - bits_value(bytes@, j * c, c as nat),
            forall|j: int| 0 <= j < i ==> 0 <= eta - #[trigger] p.coeffs[j] < p2(c as nat),
    {
        p.coeffs[i] = eta - (v[i] as i32);
    }
    p
}

/// BitPack(t0, 2^12 - 1, 2^12): the values 2^12 - c on 13 bits (416
/// bytes).
pub fn encode_poly_t0(p: &Poly) -> (out: Vec<u8>)
    requires
        forall|i: int| 0 <= i < N ==> -4096 < #[trigger] p.coeffs[i] <= 4096,
    ensures
        out@ == bit_pack_spec(offset_vals(*p, 4096), 13),
        out@.len() == 416,
{
    proof {
        lemma_p2_consts();
    }
    let v = offset_to_vals(p, 4096, 13);
    pack_bits(&v, 13)
}

/// BitUnpack of t0 coefficients: 2^12 minus each 13-bit field.
pub fn decode_poly_t0(bytes: &[u8]) -> (p: Poly)
    requires
        bytes@.len() == 416,
    ensures
        forall|i: int| 0 <= i < N ==> #[trigger] p.coeffs[i] as int == 4096 - bits_value(bytes@, i * 13, 13),
        forall|i: int| 0 <= i < N ==> -4096 < #[trigger] p.coeffs[i] <= 4096,
{
    proof {
        lemma_p2_consts();
    }
    let v = unpack_bits(bytes, 13, N);
    let mut p = Poly::new();
    for i in 0..N
        invariant
            p2(13) == 8192,
            v@.len() == N,
            forall|j: int| 0 <= j < N ==> (#[trigger] v@[j]) as int == bits_value(bytes@, j * 13, 13),
            forall|j: int| 0 <= j < N ==> (#[trigger] v@[j]) as int <= p2(13) - 1,
            forall|j: int| 0 <= j < i ==> #[trigger] p.coeffs[j] as int == 4096 - bits_value(bytes@, j * 13, 13),
            forall|j: int| 0 <= j < i ==> -4096 < #[trigger] p.coeffs[j] <= 4096,
    {
        p.coeffs[i] = 4096 - (v[i] as i32);
    }
    p
}

/// Bits per coefficient of z: 18 for gamma1 = 2^17, 20 for 2^19.
pub open spec fn z_bits(gamma1: int) -> nat {
    if gamma1 == 131072 { 18 } else { 20 }
}

/// BitPack(z, gamma1 - 1, gamma1): the values gamma1 - c on 18 or 20 bits.
pub fn encode_poly_z(p: &Poly, gamma1: i32) -> (out: Vec<u8>)
    requires
        gamma1 == 131072 || gamma1 == 524288,
        forall|i: int| 0 <= i < N ==> -gamma1 < #[trigger] p.coeffs[i] <= gamma1,
    ensures
        out@ == bit_pack_spec(offset_vals(*p, gamma1 as int), z_bits(gamma1 as int)),
        out@.len() == 32 * z_bits(gamma1 as int),
{
    proof {
        lemma_p2_consts();
    }
    let c: usize = if gamma1 == 131072 {
        18
    } else {
        20
    };
    let v = offset_to_vals(p, gamma1, c);
    pack_bits(&v, c)
}

/// BitUnpack of z coefficients: gamma1 minus each 18- or 20-bit field.
pub fn decode_poly_z(bytes: &[u8], gamma1: i32) -> (p: Poly)
    requires
        gamma1 == 131072 || gamma1 == 524288,
        bytes@.len() == 32 * z_bits(gamma1 as int),
    ensures
        forall|i: int|
            0 <= i < N ==> #[trigger] p.coeffs[i] as int == gamma1 - bits_value(
                bytes@,
                i * z_bits(gamma1 as int),
                z_bits(gamma1 as int),
            ),
        forall|i: int| 0 <= i < N ==> -gamma1 < #[trigger] p.coeffs[i] <= gamma1,
{
    proof {
        lemma_p2_consts();
    }
    let c: usize = if gamma1 == 131072 {
        18
    } else {
        20
    };
    let v = unpack_bits(bytes, c, N);
    let mut p = Poly::new();
    for i in 0..N
        invariant
            gamma1 == 131072 || gamma1 == 524288,
            c as nat == z_bits(gamma1 as int),
            p2(c as nat) == 2 * gamma1,
            v@.len() == N,
            forall|j: int| 0 <= j < N ==> (#[trigger] v@[j]) as int == bits_value(bytes@, j * c, c as nat),
            forall|j: int| 0 <= j < N ==> (#[trigger] v@[j]) as int <= p2(c as nat) - 1,
            forall|j: int| 0 <= j < i ==> #[trigger] p.coeffs[j] as int == gamma1 - bits_value(bytes@, j * c, c as nat),
            forall|j: int| 0 <= j < i ==> -gamma1 < #[trigger] p.coeffs[j] <= gamma1,
    {
        p.coeffs[i] = gamma1 - (v[i] as i32);
    }
    p
}

/// SimpleBitPack(w1, 2^c - 1) for c = 4 or 6: 32 * c bytes.
pub fn encode_poly_w1(p: &Poly, c: usize) -> (out: Vec<u8>)
    requires
        c == 4 || c == 6,
        forall|i: int| 0 <= i < N ==> 0 <= #[trigger] p.coeffs[i] < p2(c as nat),
    ensures
        out@ == bit_pack_spec(coeff_vals(*p), c as nat),
        out@.len() == 32 * c,
{
    let v = coeffs_to_vals(p, c);
    pack_bits(&v, c)
}

/// SimpleBitUnpack undoes SimpleBitPack: field i of the packing of the
/// coefficients of p, each in [0, 2^bits), is coefficient i (the t1 and
/// w1 encodings).
pub proof fn lemma_coeff_packing_roundtrip(p: Poly, bits: nat)
    requires
        bits > 0,
        forall|i: int| 0 <= i < N ==> 0 <= #[trigger] p.coeffs[i] < p2(bits),
    ensures
        forall|i: int|
            0 <= i < N ==> bits_value(bit_pack_spec(coeff_vals(p), bits), i * bits, bits) == #[trigger] p.coeffs[i],
{
    assert forall|i: int| 0 <= i < N implies bits_value(bit_pack_spec(coeff_vals(p), bits), i * bits, bits)
        == #[trigger] p.coeffs[i] by {
        assert((256 * bits) % 8 == 0) by (nonlinear_arith);
        assert(0 <= p.coeffs[i] < p2(bits));
        lemma_unpack_pack(coeff_vals(p), bits, i);
    }
}

/// BitUnpack undoes BitPack: b minus field i of the packing of the values
/// b - c, each in [0, 2^bits), is coefficient i (the s1/s2, t0 and z
/// encodings).
pub proof fn lemma_offset_packing_roundtrip(p: Poly, b: int, bits: nat)
    requires
        0 < bits <= 24,
        forall|i: int| 0 <= i < N ==> 0 <= b - #[trigger] p.coeffs[i] < p2(bits),
    ensures
        forall|i: int|
            0 <= i < N ==> b - bits_value(bit_pack_spec(offset_vals(p, b), bits), i * bits, bits)
                == #[trigger] p.coeffs[i],
{
    assert forall|i: int| 0 <= i < N implies b - bits_value(
        bit_pack_spec(offset_vals(p, b), bits),
        i * bits,
        bits,
    ) == #[trigger] p.coeffs[i] by {
        assert((256 * bits) % 8 == 0) by (nonlinear_arith);
        assert(0 <= b - p.coeffs[i] < p2(bits));
        lemma_p2_le(bits, 24);
        assert(p2(24) == 16777216) by {
            reveal_with_fuel(p2, 25);
        }
        lemma_unpack_pack(offset_vals(p, b), bits, i);
    }
}

} // verus!
