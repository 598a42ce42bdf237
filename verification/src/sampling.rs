//! Sampling from SHAKE output (FIPS 204, Section 7.3): rejection sampling
//! of uniform coefficients (RejNTTPoly), of small coefficients
//! (RejBoundedPoly), the expansions ExpandA and ExpandS, and SampleInBall.

use vstd::prelude::*;
use crate::params::{N, Q};
use crate::poly::Poly;
use crate::symmetric::{shake128, shake128_spec, shake256, shake256_spec, append_bytes};
use crate::packing::{bits_value, unpack_bits, p2};
use crate::hints::count_nonzero;

verus! {

/// The t-th candidate of RejNTTPoly: three bytes read as a 23-bit little
/// endian number (the top bit of the third byte dropped).
pub open spec fn uniform_candidate(b: Seq<u8>, t: int) -> int {
    b[3 * t] as int + 256 * (b[3 * t + 1] as int) + 65536 * ((b[3 * t + 2] as int) % 128)
}

/// The coefficients that RejNTTPoly accepts among the first t candidates
/// of b: those below q, in order.
pub open spec fn rej_uniform_prefix(b: Seq<u8>, t: nat) -> Seq<i32>
    decreases t,
{
    if t == 0 {
        Seq::empty()
    } else {
        let prev = rej_uniform_prefix(b, (t - 1) as nat);
        let c = uniform_candidate(b, t - 1);
        if c < Q as int {
            prev.push(c as i32)
        } else {
            prev
        }
    }
}

proof fn lemma_rej_uniform_prefix_len(b: Seq<u8>, t: nat)
    ensures
        rej_uniform_prefix(b, t).len() <= t,
        forall|i: int|
            0 <= i < rej_uniform_prefix(b, t).len() ==> 0 <= #[trigger] rej_uniform_prefix(
                b,
                t,
            )[i] < Q,
    decreases t,
{
    if t > 0 {
        lemma_rej_uniform_prefix_len(b, (t - 1) as nat);
    }
}

/// The accepted coefficients only grow: those among the first t candidates
/// begin those among the first t2 >= t.
proof fn lemma_rej_uniform_prefix_grows(b: Seq<u8>, t: nat, t2: nat)
    requires
        t <= t2,
    ensures
        rej_uniform_prefix(b, t).len() <= rej_uniform_prefix(b, t2).len(),
        rej_uniform_prefix(b, t2).take(rej_uniform_prefix(b, t).len() as int) == rej_uniform_prefix(b, t),
    decreases t2,
{
    if t2 > t {
        lemma_rej_uniform_prefix_grows(b, t, (t2 - 1) as nat);
        let p1 = rej_uniform_prefix(b, (t2 - 1) as nat);
        let n = rej_uniform_prefix(b, t).len() as int;
        assert(rej_uniform_prefix(b, t2).take(n) =~= p1.take(n));
    } else {
        assert(rej_uniform_prefix(b, t2).take(rej_uniform_prefix(b, t).len() as int) =~= rej_uniform_prefix(b, t));
    }
}

/// RejNTTPoly on the bytes b: the first 256 candidates below q, or None
/// when b holds fewer.
pub open spec fn rej_uniform_spec(b: Seq<u8>) -> Option<Seq<i32>> {
    let all = rej_uniform_prefix(b, (b.len() / 3) as nat);
    if all.len() >= N {
        Some(all.take(N as int))
    } else {
        None
    }
}

/// RejNTTPoly on the bytes b: the first 256 candidates below q, or None
/// when b holds fewer.
pub fn rej_uniform(b: &[u8]) -> (r: Option<Poly>)
    ensures
        match r {
            Some(p) => rej_uniform_spec(b@) == Some(p.coeffs@),
            None => rej_uniform_spec(b@) is None,
        },
        r matches Some(p) ==> poly_in_range(p),
{
    let mut p = Poly::new();
    let mut count: usize = 0;
    let mut t: usize = 0;
    let total = b.len() / 3;
    while t < total
        invariant
            total == b@.len() / 3,
            t <= total,
            count < N,
            rej_uniform_prefix(b@, t as nat).len() == count,
            forall|i: int| 0 <= i < count ==> #[trigger] p.coeffs@[i] == rej_uniform_prefix(b@, t as nat)[i],
        decreases total - t,
    {
        proof {
            vstd::arithmetic::div_mod::lemma_fundamental_div_mod(b@.len() as int, 3);
            assert(3 * t + 3 <= b@.len());
            assert(b@.len() == b.len());
        }
        let base: usize = t * 3;
        let c: i32 = (b[base] as i32) + 256 * (b[base + 1] as i32) + 65536 * ((b[base + 2] as i32)
            % 128);
        t = t + 1;
        if c < Q {
            p.coeffs[count] = c;
            count = count + 1;
            if count == N {
                proof {
                    assert(p.coeffs@ =~= rej_uniform_prefix(b@, t as nat));
                    lemma_rej_uniform_prefix_grows(b@, t as nat, total as nat);
                    lemma_rej_uniform_prefix_len(b@, t as nat);
                    assert forall|x: int| 0 <= x < N implies 0 <= #[trigger] p.coeffs[x] < Q by {
                        assert(p.coeffs@[x] == rej_uniform_prefix(b@, t as nat)[x]);
                    }
                }
                return Some(p);
            }
        }
    }
    None
}

/// Each candidate of RejNTTPoly is the 23-bit little-endian number of its
/// three bytes: b0 | b1 << 8 | (b2 & 0x7f) << 16, so it is below 2^23.
pub proof fn lemma_uniform_candidate_is_23_bits(b: Seq<u8>, t: int)
    requires
        0 <= t,
        3 * t + 2 < b.len(),
    ensures
        0 <= uniform_candidate(b, t) < 0x800000,
        uniform_candidate(b, t) == ((b[3 * t] as u32) | ((b[3 * t + 1] as u32) << 8u32) | (((b[3 * t + 2]
            & 0x7fu8) as u32) << 16u32)) as int,
{
    let b0 = b[3 * t];
    let b1 = b[3 * t + 1];
    let b2 = b[3 * t + 2];
    assert(((b0 as u32) | ((b1 as u32) << 8u32) | (((b2 & 0x7fu8) as u32) << 16u32)) == (b0 as u32) + 256 * (
    b1 as u32) + 65536 * ((b2 % 128) as u32)) by (bit_vector);
}

proof fn lemma_low7(x: u8)
    ensures
        (x as int) % 128 == (x & 0x7fu8) as int,
{
    assert((x % 128) == (x & 0x7fu8)) by (bit_vector);
}

proof fn lemma_rej_uniform_prefix_same(b1: Seq<u8>, b2: Seq<u8>, t: nat)
    requires
        b1.len() == b2.len(),
        3 * t <= b1.len(),
        forall|i: int| 0 <= i < b1.len() && i % 3 != 2 ==> #[trigger] b1[i] == b2[i],
        forall|i: int| 0 <= i < b1.len() && i % 3 == 2 ==> #[trigger] b1[i] & 0x7fu8 == b2[i] & 0x7fu8,
    ensures
        rej_uniform_prefix(b1, t) == rej_uniform_prefix(b2, t),
    decreases t,
{
    if t > 0 {
        lemma_rej_uniform_prefix_same(b1, b2, (t - 1) as nat);
        let u = t - 1;
        assert((3 * u) % 3 == 0 && (3 * u + 1) % 3 == 1 && (3 * u + 2) % 3 == 2);
        assert(b1[3 * u] == b2[3 * u]);
        assert(b1[3 * u + 1] == b2[3 * u + 1]);
        assert(b1[3 * u + 2] & 0x7fu8 == b2[3 * u + 2] & 0x7fu8);
        lemma_low7(b1[3 * u + 2]);
        lemma_low7(b2[3 * u + 2]);
        assert(uniform_candidate(b1, u) == uniform_candidate(b2, u));
    }
}

/// RejNTTPoly ignores the top bit of every third byte: two byte strings of
/// the same length that agree everywhere except in bit 7 of the bytes 2, 5,
/// 8, ... give the same polynomial (or both run out).
pub proof fn lemma_rej_uniform_ignores_top_bits(b1: Seq<u8>, b2: Seq<u8>)
    requires
        b1.len() == b2.len(),
        forall|i: int| 0 <= i < b1.len() && i % 3 != 2 ==> #[trigger] b1[i] == b2[i],
        forall|i: int| 0 <= i < b1.len() && i % 3 == 2 ==> #[trigger] b1[i] & 0x7fu8 == b2[i] & 0x7fu8,
    ensures
        rej_uniform_spec(b1) == rej_uniform_spec(b2),
{
    vstd::arithmetic::div_mod::lemma_fundamental_div_mod(b1.len() as int, 3);
    lemma_rej_uniform_prefix_same(b1, b2, (b1.len() / 3) as nat);
}

/// The first coefficient of RejNTTPoly(b) is the 23-bit number of the
/// first three bytes, b0 | b1 << 8 | (b2 & 0x7f) << 16, when that is below
/// q.
pub proof fn lemma_rej_uniform_first_coefficient(b: Seq<u8>)
    requires
        b.len() >= 3,
        rej_uniform_spec(b) is Some,
        (((b[0] as u32) | ((b[1] as u32) << 8u32) | (((b[2] & 0x7fu8) as u32) << 16u32)) as int) < Q,
    ensures
        rej_uniform_spec(b)->0[0] == ((b[0] as u32) | ((b[1] as u32) << 8u32) | (((b[2] & 0x7fu8) as u32)
            << 16u32)) as int,
{
    lemma_uniform_candidate_is_23_bits(b, 0);
    let total = (b.len() / 3) as nat;
    assert(total >= 1);
    assert(rej_uniform_prefix(b, 0) =~= Seq::<i32>::empty());
    assert(rej_uniform_prefix(b, 1) =~= seq![uniform_candidate(b, 0) as i32]);
    lemma_rej_uniform_prefix_grows(b, 1, total);
    let all = rej_uniform_prefix(b, total);
    assert(all.take(1)[0] == all[0]);
}

/// The polynomial coefficients of a matrix are below q and nonnegative.
pub open spec fn poly_in_range(p: Poly) -> bool {
    forall|i: int| 0 <= i < N ==> 0 <= #[trigger] p.coeffs[i] < Q
}

/// RejNTTPoly(seed) as sampled here: from the first 840 bytes of
/// SHAKE128(seed), else the first 3360, else the first 13440; None when
/// none of them holds 256 accepted candidates.
pub open spec fn rej_ntt_spec(seed: Seq<u8>) -> Option<Seq<i32>> {
    match rej_uniform_spec(shake128_spec(seed, 840)) {
        Some(p) => Some(p),
        None => match rej_uniform_spec(shake128_spec(seed, 3360)) {
            Some(p) => Some(p),
            None => rej_uniform_spec(shake128_spec(seed, 13440)),
        },
    }
}

/// RejNTTPoly(seed): samples from SHAKE128(seed), reading 840 bytes, then
/// 3360, then 13440 if fewer did not hold 256 accepted candidates; None when
/// none of them did.
pub fn rej_ntt_poly(seed: &[u8]) -> (r: Option<Poly>)
    ensures
        match r {
            Some(p) => rej_ntt_spec(seed@) == Some(p.coeffs@),
            None => rej_ntt_spec(seed@) is None,
        },
        r matches Some(p) ==> poly_in_range(p),
{
    for attempt in 0..3usize
        invariant
            attempt >= 1 ==> rej_uniform_spec(shake128_spec(seed@, 840)) is None,
            attempt >= 2 ==> rej_uniform_spec(shake128_spec(seed@, 3360)) is None,
            attempt >= 3 ==> rej_uniform_spec(shake128_spec(seed@, 13440)) is None,
    {
        let len: usize = if attempt == 0 {
            840
        } else if attempt == 1 {
            3360
        } else {
            13440
        };
        let bytes = shake128(seed, len);
        match rej_uniform(&bytes) {
            Some(p) => {
                return Some(p);
            },
            None => {},
        }
    }
    None
}

/// The seed of entry (i, j) of A: rho || j || i.
pub open spec fn a_seed(rho: Seq<u8>, i: int, j: int) -> Seq<u8> {
    rho + seq![j as u8, i as u8]
}

/// Entry (i, j) of the matrix A of ExpandA: RejNTTPoly(rho || j || i).
pub open spec fn expand_a_entry(rho: Seq<u8>, i: int, j: int, p: Poly) -> bool {
    rej_ntt_spec(a_seed(rho, i, j)) == Some(p.coeffs@)
}

/// ExpandA (FIPS 204, Algorithm 32): the k x l matrix A in the NTT domain;
/// None exactly when the sampling of some entry ran out of bytes.
pub fn expand_matrix_a(rho: &[u8; 32], k: usize, l: usize) -> (r: Option<Vec<Vec<Poly>>>)
    requires
        k <= 255,
        l <= 255,
    ensures
        r matches Some(m) ==> {
            &&& m@.len() == k
            &&& forall|i: int| 0 <= i < k ==> (#[trigger] m@[i])@.len() == l
            &&& forall|i: int, j: int|
                0 <= i < k && 0 <= j < l ==> expand_a_entry(rho@, i, j, #[trigger] m@[i]@[j])
            &&& forall|i: int, j: int|
                0 <= i < k && 0 <= j < l ==> poly_in_range(#[trigger] m@[i]@[j])
        },
        r is None <==> exists|i: int, j: int|
            0 <= i < k && 0 <= j < l && #[trigger] rej_ntt_spec(a_seed(rho@, i, j)) is None,
{
    let mut m: Vec<Vec<Poly>> = Vec::new();
    for i in 0..k
        invariant
            k <= 255,
            l <= 255,
            m@.len() == i,
            forall|a: int| 0 <= a < i ==> (#[trigger] m@[a])@.len() == l,
            forall|a: int, c: int|
                0 <= a < i && 0 <= c < l ==> expand_a_entry(rho@, a, c, #[trigger] m@[a]@[c]),
            forall|a: int, c: int| 0 <= a < i && 0 <= c < l ==> poly_in_range(#[trigger] m@[a]@[c]),
    {
        let mut row: Vec<Poly> = Vec::new();
        for j in 0..l
            invariant
                k <= 255,
                l <= 255,
                i < k,
                row@.len() == j,
                forall|c: int| 0 <= c < j ==> expand_a_entry(rho@, i as int, c, #[trigger] row@[c]),
                forall|c: int| 0 <= c < j ==> poly_in_range(#[trigger] row@[c]),
        {
            let mut seed: Vec<u8> = Vec::new();
            append_bytes(&mut seed, rho);
            seed.push(j as u8);
            seed.push(i as u8);
            assert(seed@ =~= a_seed(rho@, i as int, j as int));
            match rej_ntt_poly(&seed) {
                Some(p) => {
                    row.push(p);
                },
                None => {
                    assert(rej_ntt_spec(a_seed(rho@, i as int, j as int)) is None);
                    return None;
                },
            }
        }
        m.push(row);
    }
    proof {
        assert forall|i: int, j: int| 0 <= i < k && 0 <= j < l implies !(#[trigger] rej_ntt_spec(
            a_seed(rho@, i, j),
        ) is None) by {
            assert(expand_a_entry(rho@, i, j, m@[i]@[j]));
        }
    }
    Some(m)
}

/// Half-byte h of b: the low nibble of byte h / 2 for even h, the high
/// nibble for odd h.
pub open spec fn half_byte(b: Seq<u8>, h: int) -> int {
    if h % 2 == 0 {
        (b[h / 2] as int) % 16
    } else {
        (b[h / 2] as int) / 16
    }
}

/// CoeffFromHalfByte (FIPS 204, Algorithm 15): for eta = 2, z < 15 gives
/// 2 - (z mod 5); for eta = 4, z < 9 gives 4 - z; other z are rejected.
pub open spec fn eta_coeff(z: int, eta: int) -> Option<int> {
    if eta == 2 {
        if z < 15 { Some(2 - z % 5) } else { None }
    } else {
        if z < 9 { Some(4 - z) } else { None }
    }
}

/// The coefficients that RejBoundedPoly accepts among the first t half
/// bytes of b.
pub open spec fn rej_eta_prefix(b: Seq<u8>, eta: int, t: nat) -> Seq<i32>
    decreases t,
{
    if t == 0 {
        Seq::empty()
    } else {
        let prev = rej_eta_prefix(b, eta, (t - 1) as nat);
        match eta_coeff(half_byte(b, t - 1), eta) {
            Some(c) => prev.push(c as i32),
            None => prev,
        }
    }
}

proof fn lemma_rej_eta_prefix(b: Seq<u8>, eta: int, t: nat)
    requires
        eta == 2 || eta == 4,
    ensures
        rej_eta_prefix(b, eta, t).len() <= t,
        forall|i: int|
            0 <= i < rej_eta_prefix(b, eta, t).len() ==> -eta <= #[trigger] rej_eta_prefix(
                b,
                eta,
                t,
            )[i] <= eta,
    decreases t,
{
    if t > 0 {
        lemma_rej_eta_prefix(b, eta, (t - 1) as nat);
    }
}

/// The accepted coefficients only grow: those among the first t half
/// bytes begin those among the first t2 >= t.
proof fn lemma_rej_eta_prefix_grows(b: Seq<u8>, eta: int, t: nat, t2: nat)
    requires
        t <= t2,
    ensures
        rej_eta_prefix(b, eta, t).len() <= rej_eta_prefix(b, eta, t2).len(),
        rej_eta_prefix(b, eta, t2).take(rej_eta_prefix(b, eta, t).len() as int) == rej_eta_prefix(b, eta, t),
    decreases t2,
{
    if t2 > t {
        lemma_rej_eta_prefix_grows(b, eta, t, (t2 - 1) as nat);
        let p1 = rej_eta_prefix(b, eta, (t2 - 1) as nat);
        let n = rej_eta_prefix(b, eta, t).len() as int;
        assert(rej_eta_prefix(b, eta, t2).take(n) =~= p1.take(n));
    } else {
        assert(rej_eta_prefix(b, eta, t2).take(rej_eta_prefix(b, eta, t).len() as int) =~= rej_eta_prefix(
            b,
            eta,
            t,
        ));
    }
}

/// RejBoundedPoly on the bytes b: the first 256 accepted half bytes, or
/// None when b holds fewer.
pub open spec fn rej_eta_spec(b: Seq<u8>, eta: int) -> Option<Seq<i32>> {
    let all = rej_eta_prefix(b, eta, 2 * b.len());
    if all.len() >= N {
        Some(all.take(N as int))
    } else {
        None
    }
}

/// RejBoundedPoly reads each byte low half first: half byte 2m is
/// b[m] & 0x0f and half byte 2m + 1 is b[m] >> 4.
pub proof fn lemma_half_bytes_low_first(b: Seq<u8>, m: int)
    requires
        0 <= m < b.len(),
    ensures
        half_byte(b, 2 * m) == (b[m] & 0x0fu8) as int,
        half_byte(b, 2 * m + 1) == (b[m] >> 4u8) as int,
{
    let x = b[m];
    assert(x % 16 == x & 0x0fu8) by (bit_vector);
    assert(x / 16 == x >> 4u8) by (bit_vector);
    assert((2 * m) / 2 == m && (2 * m + 1) / 2 == m);
}

/// The value CoeffFromHalfByte gives to an accepted half byte z:
/// 4 - z for eta = 4, 2 - (z mod 5) for eta = 2.
pub open spec fn coeff_of_half(z: int, eta: int) -> int {
    if eta == 4 {
        4 - z
    } else {
        2 - z % 5
    }
}

/// Whether CoeffFromHalfByte accepts z: z < 9 for eta = 4, z < 15 for eta
/// = 2.
pub open spec fn half_accepted(z: int, eta: int) -> bool {
    if eta == 4 {
        z < 9
    } else {
        z < 15
    }
}

/// The first coefficients of RejBoundedPoly(b) come from the first byte,
/// low half first: when its low half z = b[0] & 0x0f is accepted, the first
/// coefficient is the value of z; when then its high half w = b[0] >> 4 is
/// accepted too, the second coefficient is the value of w.
pub proof fn lemma_rej_eta_first_byte(b: Seq<u8>, eta: int)
    requires
        eta == 2 || eta == 4,
        b.len() >= 1,
        rej_eta_spec(b, eta) is Some,
        half_accepted((b[0] & 0x0fu8) as int, eta),
    ensures
        rej_eta_spec(b, eta)->0[0] == coeff_of_half((b[0] & 0x0fu8) as int, eta),
        half_accepted((b[0] >> 4u8) as int, eta) ==> rej_eta_spec(b, eta)->0[1] == coeff_of_half(
            (b[0] >> 4u8) as int,
            eta,
        ),
{
    lemma_half_bytes_low_first(b, 0);
    let z = (b[0] & 0x0fu8) as int;
    let w = (b[0] >> 4u8) as int;
    let total = (2 * b.len()) as nat;
    assert(rej_eta_prefix(b, eta, 0) =~= Seq::<i32>::empty());
    let p1 = rej_eta_prefix(b, eta, 1);
    assert(p1 =~= seq![coeff_of_half(z, eta) as i32]);
    lemma_rej_eta_prefix_grows(b, eta, 1, total);
    let all = rej_eta_prefix(b, eta, total);
    assert(all.take(1)[0] == all[0]);
    assert(all.len() >= N);
    assert(rej_eta_spec(b, eta)->0 == all.take(N as int));
    if half_accepted(w, eta) {
        let p2 = rej_eta_prefix(b, eta, 2);
        assert(p2 =~= seq![coeff_of_half(z, eta) as i32, coeff_of_half(w, eta) as i32]);
        lemma_rej_eta_prefix_grows(b, eta, 2, total);
        assert(all.take(2)[1] == all[1]);
    }
}

/// RejBoundedPoly on the bytes b: the first 256 accepted half bytes as
/// coefficients in [-eta, eta], or None when b holds fewer.
pub fn rej_eta(b: &[u8], eta: i32) -> (r: Option<Poly>)
    requires
        eta == 2 || eta == 4,
    ensures
        match r {
            Some(p) => rej_eta_spec(b@, eta as int) == Some(p.coeffs@),
            None => rej_eta_spec(b@, eta as int) is None,
        },
        r matches Some(p) ==> poly_small(p, eta as int),
{
    let mut p = Poly::new();
    let mut count: usize = 0;
    let n = b.len();
    for i in 0..n
        invariant
            n == b@.len(),
            eta == 2 || eta == 4,
            count < N,
            rej_eta_prefix(b@, eta as int, (2 * i) as nat).len() == count,
            forall|x: int| 0 <= x < count ==> #[trigger] p.coeffs@[x] == rej_eta_prefix(b@, eta as int, (2 * i) as nat)[x],
    {
        let byte = b[i];
        for half in 0..2usize
            invariant
                n == b@.len(),
                i < n,
                byte == b@[i as int],
                eta == 2 || eta == 4,
                count < N,
                rej_eta_prefix(b@, eta as int, (2 * i + half) as nat).len() == count,
                forall|x: int| 0 <= x < count ==> #[trigger] p.coeffs@[x] == rej_eta_prefix(b@, eta as int, (2 * i + half) as nat)[x],
        {
            let z: i32 = if half == 0 {
                (byte % 16) as i32
            } else {
                (byte / 16) as i32
            };
            let ghost t: int = 2 * i + half;
            proof {
                assert(t / 2 == i && t % 2 == half);
                assert(z as int == half_byte(b@, t));
            }
            let accepted: bool;
            let mut c: i32 = 0;
            if eta == 2 {
                accepted = z < 15;
                if accepted {
                    c = 2 - z % 5;
                }
            } else {
                accepted = z < 9;
                if accepted {
                    c = 4 - z;
                }
            }
            if accepted {
                p.coeffs[count] = c;
                count = count + 1;
                if count == N {
                    proof {
                        assert(p.coeffs@ =~= rej_eta_prefix(b@, eta as int, (t + 1) as nat));
                        lemma_rej_eta_prefix_grows(b@, eta as int, (t + 1) as nat, (2 * n) as nat);
                        lemma_rej_eta_prefix(b@, eta as int, (t + 1) as nat);
                        assert forall|x: int| 0 <= x < N implies -eta <= #[trigger] p.coeffs[x] <= eta by {
                            assert(p.coeffs@[x] == rej_eta_prefix(b@, eta as int, (t + 1) as nat)[x]);
                        }
                    }
                    return Some(p);
                }
            }
        }
    }
    None
}

/// Every coefficient of p lies in [-eta, eta].
pub open spec fn poly_small(p: Poly, eta: int) -> bool {
    forall|i: int| 0 <= i < N ==> -eta <= #[trigger] p.coeffs[i] <= eta
}

/// The seed of ExpandS and ExpandMask: rho || IntegerToBytes(index, 2).
pub open spec fn index_seed(rho: Seq<u8>, index: int) -> Seq<u8> {
    rho + seq![(index % 256) as u8, (index / 256) as u8]
}

fn seed_with_index(rho: &[u8], index: u16) -> (s: Vec<u8>)
    ensures
        s@ == index_seed(rho@, index as int),
{
    let mut s: Vec<u8> = Vec::new();
    append_bytes(&mut s, rho);
    s.push((index % 256) as u8);
    s.push((index / 256) as u8);
    assert(s@ =~= index_seed(rho@, index as int));
    s
}

/// RejBoundedPoly(seed) as sampled here: from the first 272 bytes of
/// SHAKE256(seed), else the first 1088, else the first 4352; None when none
/// of them holds 256 accepted half bytes.
pub open spec fn rej_bounded_spec(seed: Seq<u8>, eta: int) -> Option<Seq<i32>> {
    match rej_eta_spec(shake256_spec(seed, 272), eta) {
        Some(p) => Some(p),
        None => match rej_eta_spec(shake256_spec(seed, 1088), eta) {
            Some(p) => Some(p),
            None => rej_eta_spec(shake256_spec(seed, 4352), eta),
        },
    }
}

/// p is RejBoundedPoly(seed).
pub open spec fn eta_poly_from(seed: Seq<u8>, eta: int, p: Poly) -> bool {
    rej_bounded_spec(seed, eta) == Some(p.coeffs@)
}

/// RejBoundedPoly(rho' || index): reads 272, then 1088, then 4352 bytes
/// of SHAKE256; None when none of them held 256 accepted half bytes.
pub fn sample_poly_eta(rho_prime: &[u8], index: u16, eta: i32) -> (r: Option<Poly>)
    requires
        eta == 2 || eta == 4,
    ensures
        match r {
            Some(p) => eta_poly_from(index_seed(rho_prime@, index as int), eta as int, p),
            None => rej_bounded_spec(index_seed(rho_prime@, index as int), eta as int) is None,
        },
        r matches Some(p) ==> poly_small(p, eta as int),
{
    let seed = seed_with_index(rho_prime, index);
    for attempt in 0..3usize
        invariant
            eta == 2 || eta == 4,
            seed@ == index_seed(rho_prime@, index as int),
            attempt >= 1 ==> rej_eta_spec(shake256_spec(seed@, 272), eta as int) is None,
            attempt >= 2 ==> rej_eta_spec(shake256_spec(seed@, 1088), eta as int) is None,
            attempt >= 3 ==> rej_eta_spec(shake256_spec(seed@, 4352), eta as int) is None,
    {
        let len: usize = if attempt == 0 {
            272
        } else if attempt == 1 {
            1088
        } else {
            4352
        };
        let bytes = shake256(&seed, len);
        match rej_eta(&bytes, eta) {
            Some(p) => {
                return Some(p);
            },
            None => {},
        }
    }
    None
}

/// ExpandS (FIPS 204, Algorithm 33): s1 from indices 0..l and s2 from
/// indices l..l+k of rho', or None when a rejection sampling ran out of
/// bytes.
pub fn expand_s(rho_prime: &[u8], eta: i32, k: usize, l: usize) -> (r: Option<(Vec<Poly>, Vec<Poly>)>)
    requires
        eta == 2 || eta == 4,
        k <= 8,
        l <= 8,
    ensures
        r matches Some((s1, s2)) ==> {
            &&& s1@.len() == l
            &&& s2@.len() == k
            &&& forall|j: int| 0 <= j < l ==> eta_poly_from(index_seed(rho_prime@, j), eta as int, #[trigger] s1@[j])
            &&& forall|j: int| 0 <= j < k ==> eta_poly_from(index_seed(rho_prime@, l + j), eta as int, #[trigger] s2@[j])
            &&& forall|j: int| 0 <= j < l ==> poly_small(#[trigger] s1@[j], eta as int)
            &&& forall|j: int| 0 <= j < k ==> poly_small(#[trigger] s2@[j], eta as int)
        },
        r is None <==> exists|j: int|
            0 <= j < l + k && #[trigger] rej_bounded_spec(index_seed(rho_prime@, j), eta as int) is None,
{
    let mut s1: Vec<Poly> = Vec::new();
    for j in 0..l
        invariant
            eta == 2 || eta == 4,
            l <= 8,
            s1@.len() == j,
            forall|a: int| 0 <= a < j ==> eta_poly_from(index_seed(rho_prime@, a), eta as int, #[trigger] s1@[a]),
            forall|a: int| 0 <= a < j ==> poly_small(#[trigger] s1@[a], eta as int),
    {
        match sample_poly_eta(rho_prime, j as u16, eta) {
            Some(p) => s1.push(p),
            None => {
                assert(rej_bounded_spec(index_seed(rho_prime@, j as int), eta as int) is None);
                return None;
            },
        }
    }
    let mut s2: Vec<Poly> = Vec::new();
    for j in 0..k
        invariant
            eta == 2 || eta == 4,
            k <= 8,
            l <= 8,
            s1@.len() == l,
            forall|a: int| 0 <= a < l ==> eta_poly_from(index_seed(rho_prime@, a), eta as int, #[trigger] s1@[a]),
            s2@.len() == j,
            forall|a: int| 0 <= a < j ==> eta_poly_from(index_seed(rho_prime@, l + a), eta as int, #[trigger] s2@[a]),
            forall|a: int| 0 <= a < j ==> poly_small(#[trigger] s2@[a], eta as int),
    {
        match sample_poly_eta(rho_prime, (l + j) as u16, eta) {
            Some(p) => s2.push(p),
            None => {
                assert(rej_bounded_spec(index_seed(rho_prime@, (l + j) as int), eta as int) is None);
                return None;
            },
        }
    }
    proof {
        assert forall|j: int| 0 <= j < l + k implies !(#[trigger] rej_bounded_spec(
            index_seed(rho_prime@, j),
            eta as int,
        ) is None) by {
            if j < l {
                assert(eta_poly_from(index_seed(rho_prime@, j), eta as int, s1@[j]));
            } else {
                assert(eta_poly_from(index_seed(rho_prime@, l + (j - l)), eta as int, s2@[j - l]));
            }
        }
    }
    Some((s1, s2))
}

/// Bits per coefficient of the mask: 18 for gamma1 = 2^17, 20 for 2^19.
pub open spec fn gamma1_bits(gamma1: int) -> nat {
    if gamma1 == 131072 { 18 } else { 20 }
}

/// Polynomial r of ExpandMask: coefficient i is gamma1 minus the c-bit
/// field i of SHAKE256(rho'' || kappa + r) (BitUnpack).
pub open spec fn mask_poly(rho_pp: Seq<u8>, index: int, gamma1: int, p: Poly) -> bool {
    let c = gamma1_bits(gamma1);
    forall|i: int|
        0 <= i < N ==> #[trigger] p.coeffs[i] as int == gamma1 - bits_value(
            shake256_spec(index_seed(rho_pp, index), 32 * c),
            i * c,
            c,
        )
}

/// ExpandMask (FIPS 204, Algorithm 34): l polynomials with coefficients
/// in (-gamma1, gamma1].
pub fn expand_mask(rho_pp: &[u8], kappa: u16, gamma1: i32, l: usize) -> (y: Vec<Poly>)
    requires
        gamma1 == 131072 || gamma1 == 524288,
        l <= 8,
        kappa as int + l <= 65535,
    ensures
        y@.len() == l,
        forall|r: int| 0 <= r < l ==> mask_poly(rho_pp@, kappa + r, gamma1 as int, #[trigger] y@[r]),
        forall|r: int, i: int|
            0 <= r < l && 0 <= i < N ==> -gamma1 < #[trigger] y@[r].coeffs[i] <= gamma1,
{
    let c: usize = if gamma1 == 131072 {
        18
    } else {
        20
    };
    proof {
        assert(p2(18) == 262144 && p2(20) == 1048576) by {
            reveal_with_fuel(p2, 21);
        }
    }
    let mut y: Vec<Poly> = Vec::new();
    for r in 0..l
        invariant
            gamma1 == 131072 || gamma1 == 524288,
            c as nat == gamma1_bits(gamma1 as int),
            p2(c as nat) == 2 * gamma1,
            l <= 8,
            kappa as int + l <= 65535,
            y@.len() == r,
            forall|a: int| 0 <= a < r ==> mask_poly(rho_pp@, kappa + a, gamma1 as int, #[trigger] y@[a]),
            forall|a: int, i: int|
                0 <= a < r && 0 <= i < N ==> -gamma1 < #[trigger] y@[a].coeffs[i] <= gamma1,
    {
        let seed = seed_with_index(rho_pp, kappa + r as u16);
        let bytes = shake256(&seed, 32 * c);
        let vals = unpack_bits(&bytes, c, N);
        let mut p = Poly::new();
        for i in 0..N
            invariant
                gamma1 == 131072 || gamma1 == 524288,
                c as nat == gamma1_bits(gamma1 as int),
                p2(c as nat) == 2 * gamma1,
                vals@.len() == N,
                forall|a: int| 0 <= a < N ==> (#[trigger] vals@[a]) as int == bits_value(bytes@, a * c, c as nat),
                forall|a: int| 0 <= a < N ==> (#[trigger] vals@[a]) as int <= p2(c as nat) - 1,
                forall|a: int| 0 <= a < i ==> #[trigger] p.coeffs[a] as int == gamma1 - bits_value(bytes@, a * c, c as nat),
                forall|a: int| 0 <= a < i ==> -gamma1 < #[trigger] p.coeffs[a] <= gamma1,
        {
            p.coeffs[i] = gamma1 - (vals[i] as i32);
        }
        y.push(p);
    }
    y
}

/// A challenge polynomial: coefficients in {-1, 0, 1}, exactly tau of them
/// nonzero.
pub open spec fn is_challenge(p: Poly, tau: int) -> bool {
    &&& forall|i: int| 0 <= i < N ==> -1 <= #[trigger] p.coeffs[i] <= 1
    &&& count_nonzero(p.coeffs@, N as int) == tau
}

/// Sign bit t of SampleInBall: bit t % 8 of byte t / 8 of b.
pub open spec fn sign_bit(b: Seq<u8>, t: int) -> int {
    ((b[t / 8] as int) / (p2((t % 8) as nat) as int)) % 2
}

/// The loop of SampleInBall (FIPS 204, Algorithm 29) from coefficient i,
/// with the next byte of b at pos and the coefficients c: bytes above i
/// are skipped; a byte j <= i moves c[j] to c[i] and puts the sign of bit
/// i + tau - 256 at j. None when b runs out.
pub open spec fn ball_loop(b: Seq<u8>, tau: int, i: int, pos: int, c: Seq<i32>) -> Option<Seq<i32>>
    decreases 256 - i, b.len() - pos,
{
    if i >= N {
        Some(c)
    } else if pos >= b.len() || pos < 0 {
        None
    } else if (b[pos] as int) > i {
        ball_loop(b, tau, i, pos + 1, c)
    } else {
        let j = b[pos] as int;
        ball_loop(
            b,
            tau,
            i + 1,
            pos + 1,
            c.update(i, c[j]).update(j, if sign_bit(b, i + tau - 256) == 1 { -1i32 } else { 1i32 }),
        )
    }
}

/// SampleInBall on the bytes b: the sign bits are the first 8 bytes, the
/// positions follow; None when b runs out.
pub open spec fn ball_from_bytes(b: Seq<u8>, tau: int) -> Option<Seq<i32>> {
    if b.len() < 8 {
        None
    } else {
        ball_loop(b, tau, 256 - tau, 8, Seq::new(N as nat, |i: int| 0i32))
    }
}

/// The sign that SampleInBall gives the m-th placed coefficient: -1 when
/// bit m of the sign bytes b[0..8], counted from the least significant bit
/// of b[0], is 1, and 1 otherwise.
pub open spec fn sign_of_bit(b: Seq<u8>, m: int) -> i32 {
    if (b[m / 8] >> ((m % 8) as u8)) & 1u8 == 1u8 {
        -1i32
    } else {
        1i32
    }
}

proof fn lemma_sign_bit_lsb_first(b: Seq<u8>, m: int)
    requires
        0 <= m,
        m / 8 < b.len(),
    ensures
        (if sign_bit(b, m) == 1 { -1i32 } else { 1i32 }) == sign_of_bit(b, m),
{
    let x = b[m / 8];
    assert(((x >> 0u8) & 1u8 == x % 2) && ((x >> 1u8) & 1u8 == (x / 2) % 2) && ((x >> 2u8) & 1u8 == (x / 4) % 2)
        && ((x >> 3u8) & 1u8 == (x / 8) % 2) && ((x >> 4u8) & 1u8 == (x / 16) % 2) && ((x >> 5u8) & 1u8 == (x
        / 32) % 2) && ((x >> 6u8) & 1u8 == (x / 64) % 2) && ((x >> 7u8) & 1u8 == (x / 128) % 2)) by (bit_vector);
    reveal_with_fuel(p2, 9);
    let s = m % 8;
    assert(0 <= s < 8);
}

/// Each step of SampleInBall places the next coefficient with the next
/// sign bit: at i = 256 - tau + k, an accepted position byte j <= i moves
/// c[j] to c[i] and gives c[j] the sign of bit k of the sign bytes (least
/// significant bit first), then goes on with i + 1.
pub proof fn lemma_ball_step_uses_bit_k(b: Seq<u8>, tau: int, i: int, pos: int, c: Seq<i32>)
    requires
        0 <= tau <= 64,
        256 - tau <= i < 256,
        0 <= pos < b.len(),
        b.len() >= 8,
        (b[pos] as int) <= i,
    ensures
        ball_loop(b, tau, i, pos, c) == ball_loop(
            b,
            tau,
            i + 1,
            pos + 1,
            c.update(i, c[b[pos] as int]).update(b[pos] as int, sign_of_bit(b, i - (256 - tau))),
        ),
{
    lemma_sign_bit_lsb_first(b, i - (256 - tau));
}

/// The coefficients SampleInBall gives when the first k placements named
/// the positions in order.
pub open spec fn ball_in_order(b: Seq<u8>, tau: int, k: int) -> Seq<i32> {
    Seq::new(N as nat, |x: int| if 256 - tau <= x < 256 - tau + k { sign_of_bit(b, x - (256 - tau)) } else { 0i32 })
}

proof fn lemma_ball_in_order_from(b: Seq<u8>, tau: int, k: int)
    requires
        0 <= tau <= 64,
        0 <= k <= tau,
        b.len() >= 8 + tau,
        forall|m: int| 0 <= m < tau ==> #[trigger] b[8 + m] as int == 256 - tau + m,
    ensures
        ball_loop(b, tau, 256 - tau + k, 8 + k, ball_in_order(b, tau, k)) == Some(ball_in_order(b, tau, tau)),
    decreases tau - k,
{
    if k < tau {
        let i = 256 - tau + k;
        assert(b[8 + k] as int == i);
        lemma_ball_step_uses_bit_k(b, tau, i, 8 + k, ball_in_order(b, tau, k));
        let c = ball_in_order(b, tau, k);
        assert(c.update(i, c[i]).update(i, sign_of_bit(b, k)) =~= ball_in_order(b, tau, k + 1));
        lemma_ball_in_order_from(b, tau, k + 1);
    } else {
        assert(ball_in_order(b, tau, k) == ball_in_order(b, tau, tau));
    }
}

/// When the position bytes name the positions in order (byte 8 + m is
/// 256 - tau + m for each m < tau), SampleInBall moves nothing: the
/// coefficient 256 - tau + m is -1 or 1 by bit m of the sign bytes (least
/// significant bit of byte 0 first), and all others are 0.
pub proof fn lemma_ball_positions_in_order(b: Seq<u8>, tau: int)
    requires
        0 <= tau <= 64,
        b.len() >= 8 + tau,
        forall|m: int| 0 <= m < tau ==> #[trigger] b[8 + m] as int == 256 - tau + m,
    ensures
        ball_from_bytes(b, tau) == Some(
            Seq::new(
                N as nat,
                |x: int|
                    if x < 256 - tau {
                        0i32
                    } else {
                        sign_of_bit(b, x - (256 - tau))
                    },
            ),
        ),
{
    assert(ball_in_order(b, tau, 0) =~= Seq::new(N as nat, |i: int| 0i32));
    lemma_ball_in_order_from(b, tau, 0);
    assert(ball_in_order(b, tau, tau) =~= Seq::new(
        N as nat,
        |x: int|
            if x < 256 - tau {
                0i32
            } else {
                sign_of_bit(b, x - (256 - tau))
            },
    ));
}

/// SampleInBall on the bytes b of SHAKE256(c~): the first 8 bytes give the
/// signs, the following bytes the positions; None when b runs out.
fn sample_in_ball_from(b: &[u8], tau: usize) -> (r: Option<Poly>)
    requires
        tau <= 64,
    ensures
        match r {
            Some(p) => ball_from_bytes(b@, tau as int) == Some(p.coeffs@),
            None => ball_from_bytes(b@, tau as int) is None,
        },
        r matches Some(p) ==> is_challenge(p, tau as int),
{
    if b.len() < 8 {
        return None;
    }
    let mut c = Poly::new();
    let mut pos: usize = 8;
    let start = N - tau;
    let ghost bs = ball_from_bytes(b@, tau as int);
    proof {
        assert(count_nonzero(c.coeffs@, N as int) == 0) by {
            lemma_count_zero(c.coeffs@, N as int);
        }
        assert(c.coeffs@ =~= Seq::new(N as nat, |i: int| 0i32));
    }
    for i in start..N
        invariant
            start == N - tau,
            tau <= 64,
            8 <= pos <= b@.len(),
            bs == ball_loop(b@, tau as int, i as int, pos as int, c.coeffs@),
            bs == ball_from_bytes(b@, tau as int),
            forall|x: int| 0 <= x < N ==> -1 <= #[trigger] c.coeffs[x] <= 1,
            forall|x: int| i <= x < N ==> #[trigger] c.coeffs[x] == 0,
            count_nonzero(c.coeffs@, N as int) == i - start,
    {
        loop
            invariant_except_break
                8 <= pos <= b@.len(),
                bs == ball_loop(b@, tau as int, i as int, pos as int, c.coeffs@),
            invariant
                i < N,
                bs == ball_from_bytes(b@, tau as int),
            ensures
                8 <= pos < b@.len(),
                (b@[pos as int] as int) <= i,
                bs == ball_loop(b@, tau as int, i as int, pos as int, c.coeffs@),
            decreases b@.len() - pos,
        {
            if pos >= b.len() {
                return None;
            }
            if (b[pos] as usize) <= i {
                break;
            }
            pos = pos + 1;
        }
        let j = b[pos] as usize;
        pos = pos + 1;
        let k = i - start;
        let sign_byte = b[k / 8];
        let w = pow2_u8(k % 8);
        let bit = (sign_byte / w) % 2;
        let old_cj = c.coeffs[j];
        let ghost before = c.coeffs@;
        c.coeffs[i] = old_cj;
        c.coeffs[j] = if bit == 1 {
            -1
        } else {
            1
        };
        proof {
            assert(bit as int == sign_bit(b@, i + tau - 256));
            assert(c.coeffs@ == before.update(i as int, before[j as int]).update(
                j as int,
                if sign_bit(b@, i + tau - 256) == 1 { -1i32 } else { 1i32 },
            ));
            lemma_count_swap(before, i as int, j as int, c.coeffs@);
        }
    }
    Some(c)
}

fn pow2_u8(t: usize) -> (w: u8)
    requires
        t < 8,
    ensures
        w as int == p2(t as nat),
        w >= 1,
{
    proof {
        reveal_with_fuel(p2, 9);
    }
    match t {
        0 => 1,
        1 => 2,
        2 => 4,
        3 => 8,
        4 => 16,
        5 => 32,
        6 => 64,
        _ => 128,
    }
}

proof fn lemma_count_zero(s: Seq<i32>, k: int)
    requires
        0 <= k <= s.len(),
        forall|x: int| 0 <= x < k ==> s[x] == 0,
    ensures
        count_nonzero(s, k) == 0,
    decreases k,
{
    if k > 0 {
        lemma_count_zero(s, k - 1);
    }
}

proof fn lemma_count_update(s: Seq<i32>, k: int, x: int, v: i32)
    requires
        0 <= x < s.len(),
        0 <= k <= s.len(),
    ensures
        count_nonzero(s.update(x, v), k) == count_nonzero(s, k) + (if x < k {
            (if v != 0 { 1int } else { 0int }) - (if s[x] != 0 { 1int } else { 0int })
        } else {
            0int
        }),
    decreases k,
{
    if k > 0 {
        lemma_count_update(s, k - 1, x, v);
    }
}

proof fn lemma_count_swap(before: Seq<i32>, i: int, j: int, after: Seq<i32>)
    requires
        before.len() == N,
        0 <= j <= i < N,
        before[i] == 0,
        after == before.update(i, before[j]).update(j, if after[j] == -1 { -1i32 } else { 1i32 }),
        after[j] == 1 || after[j] == -1,
    ensures
        count_nonzero(after, N as int) == count_nonzero(before, N as int) + 1,
{
    let mid = before.update(i, before[j]);
    lemma_count_update(before, N as int, i, before[j]);
    lemma_count_update(mid, N as int, j, after[j]);
}

/// SampleInBall(c~) as sampled here: from the first 272 bytes of
/// SHAKE256(c~), else the first 1088, else the first 4352.
pub open spec fn sample_in_ball_spec(c_tilde: Seq<u8>, tau: int) -> Option<Seq<i32>> {
    match ball_from_bytes(shake256_spec(c_tilde, 272), tau) {
        Some(c) => Some(c),
        None => match ball_from_bytes(shake256_spec(c_tilde, 1088), tau) {
            Some(c) => Some(c),
            None => ball_from_bytes(shake256_spec(c_tilde, 4352), tau),
        },
    }
}

/// SampleInBall (FIPS 204, Algorithm 29): the challenge polynomial of c~,
/// reading 272, then 1088, then 4352 bytes of SHAKE256(c~); None when none
/// of them sufficed.
pub fn sample_in_ball(c_tilde: &[u8], tau: usize) -> (r: Option<Poly>)
    requires
        tau <= 64,
    ensures
        match r {
            Some(p) => sample_in_ball_spec(c_tilde@, tau as int) == Some(p.coeffs@),
            None => sample_in_ball_spec(c_tilde@, tau as int) is None,
        },
        r matches Some(p) ==> is_challenge(p, tau as int),
{
    for attempt in 0..3usize
        invariant
            tau <= 64,
            attempt >= 1 ==> ball_from_bytes(shake256_spec(c_tilde@, 272), tau as int) is None,
            attempt >= 2 ==> ball_from_bytes(shake256_spec(c_tilde@, 1088), tau as int) is None,
            attempt >= 3 ==> ball_from_bytes(shake256_spec(c_tilde@, 4352), tau as int) is None,
    {
        let len: usize = if attempt == 0 {
            272
        } else if attempt == 1 {
            1088
        } else {
            4352
        };
        let bytes = shake256(c_tilde, len);
        match sample_in_ball_from(&bytes, tau) {
            Some(p) => {
                return Some(p);
            },
            None => {},
        }
    }
    None
}

} // verus!
