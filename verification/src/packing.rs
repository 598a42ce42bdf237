//! Bit packing (FIPS 204, Section 7.1): integers to bits, bits to bytes
//! and back, and the encodings of t1, t0, s1/s2, z, w1 and y built on
//! them.

use vstd::prelude::*;

verus! {

/// 2^e.
pub open spec fn p2(e: nat) -> nat
    decreases e,
{
    if e == 0 {
        1
    } else {
        2 * p2((e - 1) as nat)
    }
}

/// Bit j of v (IntegerToBits): (v / 2^j) mod 2.
pub open spec fn value_bit(v: int, j: nat) -> int {
    (v / (p2(j) as int)) % 2
}

/// Bit `pos` of the bit string that concatenates the c-bit little-endian
/// representations of the values.
pub open spec fn packed_bit(vals: Seq<u32>, c: nat, pos: int) -> int {
    value_bit(vals[pos / (c as int)] as int, (pos % (c as int)) as nat)
}

/// Sum over s < t of bit (8k + s) of the packed bit string times 2^s
/// (BitsToBytes, byte k, after t bits).
pub open spec fn byte_partial(vals: Seq<u32>, c: nat, k: int, t: nat) -> int
    decreases t,
{
    if t == 0 {
        0
    } else {
        byte_partial(vals, c, k, (t - 1) as nat) + packed_bit(vals, c, 8 * k + t - 1) * (p2(
            (t - 1) as nat,
        ) as int)
    }
}

/// Bit `pos` of a byte string (bit pos % 8 of byte pos / 8).
pub open spec fn byte_bit(bytes: Seq<u8>, pos: int) -> int {
    ((bytes[pos / 8] as int) / (p2((pos % 8) as nat) as int)) % 2
}

/// The number whose c-bit little-endian representation starts at bit
/// `start` of the byte string (BitsToInteger).
pub open spec fn bits_value(bytes: Seq<u8>, start: int, c: nat) -> int
    decreases c,
{
    if c == 0 {
        0
    } else {
        bits_value(bytes, start, (c - 1) as nat) + byte_bit(bytes, start + c - 1) * (p2(
            (c - 1) as nat,
        ) as int)
    }
}

/// SimpleBitPack as a function: byte k collects bits 8k..8k+8 of the
/// c-bit representations of the values.
pub open spec fn bit_pack_spec(vals: Seq<u32>, c: nat) -> Seq<u8> {
    Seq::new((vals.len() * c / 8) as nat, |k: int| byte_partial(vals, c, k, 8) as u8)
}

/// SimpleBitPack: the bytes whose bit string is the c-bit representations
/// of the values, in order.
pub open spec fn is_bit_packing(out: Seq<u8>, vals: Seq<u32>, c: nat) -> bool {
    &&& out.len() * 8 == vals.len() * c
    &&& forall|k: int| 0 <= k < out.len() ==> #[trigger] out[k] as int == byte_partial(vals, c, k, 8)
}

proof fn lemma_p2_values()
    ensures
        p2(0) == 1,
        p2(1) == 2,
        p2(2) == 4,
        p2(3) == 8,
        p2(4) == 16,
        p2(5) == 32,
        p2(6) == 64,
        p2(7) == 128,
        p2(8) == 256,
{
    reveal_with_fuel(p2, 9);
}

proof fn lemma_p2_pos(e: nat)
    ensures
        p2(e) >= 1,
    decreases e,
{
    if e > 0 {
        lemma_p2_pos((e - 1) as nat);
    }
}

proof fn lemma_value_bit_01(v: int, j: nat)
    ensures
        0 <= value_bit(v, j) <= 1,
{
    lemma_p2_pos(j);
}

proof fn lemma_byte_partial_bound(vals: Seq<u32>, c: nat, k: int, t: nat)
    ensures
        0 <= byte_partial(vals, c, k, t) < p2(t),
    decreases t,
{
    if t > 0 {
        lemma_byte_partial_bound(vals, c, k, (t - 1) as nat);
        lemma_value_bit_01(vals[(8 * k + t - 1) / (c as int)] as int, ((8 * k + t - 1) % (c as int)) as nat);
        lemma_p2_pos((t - 1) as nat);
        assert(p2(t) == 2 * p2((t - 1) as nat));
        let b = packed_bit(vals, c, 8 * k + t - 1);
        if b == 0 {
            assert(b * (p2((t - 1) as nat) as int) == 0);
        } else {
            assert(b == 1);
            assert(b * (p2((t - 1) as nat) as int) == p2((t - 1) as nat));
        }
    }
}

/// 2^t for t < 8.
fn pow2_small(t: usize) -> (w: u32)
    requires
        t < 8,
    ensures
        w as int == p2(t as nat),
{
    proof {
        lemma_p2_values();
    }
    match t {
        0 => 1,
        1 => 2,
        2 => 4,
        3 => 8,
        4 => 16,
        5 => 32,
        6 => 64,
        _ => 128,
    }
}

proof fn lemma_pos_split(i: int, c: int, j: int)
    requires
        c > 0,
        0 <= j < c,
        i >= 0,
    ensures
        (i * c + j) / c == i,
        (i * c + j) % c == j,
{
    vstd::arithmetic::div_mod::lemma_fundamental_div_mod_converse(i * c + j, c, i, j);
}

/// The value that bit `pos` of the packing adds to byte pos / 8, and the
/// state of the bytes before and after.
pub open spec fn pack_state(out: Seq<u8>, vals: Seq<u32>, c: nat, pos: int) -> bool {
    forall|k: int|
        0 <= k < out.len() ==> #[trigger] out[k] as int == byte_partial(
            vals,
            c,
            k,
            if pos >= 8 * k + 8 {
                8nat
            } else if pos <= 8 * k {
                0nat
            } else {
                (pos - 8 * k) as nat
            },
        )
}

/// SimpleBitPack of values below 2^c (c <= 24) into n * c / 8 bytes.
pub fn pack_bits(vals: &[u32], c: usize) -> (out: Vec<u8>)
    requires
        1 <= c <= 24,
        (vals@.len() * c) % 8 == 0,
        vals@.len() * c <= usize::MAX,
        forall|i: int| 0 <= i < vals@.len() ==> (#[trigger] vals@[i] as int) < p2(c as nat),
    ensures
        is_bit_packing(out@, vals@, c as nat),
        out@ == bit_pack_spec(vals@, c as nat),
{
    let n = vals.len();
    let total_bits = n * c;
    let nbytes = total_bits / 8;
    let mut out: Vec<u8> = Vec::new();
    for k in 0..nbytes
        invariant
            out@.len() == k,
            forall|x: int| 0 <= x < k ==> #[trigger] out@[x] == 0,
    {
        out.push(0u8);
    }
    proof {
        assert(pack_state(out@, vals@, c as nat, 0));
    }
    let mut pos: usize = 0;
    proof {
        assert(0 == 0 * c) by (nonlinear_arith);
    }
    for i in 0..n
        invariant
            n == vals@.len(),
            1 <= c <= 24,
            total_bits == n * c,
            total_bits % 8 == 0,
            nbytes == total_bits / 8,
            out@.len() == nbytes,
            pos == i * c,
            pack_state(out@, vals@, c as nat, pos as int),
    {
        let mut cur: u32 = vals[i];
        proof {
            lemma_p2_values();
            assert(cur as int == (vals@[i as int] as int) / 1);
        }
        for j in 0..c
            invariant
                n == vals@.len(),
                i < n,
                1 <= c <= 24,
                total_bits == n * c,
                total_bits % 8 == 0,
                nbytes == total_bits / 8,
                out@.len() == nbytes,
                pos == i * c + j,
                cur as int == (vals@[i as int] as int) / (p2(j as nat) as int),
                pack_state(out@, vals@, c as nat, pos as int),
        {
            proof {
                assert(pos < total_bits) by (nonlinear_arith)
                    requires
                        pos == i * c + j,
                        j < c,
                        i < n,
                        total_bits == n * c,
                ;
                lemma_pos_split(i as int, c as int, j as int);
                vstd::arithmetic::div_mod::lemma_fundamental_div_mod(total_bits as int, 8);
            }
            let bit: u32 = cur % 2;
            let k: usize = pos / 8;
            let t: usize = pos % 8;
            let w = pow2_small(t);
            let old_byte = out[k];
            proof {
                lemma_byte_partial_bound(vals@, c as nat, k as int, t as nat);
                assert(old_byte as int == byte_partial(vals@, c as nat, k as int, t as nat));
                assert(packed_bit(vals@, c as nat, pos as int) == bit);
                assert(byte_partial(vals@, c as nat, k as int, (t + 1) as nat) == old_byte as int
                    + bit * w);
                lemma_byte_partial_bound(vals@, c as nat, k as int, (t + 1) as nat);
                lemma_p2_values();
                vstd::arithmetic::power2::lemma2_to64();
                assert(p2((t + 1) as nat) <= 256) by {
                    reveal_with_fuel(p2, 9);
                }
            }
            let new_byte: u8 = ((old_byte as u32) + bit * w) as u8;
            out.set(k, new_byte);
            proof {
                lemma_p2_pos(j as nat);
                vstd::arithmetic::div_mod::lemma_div_denominator(
                    vals@[i as int] as int,
                    p2(j as nat) as int,
                    2,
                );
                lemma_p2_pos(j as nat);
                assert(p2((j + 1) as nat) == p2(j as nat) * 2);
                assert forall|x: int| 0 <= x < out@.len() implies #[trigger] out@[x] as int
                    == byte_partial(
                    vals@,
                    c as nat,
                    x,
                    if pos + 1 >= 8 * x + 8 {
                        8nat
                    } else if pos + 1 <= 8 * x {
                        0nat
                    } else {
                        (pos + 1 - 8 * x) as nat
                    },
                ) by {
                    if x != k {
                        assert(pos >= 8 * x + 8 || pos < 8 * x);
                    }
                }
            }
            cur = cur / 2;
            pos = pos + 1;
        }
        proof {
            assert(pos == (i + 1) * c) by (nonlinear_arith)
                requires
                    pos == i * c + c,
            ;
        }
    }
    proof {
        assert(pos == total_bits);
        assert forall|k: int| 0 <= k < out@.len() implies #[trigger] out@[k] as int == byte_partial(
            vals@,
            c as nat,
            k,
            8,
        ) by {
            assert(pos >= 8 * k + 8);
        }
        assert(out@ =~= bit_pack_spec(vals@, c as nat));
    }
    out
}

/// BitsToInteger over each c-bit field: n values, value i read from bits
/// [i * c, (i + 1) * c) of the bytes.
pub fn unpack_bits(bytes: &[u8], c: usize, n: usize) -> (vals: Vec<u32>)
    requires
        1 <= c <= 24,
        n * c <= bytes@.len() * 8,
        n * c <= usize::MAX,
    ensures
        vals@.len() == n,
        forall|i: int| 0 <= i < n ==> (#[trigger] vals@[i]) as int == bits_value(bytes@, i * c, c as nat),
        forall|i: int| 0 <= i < n ==> (#[trigger] vals@[i]) as int <= p2(c as nat) - 1,
{
    let mut vals: Vec<u32> = Vec::new();
    for i in 0..n
        invariant
            1 <= c <= 24,
            n * c <= bytes@.len() * 8,
            n * c <= usize::MAX,
            vals@.len() == i,
            forall|a: int| 0 <= a < i ==> (#[trigger] vals@[a]) as int == bits_value(bytes@, a * c, c as nat),
            forall|a: int| 0 <= a < i ==> (#[trigger] vals@[a]) as int <= p2(c as nat) - 1,
    {
        let mut v: u32 = 0;
        let mut w: u32 = 1;
        proof {
            lemma_p2_values();
        }
        for j in 0..c
            invariant
                1 <= c <= 24,
                i < n,
                n * c <= bytes@.len() * 8,
                n * c <= usize::MAX,
                w as int == p2(j as nat),
                v as int == bits_value(bytes@, i * c, j as nat),
                0 <= v < w,
                w <= 16777216,
        {
            proof {
                assert(i * c + j < n * c) by (nonlinear_arith)
                    requires
                        j < c,
                        i < n,
                ;
            }
            let pos: usize = i * c + j;
            let k: usize = pos / 8;
            let t: usize = pos % 8;
            let d = pow2_small(t);
            proof {
                lemma_p2_pos(t as nat);
            }
            let bit: u32 = ((bytes[k] as u32) / d) % 2;
            proof {
                if bit == 0 {
                    assert(bit * w == 0);
                } else {
                    assert(bit == 1);
                    assert(bit * w == w) by (nonlinear_arith)
                        requires
                            bit == 1,
                    ;
                }
                assert(bit as int == byte_bit(bytes@, pos as int));
                assert(p2((j + 1) as nat) == 2 * p2(j as nat));
                lemma_p2_values();
            }
            v = v + bit * w;
            proof {
                assert((j + 1) <= 24);
                if j + 1 < 24 {
                    assert(w <= 8388608) by {
                        lemma_p2_le(j as nat, 23);
                        reveal_with_fuel(p2, 25);
                    }
                }
            }
            w = w * 2;
        }
        proof {
            assert(v as int <= p2(c as nat) - 1);
        }
        vals.push(v);
    }
    vals
}

/// 2^a <= 2^b for a <= b.
pub proof fn lemma_p2_le(a: nat, b: nat)
    requires
        a <= b,
    ensures
        p2(a) <= p2(b),
    decreases b,
{
    if a < b {
        lemma_p2_le(a, (b - 1) as nat);
        lemma_p2_pos((b - 1) as nat);
    }
}

proof fn lemma_p2_add(a: nat, b: nat)
    ensures
        p2(a + b) == p2(a) * p2(b),
    decreases a,
{
    if a == 0 {
        assert(p2(0) == 1);
        assert(a + b == b);
    } else {
        lemma_p2_add((a - 1) as nat, b);
        assert(p2(a) == 2 * p2((a - 1) as nat));
        assert(p2(a + b) == 2 * p2((a - 1 + b) as nat));
        assert(2 * (p2((a - 1) as nat) * p2(b)) == (2 * p2((a - 1) as nat)) * p2(b)) by (nonlinear_arith);
    }
}

/// Bit j of the partial byte after t > j bits is packed bit 8k + j.
proof fn lemma_byte_partial_bit(vals: Seq<u32>, c: nat, k: int, t: nat, j: nat)
    requires
        j < t,
    ensures
        (byte_partial(vals, c, k, t) / (p2(j) as int)) % 2 == packed_bit(vals, c, 8 * k + j),
    decreases t,
{
    let prev = byte_partial(vals, c, k, (t - 1) as nat);
    let b = packed_bit(vals, c, 8 * k + t - 1);
    let pj = p2(j) as int;
    lemma_byte_partial_bound(vals, c, k, (t - 1) as nat);
    lemma_value_bit_01(vals[(8 * k + t - 1) / (c as int)] as int, ((8 * k + t - 1) % (c as int)) as nat);
    lemma_p2_pos(j);
    if j == t - 1 {
        vstd::arithmetic::div_mod::lemma_fundamental_div_mod_converse(prev + b * pj, pj, b, prev);
    } else {
        lemma_byte_partial_bit(vals, c, k, (t - 1) as nat, j);
        let e = (t - 2 - j) as nat;
        lemma_p2_add(j, (e + 1) as nat);
        assert(p2((e + 1) as nat) == 2 * p2(e));
        let m = b * (p2(e) as int);
        assert(b * (p2((t - 1) as nat) as int) == (2 * m) * pj) by (nonlinear_arith)
            requires
                p2((t - 1) as nat) == p2(j) * p2((e + 1) as nat),
                p2((e + 1) as nat) == 2 * p2(e),
                m == b * (p2(e) as int),
                pj == p2(j) as int,
        ;
        vstd::arithmetic::div_mod::lemma_hoist_over_denominator(prev, 2 * m, p2(j));
        vstd::arithmetic::div_mod::lemma_mod_multiples_vanish(m, prev / pj, 2);
    }
}

/// Bit pos of a packing is bit pos of the concatenated representations.
proof fn lemma_byte_bit_of_packing(vals: Seq<u32>, c: nat, pos: int)
    requires
        c > 0,
        0 <= pos < vals.len() * c,
        (vals.len() * c) % 8 == 0,
    ensures
        byte_bit(bit_pack_spec(vals, c), pos) == packed_bit(vals, c, pos),
{
    let out = bit_pack_spec(vals, c);
    let k = pos / 8;
    let j = (pos % 8) as nat;
    assert(k < out.len()) by {
        vstd::arithmetic::div_mod::lemma_fundamental_div_mod(pos, 8);
        vstd::arithmetic::div_mod::lemma_fundamental_div_mod((vals.len() * c) as int, 8);
    }
    lemma_byte_partial_bound(vals, c, k, 8);
    lemma_p2_values();
    assert(out[k] as int == byte_partial(vals, c, k, 8));
    lemma_byte_partial_bit(vals, c, k, 8, j);
    vstd::arithmetic::div_mod::lemma_fundamental_div_mod(pos, 8);
}

/// The first n bits of field i of a packing give field i modulo 2^n.
proof fn lemma_bits_value_of_packing(vals: Seq<u32>, c: nat, i: int, n: nat)
    requires
        c > 0,
        n <= c,
        0 <= i < vals.len(),
        (vals.len() * c) % 8 == 0,
    ensures
        bits_value(bit_pack_spec(vals, c), i * c, n) == (vals[i] as int) % (p2(n) as int),
    decreases n,
{
    let v = vals[i] as int;
    lemma_p2_pos(n);
    if n == 0 {
        assert(v % 1 == 0);
    } else {
        let n1 = (n - 1) as nat;
        lemma_bits_value_of_packing(vals, c, i, n1);
        assert(i * c + n1 < vals.len() * c) by (nonlinear_arith)
            requires
                0 <= i < vals.len(),
                n1 < c,
        ;
        assert(0 <= i * c) by (nonlinear_arith)
            requires
                0 <= i,
        ;
        lemma_byte_bit_of_packing(vals, c, i * c + n1);
        lemma_pos_split(i, c as int, n1 as int);
        lemma_p2_pos(n1);
        vstd::arithmetic::div_mod::lemma_mod_breakdown(v, p2(n1) as int, 2);
        assert(p2(n) == p2(n1) * 2);
        let out = bit_pack_spec(vals, c);
        let bit = byte_bit(out, i * c + n1);
        assert(bit == (v / (p2(n1) as int)) % 2);
        assert(bits_value(out, i * c, n) == bits_value(out, i * c, n1) + bit * (p2(n1) as int));
        assert(bit * (p2(n1) as int) == (p2(n1) as int) * bit) by (nonlinear_arith);
    }
}

/// Unpacking a packing gives the values back: field i of
/// SimpleBitPack(vals, c) is vals[i], for values below 2^c.
pub proof fn lemma_unpack_pack(vals: Seq<u32>, c: nat, i: int)
    requires
        c > 0,
        0 <= i < vals.len(),
        (vals.len() * c) % 8 == 0,
        (vals[i] as int) < p2(c),
    ensures
        bits_value(bit_pack_spec(vals, c), i * c, c) == vals[i] as int,
{
    lemma_bits_value_of_packing(vals, c, i, c);
    vstd::arithmetic::div_mod::lemma_small_mod(vals[i] as nat, p2(c));
}

} // verus!
