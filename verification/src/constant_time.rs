//! Constant-time comparison and selection primitives.
//!
//! None of these functions branch on secret data; their results are
//! computed with bitwise operations only.

use vstd::prelude::*;

verus! {

/// Returns 1 when `x == 0` and 0 otherwise, without branching.
pub fn ct_eq_zero(x: u8) -> (r: u8)
    ensures
        r == (if x == 0 { 1u8 } else { 0u8 }),
{
    let wide: u16 = ((!x) as u16) + 1;
    let neg_x = (wide & 0xff) as u8;
    let r = ((neg_x | x) >> 7u8) ^ 1u8;
    assert(r == (if x == 0 { 1u8 } else { 0u8 })) by (bit_vector)
        requires
            wide == ((!x) as u16) + 1u16,
            neg_x == (wide & 0xffu16) as u8,
            r == ((neg_x | x) >> 7u8) ^ 1u8,
    ;
    r
}

/// Byte-wise equality of two slices in time independent of where they
/// differ: 1 when they are equal (same length and same bytes), 0 otherwise.
pub fn ct_compare(a: &[u8], b: &[u8]) -> (r: u8)
    ensures
        r == (if a@ == b@ { 1u8 } else { 0u8 }),
{
    if a.len() != b.len() {
        return 0;
    }
    let mut result: u8 = 0;
    let n = a.len();
    for i in 0..n
        invariant
            n == a.len(),
            n == b.len(),
            result == 0 <==> (forall|j: int| 0 <= j < i ==> a@[j] == b@[j]),
    {
        let x = a[i];
        let y = b[i];
        let old_result = result;
        result = result | (x ^ y);
        assert((result == 0) <==> (old_result == 0 && x == y)) by (bit_vector)
            requires
                result == old_result | (x ^ y),
        ;
    }
    proof {
        if result == 0 {
            assert(a@ =~= b@);
        }
    }
    ct_eq_zero(result)
}

/// Selects `a` when `select == 1` and `b` when `select == 0`, through a mask
/// made from `select` (other values of `select` mix the bits of both).
pub fn ct_select_u32(select: u8, a: u32, b: u32) -> (r: u32)
    ensures
        r == ((a & (0u32.wrapping_sub(select as u32))) | (b & !(0u32.wrapping_sub(select as u32)))),
        select == 1 ==> r == a,
        select == 0 ==> r == b,
{
    let mask = 0u32.wrapping_sub(select as u32);
    let r = (a & mask) | (b & !mask);
    proof {
        if select == 1 {
            assert(mask == 0xffff_ffffu32);
            assert((a & 0xffff_ffffu32) | (b & !0xffff_ffffu32) == a) by (bit_vector);
        }
        if select == 0 {
            assert(mask == 0u32);
            assert((a & 0u32) | (b & !0u32) == b) by (bit_vector);
        }
    }
    r
}

/// Selects `a` when `select == 1` and `b` when `select == 0`, through the
/// mask `-select` (other values of `select` mix the bits of both).
pub fn ct_select_i32(select: u8, a: i32, b: i32) -> (r: i32)
    ensures
        r == ((a & (-(select as i32)) as i32) | (b & !((-(select as i32)) as i32))),
        select == 1 ==> r == a,
        select == 0 ==> r == b,
{
    let mask: i32 = -(select as i32);
    let r = (a & mask) | (b & !mask);
    proof {
        if select == 1 {
            assert(mask == -1i32);
            assert((a & -1i32) | (b & !(-1i32)) == a) by (bit_vector);
        }
        if select == 0 {
            assert(mask == 0i32);
            assert((a & 0i32) | (b & !0i32) == b) by (bit_vector);
        }
    }
    r
}

/// Returns 1 when `a < b` and 0 otherwise, from the sign of `a - b`.
pub fn ct_lt_i32(a: i32, b: i32) -> (r: u8)
    ensures
        r == (if a < b { 1u8 } else { 0u8 }),
{
    let diff: i64 = (a as i64) - (b as i64);
    let bit: i64 = (diff >> 63u32) & 1i64;
    assert(bit == (if diff < 0 { 1i64 } else { 0i64 })) by (bit_vector)
        requires
            bit == (diff >> 63u32) & 1i64,
    ;
    bit as u8
}

/// Returns 1 when `a > b` and 0 otherwise.
pub fn ct_gt_i32(a: i32, b: i32) -> (r: u8)
    ensures
        r == (if a > b { 1u8 } else { 0u8 }),
{
    ct_lt_i32(b, a)
}

/// Absolute value computed with the sign mask `x >> 31`.
pub fn ct_abs_i32(x: i32) -> (r: i32)
    requires
        x != i32::MIN,
    ensures
        r as int == (if x < 0 { -(x as int) } else { x as int }),
{
    let mask: i32 = x >> 31u32;
    assert(mask == (if x < 0 { -1i32 } else { 0i32 })) by (bit_vector)
        requires
            mask == x >> 31u32,
    ;
    let s: i32 = x + mask;
    let r = s ^ mask;
    assert(r == (if x < 0 { (0i32 - x) as i32 } else { x })) by (bit_vector)
        requires
            x != -2147483648i32,
            mask == (if x < 0 { -1i32 } else { 0i32 }),
            s == x + mask,
            r == s ^ mask,
    ;
    r
}

/// Exchanges `*a` and `*b` when `swap == 1` and leaves them when
/// `swap == 0`, through the mask `-swap` (other values of `swap` exchange
/// only the bits that the mask selects).
pub fn ct_swap_i32(swap: u8, a: &mut i32, b: &mut i32)
    ensures
        *final(a) == *old(a) ^ ((*old(a) ^ *old(b)) & (-(swap as i32)) as i32),
        *final(b) == *old(b) ^ ((*old(a) ^ *old(b)) & (-(swap as i32)) as i32),
        swap == 1 ==> *final(a) == *old(b) && *final(b) == *old(a),
        swap == 0 ==> *final(a) == *old(a) && *final(b) == *old(b),
{
    let mask: i32 = -(swap as i32);
    let x = *a;
    let y = *b;
    let diff = (x ^ y) & mask;
    *a = x ^ diff;
    *b = y ^ diff;
    proof {
        if swap == 1 {
            assert(mask == -1i32);
            assert(x ^ ((x ^ y) & -1i32) == y) by (bit_vector);
            assert(y ^ ((x ^ y) & -1i32) == x) by (bit_vector);
        }
        if swap == 0 {
            assert(mask == 0i32);
            assert(x ^ ((x ^ y) & 0i32) == x) by (bit_vector);
            assert(y ^ ((x ^ y) & 0i32) == y) by (bit_vector);
        }
    }
}

} // verus!
