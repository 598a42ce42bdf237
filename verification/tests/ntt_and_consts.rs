use hpcrypt_mldsa::consts::{
    compute_all_shoup_consts, compute_shoup_const, zetas, F, GAMMA1_44, GAMMA1_65, GAMMA2_44,
    GAMMA2_65, QINV,
};
use hpcrypt_mldsa::ntt::{inv_ntt, ntt_scalar};
use hpcrypt_mldsa::poly::Poly;
use hpcrypt_mldsa::reduce::{montgomery_reduce, montgomery_reduce_scalar};
use hpcrypt_mldsa::{N, Q};

fn test_poly(seed: u32) -> [i32; N] {
    let mut poly = [0i32; N];
    let mut state = seed;
    for i in 0..N {
        state = state.wrapping_mul(1103515245).wrapping_add(12345);
        poly[i] = ((state >> 16) as i32) % Q;
    }
    poly
}

fn scalar_montgomery_reduce(a: i64) -> i32 {
    const QINV_U32: u32 = 58728449;
    const Q_I32: i32 = 8380417;

    let t = ((a as i32 as i64) * (QINV_U32 as i64)) as i32;
    let t = ((a - (t as i64) * (Q_I32 as i64)) >> 32) as i32;
    t
}

fn scalar_ntt_radix2(coeffs: &mut [i32; N]) {
    let zetas_table = zetas();

    let mut k = 1usize;
    let mut len = 128usize;

    while len >= 1 {
        let mut start = 0;
        while start < N {
            let zeta = zetas_table[k];
            k += 1;
            for j in start..start + len {
                let t = scalar_montgomery_reduce((zeta as i64) * (coeffs[j + len] as i64));
                coeffs[j + len] = coeffs[j] - t;
                coeffs[j] = coeffs[j] + t;
            }
            start += 2 * len;
        }
        len >>= 1;
    }
}

fn scalar_invntt_radix2(coeffs: &mut [i32; N]) {
    let zetas_table = zetas();

    let mut k = 256usize;
    let mut len = 1usize;

    while len < N {
        let mut start = 0;
        while start < N {
            k -= 1;
            let zeta = -zetas_table[k];
            for j in start..start + len {
                let t = coeffs[j];
                coeffs[j] = t + coeffs[j + len];
                coeffs[j + len] = t - coeffs[j + len];
                coeffs[j + len] = scalar_montgomery_reduce((zeta as i64) * (coeffs[j + len] as i64));
            }
            start += 2 * len;
        }
        len <<= 1;
    }

    for j in 0..N {
        coeffs[j] = scalar_montgomery_reduce((F as i64) * (coeffs[j] as i64));
    }
}

fn from_montgomery_scalar(a: i32) -> i32 {
    let result = scalar_montgomery_reduce(a as i64);
    if result < 0 {
        result + Q
    } else {
        result
    }
}

#[test]
fn test_field_constants() {
    assert_eq!(Q, 8380417);
    assert_eq!(Q, (1 << 23) - (1 << 13) + 1);

    let product = (QINV as i64) * (Q as i64);
    assert_eq!((product & 0xFFFFFFFF) as i32, 1);
}

#[test]
fn test_shoup_computation() {
    let z = zetas();
    let shoup = compute_all_shoup_consts();
    for i in 0..256 {
        let expected = compute_shoup_const(z[i]);
        assert_eq!(shoup[i], expected, "Mismatch at index {}", i);
    }
}

#[test]
fn test_gamma_constants() {
    assert_eq!(GAMMA1_44, 131072);
    assert_eq!(GAMMA1_65, 524288);
    assert_eq!(GAMMA2_44, 95232);
    assert_eq!(GAMMA2_65, 261888);
}

#[test]
fn reduce_test_montgomery_reduce_scalar() {
    let a: i64 = 1000000;
    let result = montgomery_reduce_scalar(a);

    assert!(result > -Q && result < Q, "Result {} out of range", result);
}

#[test]
fn test_scalar_ntt_roundtrip() {
    let original = test_poly(12345);

    let mut poly = original;
    scalar_ntt_radix2(&mut poly);
    scalar_invntt_radix2(&mut poly);

    for i in 0..N {
        poly[i] = from_montgomery_scalar(poly[i]);
    }

    for i in 0..N {
        let expected = ((original[i] % Q) + Q) % Q;
        let actual = ((poly[i] % Q) + Q) % Q;

        assert_eq!(
            expected, actual,
            "Scalar NTT roundtrip failed at index {}: original={}, result={}",
            i, original[i], poly[i]
        );
    }
}

#[test]
fn test_radix2_vs_radix4_ntt() {
    let original = test_poly(12345);

    let mut poly_radix2 = original;
    scalar_ntt_radix2(&mut poly_radix2);

    let mut poly_struct = Poly::new();
    poly_struct.coeffs.copy_from_slice(&original);
    let poly_radix4 = ntt_scalar(&poly_struct);

    let mut mismatches = 0;
    for i in 0..N {
        let r2 = ((poly_radix2[i] % Q) + Q) % Q;
        let r4 = ((poly_radix4.coeffs[i] % Q) + Q) % Q;

        if r2 != r4 {
            if mismatches < 10 {
                println!(
                    "NTT mismatch at index {}: radix2={} (mod: {}), radix4={} (mod: {})",
                    i, poly_radix2[i], r2, poly_radix4.coeffs[i], r4
                );
            }
            mismatches += 1;
        }
    }

    if mismatches > 0 {
        println!("Total mismatches: {}", mismatches);
    }
    assert_eq!(mismatches, 0, "Radix-2 NTT differs from radix-4 NTT in {} positions", mismatches);
}

#[test]
fn test_radix2_fwd_with_crate_inv() {
    fn from_montgomery(a: i32) -> i32 {
        montgomery_reduce(a as i64)
    }

    let original = test_poly(12345);

    let mut poly_array = original;
    scalar_ntt_radix2(&mut poly_array);

    let mut poly_struct = Poly::new();
    for i in 0..N {
        poly_struct.coeffs[i] = ((poly_array[i] % Q) + Q) % Q;
    }
    let mut recovered_struct = inv_ntt(&poly_struct);

    for i in 0..N {
        recovered_struct.coeffs[i] = from_montgomery(recovered_struct.coeffs[i]);
    }

    let mut mismatches = 0;
    for i in 0..N {
        let expected = ((original[i] % Q) + Q) % Q;
        let actual = ((recovered_struct.coeffs[i] % Q) + Q) % Q;

        if expected != actual {
            if mismatches < 10 {
                println!(
                    "Roundtrip mismatch at index {}: original={}, recovered={}",
                    i, expected, actual
                );
            }
            mismatches += 1;
        }
    }

    assert_eq!(mismatches, 0, "Radix-2 fwd + crate inv roundtrip failed in {} positions", mismatches);
}

#[test]
fn test_my_invntt_vs_crate_invntt() {
    let original = test_poly(12345);

    let mut poly_array = original;
    scalar_ntt_radix2(&mut poly_array);

    let mut poly_mine = poly_array;
    scalar_invntt_radix2(&mut poly_mine);

    let mut poly_struct = Poly::new();
    for i in 0..N {
        poly_struct.coeffs[i] = ((poly_array[i] % Q) + Q) % Q;
    }
    let poly_crate = inv_ntt(&poly_struct);

    let mut mismatches = 0;
    for i in 0..N {
        let mine = ((poly_mine[i] % Q) + Q) % Q;
        let crate_val = ((poly_crate.coeffs[i] % Q) + Q) % Q;

        if mine != crate_val {
            if mismatches < 10 {
                println!(
                    "InvNTT mismatch at index {}: mine={}, crate={}",
                    i, mine, crate_val
                );
            }
            mismatches += 1;
        }
    }

    if mismatches > 0 {
        println!("Total invNTT mismatches: {}", mismatches);
    }
    assert_eq!(mismatches, 0, "My invNTT differs from crate invNTT in {} positions", mismatches);
}

#[test]
fn montgomery_reduce_exact_values() {
    // 2^32 * 5 reduces to 5.
    assert_eq!(montgomery_reduce_scalar(5i64 << 32), 5);
    assert_eq!(montgomery_reduce_scalar(0), 0);
}

#[test]
fn shoup_constant_exact_values() {
    // (a * QINV) mod 2^32, read as a signed 32-bit number.
    assert_eq!(compute_shoup_const(1), QINV);
    assert_eq!(compute_shoup_const(0), 0);
    assert_eq!(compute_shoup_const(-1), -QINV);
}

#[test]
fn montgomery_reduce_scalar_accepts_inputs_up_to_q_times_2_pow_32() {
    let q = 8380417i64;
    let a = q * (1i64 << 32) - (1i64 << 31);
    assert_eq!(montgomery_reduce_scalar(a), 4190208);
    let b = -(q * (1i64 << 32) - 1);
    let t = montgomery_reduce_scalar(b);
    assert_eq!(t, -114592);
    assert_eq!(((t as i64) * (1i64 << 32) - b).rem_euclid(q), 0);
}
