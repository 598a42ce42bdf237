use hpcrypt_mldsa::hints::{make_hint, make_hint_poly, pack_hints, poly_hint_count, unpack_hints, use_hint, use_hint_poly};
use hpcrypt_mldsa::poly::Poly;
use hpcrypt_mldsa::rounding::{decompose, high_bits, low_bits};
use hpcrypt_mldsa::consts::ALPHA_65;
use hpcrypt_mldsa::Q;

#[test]
fn test_make_hint_no_change() {
    let alpha = 190464; // 2*gamma2 for ML-DSA-44

    let r = 100000;
    let z = 100;

    let hint = make_hint(z, r, alpha);

    let r1 = high_bits(r, alpha);
    let r_plus_z = ((r as i64 + z as i64).rem_euclid(Q as i64)) as i32;
    let v1 = high_bits(r_plus_z, alpha);

    assert_eq!(hint, r1 != v1, "Hint should match high bits comparison");
}

#[test]
fn test_make_hint_with_change() {
    let alpha = 190464;

    let r = 190000;
    let z = 1000;

    let hint = make_hint(z, r, alpha);

    let r1 = high_bits(r, alpha);
    let r_plus_z = ((r as i64 + z as i64).rem_euclid(Q as i64)) as i32;
    let v1 = high_bits(r_plus_z, alpha);

    assert_eq!(hint, r1 != v1, "Hint should match high bits comparison");
}

#[test]
fn hints_test_use_hint_no_hint() {
    let alpha = 190464;
    let r = 100000;

    let result = use_hint(false, r, alpha);
    let expected = high_bits(r, alpha);

    assert_eq!(
        result, expected,
        "UseHint with h=false should return HighBits(r)"
    );
}

#[test]
fn test_make_use_hint_roundtrip() {
    let alpha = 190464;

    for r in (0..1000000).step_by(5000) {
        if r >= Q {
            break;
        }

        for z in [-10000, -1000, -100, 0, 100, 1000, 10000] {
            let hint = make_hint(z, r, alpha);
            let r_plus_z = ((r as i64 + z as i64).rem_euclid(Q as i64)) as i32;

            let recovered = use_hint(hint, r_plus_z, alpha);

            let expected = high_bits(r, alpha);

            assert_eq!(
                recovered, expected,
                "UseHint should recover original high bits: r={}, z={}, hint={}",
                r, z, hint
            );
        }
    }
}

#[test]
fn test_hint_boundary_cases() {
    let alpha = 523776; // 2*gamma2 for ML-DSA-65

    let test_cases = vec![
        0,
        1,
        alpha - 1,
        alpha,
        alpha + 1,
        alpha * 2,
        Q / 2,
        Q - alpha,
        Q - 1,
    ];

    for &r in &test_cases {
        if r >= Q {
            continue;
        }

        for &z in &[-alpha, -1000, -1, 0, 1, 1000, alpha] {
            let hint = make_hint(z, r, alpha);

            let r1 = high_bits(r, alpha);
            let r_plus_z = ((r as i64 + z as i64).rem_euclid(Q as i64)) as i32;
            let v1 = high_bits(r_plus_z, alpha);

            assert_eq!(
                hint,
                r1 != v1,
                "Hint consistency failed at boundary: r={}, z={}",
                r,
                z
            );
        }
    }
}

#[test]
fn test_hint_correctness_property_bounded() {
    let alpha = 190464;
    let gamma2 = alpha / 2;

    for r in (0..Q).step_by(50000) {
        for z in [-gamma2 / 2, -1000, -100, 0, 100, 1000, gamma2 / 2] {
            let h = make_hint(z, r, alpha);
            let r_plus_z = ((r as i64 + z as i64).rem_euclid(Q as i64)) as i32;
            let recovered_r1 = use_hint(h, r_plus_z, alpha);
            let original_r1 = high_bits(r, alpha);

            if z.abs() < gamma2 / 2 {
                assert_eq!(
                    recovered_r1, original_r1,
                    "Hint correctness property violated: r={}, z={}, h={}",
                    r, z, h
                );
            }
        }
    }
}

#[test]
fn test_make_hint() {
    let mut r = Poly::new();
    for i in 0..256 {
        r.coeffs[i] = 100;
    }
    let z = Poly::new();

    let h = make_hint_poly(&z, &r, ALPHA_65);
    let count = poly_hint_count(&h);

    assert_eq!(count, 0);
    for &hint in &h.coeffs {
        assert_eq!(hint, 0);
    }
}

#[test]
fn use_hint_wraps_around_the_top() {
    let alpha = 190464;
    let m = (Q - 1) / alpha;
    // r = m * alpha - 1 lies in the top interval with r0 > 0.
    let r = alpha * (m - 1) + 1000;
    let (r1, r0) = decompose(r, alpha);
    assert_eq!(r1, m - 1);
    assert!(r0 > 0);
    assert_eq!(use_hint(true, r, alpha), 0);
    // r in the first interval with r0 <= 0 wraps down to m - 1.
    let (r1, r0) = decompose(0, alpha);
    assert_eq!((r1, r0), (0, 0));
    assert_eq!(use_hint(true, 0, alpha), m - 1);
}

#[test]
fn hint_poly_roundtrip_recovers_high_bits() {
    let alpha = 523776;
    let mut r = Poly::new();
    let mut z = Poly::new();
    let mut rz = Poly::new();
    for i in 0..256 {
        r.coeffs[i] = ((i as i32) * 32771) % Q;
        z.coeffs[i] = ((i as i32 * 7919) % 200000) - 100000;
        rz.coeffs[i] = ((r.coeffs[i] as i64 + z.coeffs[i] as i64).rem_euclid(Q as i64)) as i32;
    }
    let h = make_hint_poly(&z, &r, alpha);
    let w1 = use_hint_poly(&h, &rz, alpha);
    for i in 0..256 {
        assert_eq!(w1.coeffs[i], high_bits(r.coeffs[i], alpha));
    }
}

#[test]
fn high_bits_unchanged_by_small_shift_when_low_bits_leave_room() {
    let params: [(i32, i32); 2] = [(95232, 78), (261888, 196)];
    for &(gamma2, beta) in params.iter() {
        let alpha = 2 * gamma2;
        let mut r: i32 = 0;
        while r < Q {
            let r0 = low_bits(r, alpha);
            if r0 > -(gamma2 - beta) && r0 < gamma2 - beta {
                for e in [-beta, -1, 0, 1, beta].iter() {
                    let shifted = ((r as i64 + *e as i64).rem_euclid(Q as i64)) as i32;
                    assert_eq!(high_bits(shifted, alpha), high_bits(r, alpha), "r={} e={}", r, e);
                }
            }
            r += 4099;
        }
        // the wrap-around ends of [0, q)
        for &r in [0, 1, Q - 2, Q - 1].iter() {
            let r0 = low_bits(r, alpha);
            if r0 > -(gamma2 - beta) && r0 < gamma2 - beta {
                for e in [-beta, beta].iter() {
                    let shifted = ((r as i64 + *e as i64).rem_euclid(Q as i64)) as i32;
                    assert_eq!(high_bits(shifted, alpha), high_bits(r, alpha), "r={} e={}", r, e);
                }
            }
        }
    }
}

#[test]
fn pack_hints_writes_positions_and_cumulative_counts() {
    let mut h = [Poly::new(), Poly::new()];
    h[0].coeffs[3] = 1;
    h[0].coeffs[200] = 1;
    h[1].coeffs[7] = 1;
    let omega = 4;
    let mut packed = [0xAAu8; 6];
    let r = pack_hints(&h, &mut packed, omega);
    assert_eq!(r, Some(3));
    assert_eq!(packed, [3, 200, 7, 0xAA, 2, 3]);
}

#[test]
fn pack_hints_refuses_more_than_omega_hints() {
    let mut h = [Poly::new()];
    for j in 0..5 {
        h[0].coeffs[j] = 1;
    }
    let mut packed = [0u8; 5];
    assert_eq!(pack_hints(&h, &mut packed, 4), None);
    assert_eq!(packed, [0, 1, 2, 3, 0]);
}

#[test]
fn unpack_hints_undoes_pack_hints() {
    let mut h = [Poly::new(), Poly::new(), Poly::new()];
    h[0].coeffs[255] = 1;
    h[2].coeffs[0] = 1;
    h[2].coeffs[17] = 1;
    let omega = 5;
    let mut packed = [0u8; 8];
    assert_eq!(pack_hints(&h, &mut packed, omega), Some(3));
    let mut out = [Poly::new(), Poly::new(), Poly::new()];
    out[1].coeffs[9] = 5;
    assert!(unpack_hints(&packed, &mut out, omega));
    for k in 0..3 {
        assert_eq!(out[k].coeffs, h[k].coeffs);
    }
}

#[test]
fn unpack_hints_rejects_decreasing_counts() {
    // counts 2 then 1: the second polynomial fails its check.
    let packed = [4u8, 9, 0, 2, 1];
    let mut out = [Poly::new(), Poly::new()];
    out[1].coeffs[0] = 1;
    assert!(!unpack_hints(&packed, &mut out, 3));
    assert_eq!(out[0].coeffs[4], 1);
    assert_eq!(out[0].coeffs[9], 1);
    assert_eq!(poly_hint_count(&out[0]), 2);
    assert_eq!(poly_hint_count(&out[1]), 0);
}

#[test]
fn unpack_hints_rejects_count_above_omega() {
    let packed = [1u8, 2, 3, 4];
    let mut out = [Poly::new()];
    assert!(!unpack_hints(&packed, &mut out, 3));
}

#[test]
fn sample_in_ball_with_tau_zero_is_the_zero_polynomial() {
    let c = hpcrypt_mldsa::sampling::sample_in_ball(&[7u8; 32], 0).unwrap();
    assert_eq!(poly_hint_count(&c), 0);
}

#[test]
fn sample_in_ball_has_tau_signed_ones() {
    let c = hpcrypt_mldsa::sampling::sample_in_ball(&[7u8; 32], 49).unwrap();
    assert_eq!(poly_hint_count(&c), 49);
    for i in 0..256 {
        assert!(c.coeffs[i] >= -1 && c.coeffs[i] <= 1);
    }
}
