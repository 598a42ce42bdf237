use hpcrypt_mldsa::keygen::{keygen_from_seed, poly_multiply, PublicKey, SecretKey};
use hpcrypt_mldsa::params::{DsaParams, MlDsa44, MlDsa65, MlDsa87};
use hpcrypt_mldsa::poly::Poly;
use hpcrypt_mldsa::Q;

#[test]
fn test_keygen_deterministic() {
    let seed = [42u8; 32];

    let (pk1, sk1) = keygen_from_seed::<MlDsa65>(&seed).unwrap();
    let (pk2, sk2) = keygen_from_seed::<MlDsa65>(&seed).unwrap();

    assert_eq!(pk1.rho, pk2.rho);
    assert_eq!(pk1.tr, pk2.tr);
    assert_eq!(sk1.rho, sk2.rho);
    assert_eq!(sk1.k, sk2.k);
    assert_eq!(sk1.tr, sk2.tr);
}

#[test]
fn test_keygen_different_seeds() {
    let seed1 = [42u8; 32];
    let seed2 = [43u8; 32];

    let (pk1, _sk1) = keygen_from_seed::<MlDsa65>(&seed1).unwrap();
    let (pk2, _sk2) = keygen_from_seed::<MlDsa65>(&seed2).unwrap();

    assert_ne!(pk1.rho, pk2.rho);
}

#[test]
fn test_keygen_t1_dimensions() {
    let seed = [0x55u8; 32];

    let (pk, _sk) = keygen_from_seed::<MlDsa44>(&seed).unwrap();

    assert_eq!(pk.t1.len(), MlDsa44::K);
}

#[test]
fn test_keygen_secret_dimensions() {
    let seed = [0x55u8; 32];

    let (_pk, sk) = keygen_from_seed::<MlDsa65>(&seed).unwrap();

    assert_eq!(sk.s1.len(), MlDsa65::L);
    assert_eq!(sk.s2.len(), MlDsa65::K);
    assert_eq!(sk.t0.len(), MlDsa65::K);
}

#[test]
fn test_keygen_s1_bounded() {
    let seed = [0x33u8; 32];

    let (_pk, sk) = keygen_from_seed::<MlDsa44>(&seed).unwrap();

    for poly in &sk.s1 {
        for &coeff in &poly.coeffs {
            let centered = if coeff > Q / 2 { coeff - Q } else { coeff };
            assert!(
                centered.abs() <= MlDsa44::ETA,
                "s1 coefficient {} out of range [-{}, {}]",
                centered,
                MlDsa44::ETA,
                MlDsa44::ETA
            );
        }
    }
}

#[test]
fn test_keygen_s2_bounded() {
    let seed = [0x33u8; 32];

    let (_pk, sk) = keygen_from_seed::<MlDsa87>(&seed).unwrap();

    for poly in &sk.s2 {
        for &coeff in &poly.coeffs {
            let centered = if coeff > Q / 2 { coeff - Q } else { coeff };
            assert!(
                centered.abs() <= MlDsa87::ETA,
                "s2 coefficient {} out of range [-{}, {}]",
                centered,
                MlDsa87::ETA,
                MlDsa87::ETA
            );
        }
    }
}

#[test]
fn test_keygen_tr_computed() {
    let seed = [0x11u8; 32];

    let (pk, sk) = keygen_from_seed::<MlDsa65>(&seed).unwrap();

    assert_ne!(pk.tr, [0u8; 64]);

    assert_eq!(pk.tr, sk.tr);
}

#[test]
fn test_poly_multiply_zero() {
    let a = Poly::new();
    let b = Poly::new();

    let result = poly_multiply(&a, &b);

    assert!(result.is_zero());
}

#[test]
fn test_poly_multiply_one() {
    let mut a = Poly::new();
    a.coeffs[0] = 1;

    let mut b = Poly::new();
    b.coeffs[0] = 5;
    b.coeffs[1] = 3;

    let result = poly_multiply(&a, &b);

    assert_eq!(result.coeffs[0], 5);
    assert_eq!(result.coeffs[1], 3);
}

#[test]
fn test_poly_multiply_modulo_xn_plus_1() {
    let mut a = Poly::new();
    a.coeffs[255] = 1;

    let mut b = Poly::new();
    b.coeffs[1] = 1;

    let result = poly_multiply(&a, &b);

    let coeff = result.coeffs[0].rem_euclid(Q);
    assert_eq!(coeff, Q - 1, "Expected -1 (mod Q) = {}", Q - 1);
}

#[test]
fn test_keygen_timing_independence() {
    let seeds = [
        [0x00u8; 32],
        [0xFFu8; 32],
        [0x55u8; 32],
        [0xAAu8; 32],
    ];

    for seed in &seeds {
        let (pk, sk) = keygen_from_seed::<MlDsa65>(seed).unwrap();

        assert_eq!(sk.s1.len(), MlDsa65::L);
        assert_eq!(sk.s2.len(), MlDsa65::K);
        assert_eq!(pk.t1.len(), MlDsa65::K);

        for poly in &sk.s1 {
            for &coeff in &poly.coeffs {
                let centered = if coeff > Q / 2 { coeff - Q } else { coeff };
                assert!(centered.abs() <= MlDsa65::ETA);
            }
        }

        for poly in &sk.s2 {
            for &coeff in &poly.coeffs {
                let centered = if coeff > Q / 2 { coeff - Q } else { coeff };
                assert!(centered.abs() <= MlDsa65::ETA);
            }
        }
    }
}

#[test]
fn keygen_t_reconstructs_from_t1_t0() {
    let (pk, sk) = keygen_from_seed::<MlDsa44>(&[7u8; 32]).unwrap();
    for i in 0..MlDsa44::K {
        for j in 0..256 {
            let t = pk.t1[i].coeffs[j] as i64 * 8192 + sk.t0[i].coeffs[j] as i64;
            assert!(t >= 0 && t < Q as i64);
            assert!(sk.t0[i].coeffs[j] > -4096 && sk.t0[i].coeffs[j] <= 4096);
        }
    }
}

#[test]
fn public_key_bytes_roundtrip() {
    let (pk, _sk) = keygen_from_seed::<MlDsa65>(&[9u8; 32]).unwrap();
    let bytes = pk.to_bytes();
    assert_eq!(bytes.len(), 32 + 320 * MlDsa65::K);
    let back = PublicKey::<MlDsa65>::from_bytes(&bytes).unwrap();
    assert_eq!(back.rho, pk.rho);
    assert_eq!(back.t1, pk.t1);
    // tr is H(pkEncode(pk)), the hash that key generation computed.
    assert_eq!(back.tr, pk.tr);
    assert_eq!(back.to_bytes(), bytes);
}

#[test]
fn secret_key_bytes_roundtrip() {
    let (_pk, sk) = keygen_from_seed::<MlDsa44>(&[3u8; 32]).unwrap();
    let bytes = sk.to_bytes();
    assert_eq!(bytes.len(), 128 + 32 * 3 * (4 + 4) + 416 * 4);
    let back = SecretKey::<MlDsa44>::from_bytes(&bytes).unwrap();
    assert_eq!(back.rho, sk.rho);
    assert_eq!(back.k, sk.k);
    assert_eq!(back.tr, sk.tr);
    assert_eq!(back.s1, sk.s1);
    assert_eq!(back.s2, sk.s2);
    assert_eq!(back.t0, sk.t0);
    assert_eq!(back.to_bytes(), bytes);
}

#[test]
fn key_decoding_rejects_wrong_length() {
    let err = PublicKey::<MlDsa65>::from_bytes(&[0u8; 10]).unwrap_err();
    assert_eq!(
        err,
        hpcrypt_mldsa::errors::SerializationError::InvalidLength { expected: 1952, actual: 10 }
    );
    let err = SecretKey::<MlDsa65>::from_bytes(&[0u8; 10]).unwrap_err();
    assert_eq!(
        err,
        hpcrypt_mldsa::errors::SerializationError::InvalidLength { expected: 4032, actual: 10 }
    );
}

fn schoolbook(a: &[i32; 256], b: &[i32; 256]) -> [i64; 256] {
    let q: i64 = 8380417;
    let mut r = [0i64; 256];
    for i in 0..256 {
        for j in 0..256 {
            let p = (a[i] as i64) * (b[j] as i64) % q;
            if i + j < 256 {
                r[i + j] = (r[i + j] + p) % q;
            } else {
                r[i + j - 256] = (r[i + j - 256] - p) % q;
            }
        }
    }
    for k in 0..256 {
        r[k] = ((r[k] % q) + q) % q;
    }
    r
}

#[test]
fn poly_multiply_matches_schoolbook_product() {
    let mut a = Poly::new();
    let mut b = Poly::new();
    let mut x: i64 = 12345;
    for i in 0..256 {
        x = (x * 1103515245 + 12345) % 2147483648;
        a.coeffs[i] = (x % 8380417) as i32 - 4190208;
        x = (x * 1103515245 + 12345) % 2147483648;
        b.coeffs[i] = (x % 17) as i32 - 8;
    }
    let expected = schoolbook(&a.coeffs, &b.coeffs);
    let r = poly_multiply(&a, &b);
    for k in 0..256 {
        assert_eq!(r.coeffs[k] as i64, expected[k]);
    }
}

#[test]
fn poly_multiply_wraps_with_negative_sign() {
    let mut a = Poly::new();
    let mut b = Poly::new();
    a.coeffs[200] = 3;
    b.coeffs[100] = -5;
    let r = poly_multiply(&a, &b);
    // X^200 * X^100 = X^300 = -X^44, so 3 * -5 * -1 = 15 at X^44.
    for k in 0..256 {
        let expected = if k == 44 { 15 } else { 0 };
        assert_eq!(r.coeffs[k], expected);
    }
}

#[test]
fn decoded_and_rebuilt_keys_carry_the_same_precomputed_values() {
    let (pk, sk) = keygen_from_seed::<MlDsa65>(&[42u8; 32]).unwrap();
    let pk2 = PublicKey::<MlDsa65>::from_bytes(&pk.to_bytes()).unwrap();
    assert_eq!(pk2.rho, pk.rho);
    assert_eq!(pk2.tr, pk.tr);
    assert_eq!(pk2.t1, pk.t1);
    assert_eq!(pk2.cached_a_ntt, pk.cached_a_ntt);
    assert_eq!(pk2.t1_scaled_ntt, pk.t1_scaled_ntt);

    let sk2 = SecretKey::<MlDsa65>::from_bytes(&sk.to_bytes()).unwrap();
    assert_eq!(sk2.s1_hat, sk.s1_hat);
    assert_eq!(sk2.s2_hat, sk.s2_hat);
    assert_eq!(sk2.t0_hat, sk.t0_hat);
    assert_eq!(sk2.cached_a_ntt, sk.cached_a_ntt);

    let sk3 = SecretKey::<MlDsa65>::from_components(
        sk.rho,
        sk.k,
        sk.tr,
        sk.s1.clone(),
        sk.s2.clone(),
        sk.t0.clone(),
    );
    assert_eq!(sk3.s1_hat, sk.s1_hat);
    assert_eq!(sk3.s2_hat, sk.s2_hat);
    assert_eq!(sk3.t0_hat, sk.t0_hat);
    assert_eq!(sk3.cached_a_ntt, sk.cached_a_ntt);
    assert_eq!(sk3.cached_a_ntt.len(), MlDsa65::K);
}

#[test]
fn checked_constructors_refuse_bad_shapes() {
    let (pk, sk) = keygen_from_seed::<MlDsa44>(&[9u8; 32]).unwrap();
    let built = PublicKey::<MlDsa44>::try_new(pk.rho, pk.t1.clone(), pk.tr).unwrap();
    assert_eq!(built.t1_scaled_ntt, pk.t1_scaled_ntt);
    let mut bad = pk.t1.clone();
    bad[0].coeffs[3] = 1024;
    assert!(PublicKey::<MlDsa44>::try_new(pk.rho, bad, pk.tr).is_none());
    let mut short = pk.t1.clone();
    short.pop();
    assert!(PublicKey::<MlDsa44>::try_new(pk.rho, short, pk.tr).is_none());

    let rebuilt = SecretKey::<MlDsa44>::try_from_components(
        sk.rho,
        sk.k,
        sk.tr,
        sk.s1.clone(),
        sk.s2.clone(),
        sk.t0.clone(),
    )
    .unwrap();
    assert_eq!(rebuilt.s1_hat, sk.s1_hat);
    let mut bad_s1 = sk.s1.clone();
    bad_s1[0].coeffs[0] = 3; // eta = 2
    assert!(SecretKey::<MlDsa44>::try_from_components(sk.rho, sk.k, sk.tr, bad_s1, sk.s2.clone(), sk.t0.clone()).is_none());
    let mut bad_t0 = sk.t0.clone();
    bad_t0[1].coeffs[0] = -4096;
    assert!(SecretKey::<MlDsa44>::try_from_components(sk.rho, sk.k, sk.tr, sk.s1.clone(), sk.s2.clone(), bad_t0).is_none());
}

#[test]
fn zeroize_erases_the_secret_parts() {
    let (_, mut sk) = keygen_from_seed::<MlDsa65>(&[5u8; 32]).unwrap();
    let rho = sk.rho;
    let tr = sk.tr;
    sk.zeroize();
    assert_eq!(sk.k, [0u8; 32]);
    assert!(sk.s1.is_empty() && sk.s2.is_empty() && sk.t0.is_empty());
    assert!(sk.s1_hat.is_empty() && sk.s2_hat.is_empty() && sk.t0_hat.is_empty());
    assert_eq!(sk.rho, rho);
    assert_eq!(sk.tr, tr);
    assert_eq!(sk.cached_a_ntt.len(), MlDsa65::K);
}
