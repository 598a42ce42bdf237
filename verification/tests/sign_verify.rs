use hpcrypt_mldsa::keygen::{keygen, keygen_from_seed};
use hpcrypt_mldsa::params::{DsaParams, MlDsa44, MlDsa65, MlDsa87};
use hpcrypt_mldsa::sign::{sign, sign_deterministic};
use hpcrypt_mldsa::verify::{check_signature_shape, verify};

#[test]
fn sign_then_verify_all_parameter_sets() {
    let (pk, sk) = keygen_from_seed::<MlDsa44>(&[1u8; 32]).unwrap();
    let sig = sign(&sk, b"message").unwrap();
    assert!(verify(&pk, b"message", &sig));
    assert!(!verify(&pk, b"messagf", &sig));

    let (pk, sk) = keygen_from_seed::<MlDsa65>(&[2u8; 32]).unwrap();
    let sig = sign(&sk, b"message").unwrap();
    assert!(verify(&pk, b"message", &sig));

    let (pk, sk) = keygen_from_seed::<MlDsa87>(&[3u8; 32]).unwrap();
    let sig = sign(&sk, b"").unwrap();
    assert!(verify(&pk, b"", &sig));
}

#[test]
fn signature_shape_and_bounds() {
    let (_pk, sk) = keygen_from_seed::<MlDsa65>(&[4u8; 32]).unwrap();
    let sig = sign_deterministic(&sk, b"abc", &[0u8; 32]).unwrap();
    assert_eq!(sig.c_tilde.len(), MlDsa65::CTILDEBYTES);
    assert_eq!(sig.z.len(), MlDsa65::L);
    assert_eq!(sig.h.len(), MlDsa65::K);
    let bound = MlDsa65::GAMMA1 - MlDsa65::BETA;
    for p in &sig.z {
        for &c in &p.coeffs {
            assert!(c > -bound && c < bound);
        }
    }
    let mut ones = 0;
    for p in &sig.h {
        for &c in &p.coeffs {
            assert!(c == 0 || c == 1);
            ones += c as usize;
        }
    }
    assert!(ones <= MlDsa65::OMEGA);
    assert!(check_signature_shape(&sig));
}

#[test]
fn deterministic_signing_is_repeatable() {
    let (_pk, sk) = keygen_from_seed::<MlDsa44>(&[5u8; 32]).unwrap();
    let a = sign_deterministic(&sk, b"same", &[7u8; 32]).unwrap();
    let b = sign_deterministic(&sk, b"same", &[7u8; 32]).unwrap();
    assert_eq!(a.c_tilde, b.c_tilde);
    assert_eq!(a.z, b.z);
    assert_eq!(a.h, b.h);
}

#[test]
fn verify_rejects_malformed_signatures() {
    let (pk, sk) = keygen::<MlDsa44>().unwrap();
    let sig = sign(&sk, b"payload").unwrap();

    let mut bad = sig.clone();
    bad.z[0].coeffs[5] = MlDsa44::GAMMA1; // norm above gamma1 - beta
    assert!(!check_signature_shape(&bad));
    assert!(!verify(&pk, b"payload", &bad));

    let mut bad = sig.clone();
    bad.c_tilde.pop();
    assert!(!check_signature_shape(&bad));
    assert!(!verify(&pk, b"payload", &bad));

    let mut bad = sig.clone();
    for i in 0..256 {
        bad.h[0].coeffs[i] = 1; // more than omega hints
    }
    assert!(!check_signature_shape(&bad));
    assert!(!verify(&pk, b"payload", &bad));

    let mut bad = sig.clone();
    bad.z.pop();
    assert!(!verify(&pk, b"payload", &bad));

    let (other_pk, _) = keygen::<MlDsa44>().unwrap();
    assert!(!verify(&other_pk, b"payload", &sig));
    assert!(verify(&pk, b"payload", &sig));
}

#[test]
fn verify_rejects_response_at_exactly_gamma1_minus_beta() {
    let (pk, sk) = keygen::<MlDsa44>().unwrap();
    let sig = sign(&sk, b"payload").unwrap();
    let mut bad = sig.clone();
    bad.z[1].coeffs[7] = MlDsa44::GAMMA1 - MlDsa44::BETA;
    assert!(!check_signature_shape(&bad));
    assert!(!verify(&pk, b"payload", &bad));
    let mut bad = sig.clone();
    bad.z[0].coeffs[0] = -(MlDsa44::GAMMA1 - MlDsa44::BETA);
    assert!(!check_signature_shape(&bad));
    let mut ok = sig.clone();
    ok.z[0].coeffs[0] = MlDsa44::GAMMA1 - MlDsa44::BETA - 1;
    assert!(check_signature_shape(&ok));
}
