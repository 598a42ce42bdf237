use hpcrypt_mldsa::batch::{encode_w1, sign_batch, verify_batch, verify_batch_optimized};
use hpcrypt_mldsa::keygen::keygen;
use hpcrypt_mldsa::params::MlDsa65;
use hpcrypt_mldsa::poly::Poly;
use hpcrypt_mldsa::sign::Signature;
use hpcrypt_mldsa::verify::verify;

#[test]
fn test_sign_batch_basic() {
    let (pk, sk) = keygen::<MlDsa65>().unwrap();

    let messages = vec![
        b"Message 1".as_slice(),
        b"Message 2".as_slice(),
        b"Message 3".as_slice(),
    ];

    let signatures = sign_batch(&sk, &messages);

    assert_eq!(signatures.len(), 3);

    for (i, (msg, sig_opt)) in messages.iter().zip(signatures.iter()).enumerate() {
        assert!(sig_opt.is_some(), "Signature {} failed", i);
        let sig = sig_opt.as_ref().unwrap();
        assert!(verify(&pk, msg, sig), "Signature {} verification failed", i);
    }
}

#[test]
fn test_sign_batch_empty() {
    let (_pk, sk) = keygen::<MlDsa65>().unwrap();
    let messages: Vec<&[u8]> = vec![];
    let signatures = sign_batch(&sk, &messages);
    assert_eq!(signatures.len(), 0);
}

#[test]
fn test_verify_batch() {
    let (pk, sk) = keygen::<MlDsa65>().unwrap();

    let messages = vec![
        b"Test 1".as_slice(),
        b"Test 2".as_slice(),
    ];

    let signatures = sign_batch(&sk, &messages);
    let sig_refs: Vec<&Signature<MlDsa65>> = signatures.iter()
        .map(|s| s.as_ref().unwrap())
        .collect();

    let results = verify_batch(&pk, &messages, &sig_refs);

    assert_eq!(results.len(), 2);
    assert!(results[0]);
    assert!(results[1]);
}

#[test]
fn verify_batch_of_four_agrees_with_verify() {
    let (pk, sk) = keygen::<MlDsa65>().unwrap();
    let messages = vec![
        b"one".as_slice(),
        b"two".as_slice(),
        b"three".as_slice(),
        b"four".as_slice(),
        b"five".as_slice(),
    ];
    let signatures = sign_batch(&sk, &messages);
    let mut sigs: Vec<Signature<MlDsa65>> =
        signatures.into_iter().map(|s| s.unwrap()).collect();
    // Spoil one signature and swap two others' messages.
    sigs[1].c_tilde[0] ^= 1;
    let sig_refs: Vec<&Signature<MlDsa65>> = sigs.iter().collect();
    let swapped = vec![
        messages[0],
        messages[1],
        messages[3],
        messages[2],
        messages[4],
    ];
    let results = verify_batch(&pk, &swapped, &sig_refs);
    let optimized = verify_batch_optimized(&pk, &swapped, &sig_refs);
    assert_eq!(results, vec![true, false, false, false, true]);
    assert_eq!(optimized, results);
    for i in 0..5 {
        assert_eq!(results[i], verify(&pk, swapped[i], sig_refs[i]));
    }
}

#[test]
fn encode_w1_packs_low_bits() {
    let mut p = Poly::new();
    p.coeffs[0] = 1;
    p.coeffs[1] = 2;
    p.coeffs[2] = 15;
    p.coeffs[3] = 17; // only the low 4 bits (1) are kept
    let bytes = encode_w1::<MlDsa65>(&[p]);
    assert_eq!(bytes.len(), 128);
    assert_eq!(bytes[0], 0x21);
    assert_eq!(bytes[1], 0x1f);
    assert!(bytes[2..].iter().all(|&b| b == 0));

    let bytes44 = encode_w1::<hpcrypt_mldsa::MlDsa44>(&[p]);
    assert_eq!(bytes44.len(), 192);
    // 6-bit fields 1, 2, 15, 17: bits 1 | 2 << 6 | 15 << 12 | 17 << 18.
    let v: u32 = 1 | (2 << 6) | (15 << 12) | (17 << 18);
    assert_eq!(bytes44[0], (v & 0xff) as u8);
    assert_eq!(bytes44[1], ((v >> 8) & 0xff) as u8);
    assert_eq!(bytes44[2], ((v >> 16) & 0xff) as u8);
}
