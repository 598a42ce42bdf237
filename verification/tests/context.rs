use hpcrypt_mldsa::context::{
    encode_message_with_context, sign_with_context, sign_with_context_deterministic,
    verify_with_context, ContextError, MAX_CONTEXT_LENGTH,
};
use hpcrypt_mldsa::keygen::keygen;
use hpcrypt_mldsa::params::MlDsa65;

#[test]
fn test_context_basic() {
    let (pk, sk) = keygen::<MlDsa65>().unwrap();

    let context = b"test-context-v1";
    let message = b"Test message";

    let sig = sign_with_context(&sk, message, context).expect("Signing failed");

    let valid = verify_with_context(&pk, message, context, &sig);
    assert!(valid, "Valid signature with context should verify");
}

#[test]
fn test_context_empty() {
    let (pk, sk) = keygen::<MlDsa65>().unwrap();

    let context = b"";
    let message = b"Test message with empty context";

    let sig = sign_with_context(&sk, message, context).expect("Signing failed");

    let valid = verify_with_context(&pk, message, context, &sig);
    assert!(valid, "Valid signature with empty context should verify");
}

#[test]
fn test_context_mismatch() {
    let (pk, sk) = keygen::<MlDsa65>().unwrap();

    let context1 = b"email-signature";
    let context2 = b"document-signature";
    let message = b"Same message";

    let sig = sign_with_context(&sk, message, context1).expect("Signing failed");

    let valid = verify_with_context(&pk, message, context2, &sig);
    assert!(!valid, "Signature with different context should not verify");
}

#[test]
fn test_context_domain_separation() {
    let (pk, sk) = keygen::<MlDsa65>().unwrap();

    let message = b"Transfer $1000";
    let email_context = b"email-v1";
    let api_context = b"api-v1";

    let email_sig = sign_with_context(&sk, message, email_context).expect("Signing failed");

    let api_sig = sign_with_context(&sk, message, api_context).expect("Signing failed");

    assert!(verify_with_context(&pk, message, email_context, &email_sig));
    assert!(!verify_with_context(&pk, message, api_context, &email_sig));

    assert!(verify_with_context(&pk, message, api_context, &api_sig));
    assert!(!verify_with_context(&pk, message, email_context, &api_sig));
}

#[test]
fn test_context_max_length() {
    let (pk, sk) = keygen::<MlDsa65>().unwrap();

    let max_context = vec![0x42u8; MAX_CONTEXT_LENGTH];
    let message = b"Test with max context";

    let sig =
        sign_with_context(&sk, message, &max_context).expect("Signing with max context failed");

    let valid = verify_with_context(&pk, message, &max_context, &sig);
    assert!(valid, "Signature with max-length context should verify");
}

#[test]
fn test_context_too_long() {
    let (_pk, sk) = keygen::<MlDsa65>().unwrap();

    let too_long_context = vec![0x42u8; MAX_CONTEXT_LENGTH + 1];
    let message = b"Test";

    let result = sign_with_context(&sk, message, &too_long_context);
    assert!(
        result.is_none(),
        "Signing with too-long context should fail"
    );
}

#[test]
fn test_context_deterministic() {
    let (pk, sk) = keygen::<MlDsa65>().unwrap();

    let context = b"deterministic-test";
    let message = b"Deterministic message";
    let rnd = [99u8; 32];

    let sig1 =
        sign_with_context_deterministic(&sk, message, context, &rnd).expect("Signing failed");
    let sig2 =
        sign_with_context_deterministic(&sk, message, context, &rnd).expect("Signing failed");

    assert_eq!(
        sig1.c_tilde, sig2.c_tilde,
        "Deterministic signatures should be identical"
    );

    let valid = verify_with_context(&pk, message, context, &sig1);
    assert!(valid, "Deterministic signature with context should verify");
}

#[test]
fn test_encode_message_format() {
    let message = b"Hello";
    let context = b"test";

    let encoded = encode_message_with_context(message, context).unwrap();

    assert_eq!(encoded[0], 0x00, "First byte should be 0x00");
    assert_eq!(
        encoded[1],
        context.len() as u8,
        "Second byte should be context length"
    );
    assert_eq!(
        &encoded[2..2 + context.len()],
        context,
        "Context should follow"
    );
    assert_eq!(
        &encoded[2 + context.len()..],
        message,
        "Message should be at end"
    );
}

#[test]
fn context_encoding_error_and_exact_bytes() {
    let long = vec![0u8; 256];
    assert_eq!(encode_message_with_context(b"m", &long), Err(ContextError::ContextTooLong));
    assert_eq!(
        encode_message_with_context(b"xy", b"c").unwrap(),
        vec![0u8, 1, b'c', b'x', b'y']
    );
    let (pk, sk) = keygen::<MlDsa65>().unwrap();
    let sig = sign_with_context(&sk, b"m", b"").unwrap();
    assert!(!verify_with_context(&pk, b"m", &long, &sig));
}
