use hpcrypt_mldsa::errors::{KeyGenError, SerializationError, SignError, VerifyError};

#[test]
fn test_sign_error_display() {
    let err = SignError::RejectionSamplingFailed { attempts: 576 };
    assert!(err.to_string().contains("576"));

    let err = SignError::InvalidSecretKey;
    assert!(err.to_string().contains("Invalid secret key"));
}

#[test]
fn test_verify_error_display() {
    let err = VerifyError::InvalidSignature;
    assert!(err.to_string().contains("invalid"));

    let err = VerifyError::HintBitsExceeded {
        hint_count: 100,
        max_allowed: 80,
    };
    assert!(err.to_string().contains("100"));
    assert!(err.to_string().contains("80"));
}

#[test]
fn test_serialization_error_display() {
    let err = SerializationError::InvalidLength {
        expected: 1952,
        actual: 1000,
    };
    assert!(err.to_string().contains("1952"));
    assert!(err.to_string().contains("1000"));
}

#[test]
fn test_error_equality() {
    let err1 = SignError::RejectionSamplingFailed { attempts: 100 };
    let err2 = SignError::RejectionSamplingFailed { attempts: 100 };
    assert_eq!(err1, err2);

    let err3 = SignError::RejectionSamplingFailed { attempts: 200 };
    assert_ne!(err1, err3);
}

#[test]
fn error_messages_exact() {
    assert_eq!(
        SignError::RejectionSamplingFailed { attempts: 576 }.to_string(),
        "Signature rejection sampling failed after 576 attempts"
    );
    assert_eq!(
        VerifyError::HintBitsExceeded { hint_count: 100, max_allowed: 80 }.to_string(),
        "Hint bits (100) exceed maximum allowed (80) for this parameter set"
    );
    assert_eq!(
        SerializationError::InvalidLength { expected: 0, actual: 1000 }.to_string(),
        "Invalid buffer length: expected 0 bytes, got 1000 bytes"
    );
    assert_eq!(KeyGenError::RngFailure.to_string(), "Random number generation failed");
}
