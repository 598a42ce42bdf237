//! Error types of the signing, verification, key generation and encoding
//! operations, with their messages.

use vstd::prelude::*;

verus! {

/// The decimal digit d, for d < 10.
pub open spec fn digit_char(d: nat) -> char {
    if d == 0 {
        '0'
    } else if d == 1 {
        '1'
    } else if d == 2 {
        '2'
    } else if d == 3 {
        '3'
    } else if d == 4 {
        '4'
    } else if d == 5 {
        '5'
    } else if d == 6 {
        '6'
    } else if d == 7 {
        '7'
    } else if d == 8 {
        '8'
    } else {
        '9'
    }
}

/// The decimal representation of n, without leading zeros.
pub open spec fn decimal(n: nat) -> Seq<char>
    decreases n,
{
    if n < 10 {
        seq![digit_char(n)]
    } else {
        decimal(n / 10) + seq![digit_char(n % 10)]
    }
}

fn digit_str(d: usize) -> (s: &'static str)
    requires
        d < 10,
    ensures
        s@ == seq![digit_char(d as nat)],
{
    proof {
        reveal_strlit("0");
        reveal_strlit("1");
        reveal_strlit("2");
        reveal_strlit("3");
        reveal_strlit("4");
        reveal_strlit("5");
        reveal_strlit("6");
        reveal_strlit("7");
        reveal_strlit("8");
        reveal_strlit("9");
    }
    match d {
        0 => "0",
        1 => "1",
        2 => "2",
        3 => "3",
        4 => "4",
        5 => "5",
        6 => "6",
        7 => "7",
        8 => "8",
        _ => "9",
    }
}

/// Appends the decimal representation of n to s.
pub fn push_decimal(s: &mut String, n: usize)
    ensures
        final(s)@ == old(s)@ + decimal(n as nat),
    decreases n,
{
    if n >= 10 {
        push_decimal(s, n / 10);
    }
    s.append(digit_str(n % 10));
    proof {
        assert(final(s)@ =~= old(s)@ + decimal(n as nat));
    }
}

/// Errors that can occur during signing.
#[derive(Debug, Clone, Copy, PartialEq, Eq, Structural)]
pub enum SignError {
    /// Rejection sampling did not produce a signature within the allowed
    /// number of attempts.
    RejectionSamplingFailed {
        /// Number of attempts made before failing.
        attempts: usize,
    },
    /// Invalid secret key format or parameters.
    InvalidSecretKey,
    /// Message too large for signing.
    MessageTooLarge,
    /// Internal cryptographic operation failed.
    InternalError,
}

/// Errors that can occur during verification.
#[derive(Debug, Clone, Copy, PartialEq, Eq, Structural)]
pub enum VerifyError {
    /// The signature does not match the message and public key.
    InvalidSignature,
    /// Invalid public key format or parameters.
    InvalidPublicKey,
    /// The signature bytes do not follow the ML-DSA format.
    MalformedSignature,
    /// Message too large for verification.
    MessageTooLarge,
    /// More hint bits than the parameter set allows.
    HintBitsExceeded {
        /// Number of hint bits in the signature.
        hint_count: usize,
        /// Maximum allowed for this parameter set.
        max_allowed: usize,
    },
    /// Internal cryptographic operation failed.
    InternalError,
}

/// Errors that can occur during key generation.
#[derive(Debug, Clone, Copy, PartialEq, Eq, Structural)]
pub enum KeyGenError {
    /// Random number generation failed.
    RngFailure,
    /// Invalid seed for deterministic key generation.
    InvalidSeed,
    /// Internal cryptographic operation failed.
    InternalError,
}

/// Errors that can occur during serialization and deserialization.
#[derive(Debug, Clone, Copy, PartialEq, Eq, Structural)]
pub enum SerializationError {
    /// Input buffer has the wrong length.
    InvalidLength {
        /// Expected length in bytes.
        expected: usize,
        /// Actual length in bytes.
        actual: usize,
    },
    /// Invalid encoding format.
    InvalidFormat,
    /// PEM encoding error.
    PemError,
    /// DER encoding error.
    DerError,
}

/// The message of a signing error.
pub open spec fn sign_error_message(e: SignError) -> Seq<char> {
    match e {
        SignError::RejectionSamplingFailed { attempts } => "Signature rejection sampling failed after "@
            + decimal(attempts as nat) + " attempts"@,
        SignError::InvalidSecretKey => "Invalid secret key provided"@,
        SignError::MessageTooLarge => "Message exceeds maximum size"@,
        SignError::InternalError => "Internal cryptographic error occurred"@,
    }
}

/// The message of a verification error.
pub open spec fn verify_error_message(e: VerifyError) -> Seq<char> {
    match e {
        VerifyError::InvalidSignature => "Signature verification failed - signature is invalid"@,
        VerifyError::InvalidPublicKey => "Invalid public key provided"@,
        VerifyError::MalformedSignature => "Signature format is malformed or invalid"@,
        VerifyError::MessageTooLarge => "Message exceeds maximum size"@,
        VerifyError::HintBitsExceeded { hint_count, max_allowed } => "Hint bits ("@ + decimal(
            hint_count as nat,
        ) + ") exceed maximum allowed ("@ + decimal(max_allowed as nat)
            + ") for this parameter set"@,
        VerifyError::InternalError => "Internal cryptographic error occurred"@,
    }
}

/// The message of a key generation error.
pub open spec fn keygen_error_message(e: KeyGenError) -> Seq<char> {
    match e {
        KeyGenError::RngFailure => "Random number generation failed"@,
        KeyGenError::InvalidSeed => "Invalid seed provided"@,
        KeyGenError::InternalError => "Internal cryptographic error occurred"@,
    }
}

/// The message of a serialization error.
pub open spec fn serialization_error_message(e: SerializationError) -> Seq<char> {
    match e {
        SerializationError::InvalidLength { expected, actual } => "Invalid buffer length: expected "@
            + decimal(expected as nat) + " bytes, got "@ + decimal(actual as nat) + " bytes"@,
        SerializationError::InvalidFormat => "Invalid encoding format"@,
        SerializationError::PemError => "PEM encoding/decoding error"@,
        SerializationError::DerError => "DER encoding/decoding error"@,
    }
}

impl SignError {
    /// The human-readable message of this error.
    pub fn to_string(&self) -> (s: String)
        ensures
            s@ == sign_error_message(*self),
    {
        let mut s = String::new();
        match self {
            SignError::RejectionSamplingFailed { attempts } => {
                s.append("Signature rejection sampling failed after ");
                push_decimal(&mut s, *attempts);
                s.append(" attempts");
            },
            SignError::InvalidSecretKey => s.append("Invalid secret key provided"),
            SignError::MessageTooLarge => s.append("Message exceeds maximum size"),
            SignError::InternalError => s.append("Internal cryptographic error occurred"),
        }
        proof {
            assert(s@ =~= sign_error_message(*self));
        }
        s
    }
}

impl VerifyError {
    /// The human-readable message of this error.
    pub fn to_string(&self) -> (s: String)
        ensures
            s@ == verify_error_message(*self),
    {
        let mut s = String::new();
        match self {
            VerifyError::InvalidSignature => s.append(
                "Signature verification failed - signature is invalid",
            ),
            VerifyError::InvalidPublicKey => s.append("Invalid public key provided"),
            VerifyError::MalformedSignature => s.append("Signature format is malformed or invalid"),
            VerifyError::MessageTooLarge => s.append("Message exceeds maximum size"),
            VerifyError::HintBitsExceeded { hint_count, max_allowed } => {
                s.append("Hint bits (");
                push_decimal(&mut s, *hint_count);
                s.append(") exceed maximum allowed (");
                push_decimal(&mut s, *max_allowed);
                s.append(") for this parameter set");
            },
            VerifyError::InternalError => s.append("Internal cryptographic error occurred"),
        }
        proof {
            assert(s@ =~= verify_error_message(*self));
        }
        s
    }
}

impl KeyGenError {
    /// The human-readable message of this error.
    pub fn to_string(&self) -> (s: String)
        ensures
            s@ == keygen_error_message(*self),
    {
        let mut s = String::new();
        match self {
            KeyGenError::RngFailure => s.append("Random number generation failed"),
            KeyGenError::InvalidSeed => s.append("Invalid seed provided"),
            KeyGenError::InternalError => s.append("Internal cryptographic error occurred"),
        }
        proof {
            assert(s@ =~= keygen_error_message(*self));
        }
        s
    }
}

impl SerializationError {
    /// The human-readable message of this error.
    pub fn to_string(&self) -> (s: String)
        ensures
            s@ == serialization_error_message(*self),
    {
        let mut s = String::new();
        match self {
            SerializationError::InvalidLength { expected, actual } => {
                s.append("Invalid buffer length: expected ");
                push_decimal(&mut s, *expected);
                s.append(" bytes, got ");
                push_decimal(&mut s, *actual);
                s.append(" bytes");
            },
            SerializationError::InvalidFormat => s.append("Invalid encoding format"),
            SerializationError::PemError => s.append("PEM encoding/decoding error"),
            SerializationError::DerError => s.append("DER encoding/decoding error"),
        }
        proof {
            assert(s@ =~= serialization_error_message(*self));
        }
        s
    }
}

} // verus!
