//! Context strings (FIPS 204, ML-DSA.Sign and ML-DSA.Verify): the message
//! that is signed is 0 || len(ctx) || ctx || M, which separates the domains
//! of signatures made for different purposes.

use vstd::prelude::*;
use crate::keygen::{PublicKey, SecretKey};
use crate::params::DsaParams;
use crate::sign::{Signature, message_rep, sig_values, sign, sign_deterministic, sign_spec, signed_with};
use crate::symmetric::append_bytes;
use crate::verify::{verify, verify_spec};

verus! {

/// Maximum length of a context string (FIPS 204).
pub const MAX_CONTEXT_LENGTH: usize = 255;

/// Errors of the context encoding.
#[derive(Debug, Clone, Copy, PartialEq, Eq, Structural)]
pub enum ContextError {
    /// The context string is longer than 255 bytes.
    ContextTooLong,
}

/// The encoded message 0 || len(ctx) || ctx || M.
pub open spec fn context_encoding(message: Seq<u8>, context: Seq<u8>) -> Seq<u8> {
    seq![0u8, context.len() as u8] + context + message
}

/// The encoded message 0 || len(ctx) || ctx || M; an error exactly when the
/// context is longer than 255 bytes.
pub fn encode_message_with_context(message: &[u8], context: &[u8]) -> (r: Result<Vec<u8>, ContextError>)
    ensures
        context@.len() > MAX_CONTEXT_LENGTH <==> r is Err,
        r matches Err(e) ==> e == ContextError::ContextTooLong,
        r matches Ok(v) ==> v@ == context_encoding(message@, context@),
{
    if context.len() > MAX_CONTEXT_LENGTH {
        return Err(ContextError::ContextTooLong);
    }
    let mut encoded: Vec<u8> = Vec::new();
    encoded.push(0u8);
    encoded.push(context.len() as u8);
    append_bytes(&mut encoded, context);
    append_bytes(&mut encoded, message);
    assert(encoded@ =~= context_encoding(message@, context@));
    Ok(encoded)
}

/// Two context encodings are equal only for the same context and the same
/// message: the encoding separates domains.
pub proof fn lemma_context_encoding_injective(m1: Seq<u8>, c1: Seq<u8>, m2: Seq<u8>, c2: Seq<u8>)
    requires
        c1.len() <= MAX_CONTEXT_LENGTH,
        c2.len() <= MAX_CONTEXT_LENGTH,
        context_encoding(m1, c1) == context_encoding(m2, c2),
    ensures
        c1 == c2,
        m1 == m2,
{
    let e = context_encoding(m1, c1);
    assert(e[1] == c1.len() as u8);
    assert(context_encoding(m2, c2)[1] == c2.len() as u8);
    assert(c1.len() == c2.len());
    assert forall|i: int| 0 <= i < c1.len() implies c1[i] == c2[i] by {
        assert(e[2 + i] == c1[i]);
        assert(context_encoding(m2, c2)[2 + i] == c2[i]);
    }
    assert(c1 =~= c2);
    assert(e.len() == 2 + c1.len() + m1.len());
    assert(context_encoding(m2, c2).len() == 2 + c2.len() + m2.len());
    assert(m1.len() == m2.len());
    assert forall|i: int| 0 <= i < m1.len() implies m1[i] == m2[i] by {
        assert(e[2 + c1.len() + i] == m1[i]);
        assert(context_encoding(m2, c2)[2 + c2.len() + i] == m2[i]);
    }
    assert(m1 =~= m2);
}

/// Signs 0 || len(ctx) || ctx || M; None when the context is longer than
/// 255 bytes, or as `sign`.
pub fn sign_with_context<P: DsaParams>(sk: &SecretKey<P>, message: &[u8], context: &[u8]) -> (r: Option<
    Signature<P>,
>)
    requires
        sk.wf(),
    ensures
        context@.len() > MAX_CONTEXT_LENGTH ==> r is None,
        r matches Some(sig) ==> signed_with(sig, *sk, message_rep(sk.tr@, context_encoding(message@, context@))),
        r matches Some(sig) ==> exists|rnd: Seq<u8>|
            rnd.len() == 32 && #[trigger] sign_spec::<P>(*sk, context_encoding(message@, context@), rnd) == Some(
                sig_values(sig),
            ),
{
    match encode_message_with_context(message, context) {
        Ok(encoded) => sign(sk, encoded.as_slice()),
        Err(_) => None,
    }
}

/// Verifies a signature of 0 || len(ctx) || ctx || M; false when the
/// context is longer than 255 bytes, or as `verify`.
pub fn verify_with_context<P: DsaParams>(
    pk: &PublicKey<P>,
    message: &[u8],
    context: &[u8],
    signature: &Signature<P>,
) -> (ok: bool)
    requires
        pk.wf(),
    ensures
        ok == (context@.len() <= MAX_CONTEXT_LENGTH && verify_spec(
            *pk,
            context_encoding(message@, context@),
            *signature,
        )),
{
    match encode_message_with_context(message, context) {
        Ok(encoded) => verify(pk, encoded.as_slice(), signature),
        Err(_) => false,
    }
}

/// Signs 0 || len(ctx) || ctx || M deterministically with rnd; None when
/// the context is longer than 255 bytes, or as `sign_deterministic`.
pub fn sign_with_context_deterministic<P: DsaParams>(
    sk: &SecretKey<P>,
    message: &[u8],
    context: &[u8],
    rnd: &[u8; 32],
) -> (r: Option<Signature<P>>)
    requires
        sk.wf(),
    ensures
        context@.len() > MAX_CONTEXT_LENGTH ==> r is None,
        r matches Some(sig) ==> signed_with(sig, *sk, message_rep(sk.tr@, context_encoding(message@, context@))),
        match r {
            Some(sig) => sign_spec::<P>(*sk, context_encoding(message@, context@), rnd@) == Some(sig_values(sig)),
            None => context@.len() > MAX_CONTEXT_LENGTH || sign_spec::<P>(
                *sk,
                context_encoding(message@, context@),
                rnd@,
            ) is None,
        },
{
    match encode_message_with_context(message, context) {
        Ok(encoded) => sign_deterministic(sk, encoded.as_slice(), rnd),
        Err(_) => None,
    }
}

} // verus!
