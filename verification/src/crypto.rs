//! The one cryptographic primitive the codec leans on: the HMAC-SHA256
//! tag of a message under a shared secret, in its base64url form. The
//! tag itself is beyond statement here, so it is only named: a function
//! of the message and the secret alone.

use vstd::prelude::*;

use crate::base64url::is_b64_seq;

verus! {

/// The base64url form of the HMAC-SHA256 tag of `message` under
/// `secret`: what `jsonwebtoken::crypto::sign` returns for HS256.
pub uninterp spec fn sig_of(message: Seq<u8>, secret: Seq<u8>) -> Seq<char>;

/// Relies on `jsonwebtoken::crypto::sign` with `Algorithm::HS256` and a
/// key from `EncodingKey::from_secret`: the result is the base64url
/// encoding (URL-safe alphabet, no padding) of the HMAC-SHA256 tag, a
/// function of the message and secret bytes alone. For an HMAC key from
/// `from_secret` the signer accepts any key length and never fails, so
/// the unwrap cannot panic.
#[verifier::external_body]
pub(crate) fn hs256_sign(message: &[u8], secret: &[u8]) -> (r: String)
    ensures
        r@ == sig_of(message@, secret@),
        is_b64_seq(r@),
{
    jsonwebtoken::crypto::sign(
        message,
        &jsonwebtoken::EncodingKey::from_secret(secret),
        jsonwebtoken::Algorithm::HS256,
    ).unwrap()
}

/// Relies on `chrono::Utc::now`: the current wall-clock time, in whole
/// seconds since the epoch. Nothing is promised of it; every caller
/// handles every value.
#[verifier::external_body]
pub(crate) fn now_seconds() -> i64 {
    chrono::Utc::now().timestamp()
}

} // verus!
