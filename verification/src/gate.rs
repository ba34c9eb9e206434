//! The authentication gate: takes the authorization header a request
//! presented, pulls the bearer token out of it, and has the codec
//! check it as an access token.
//!
//! The header arrives as `Option<&str>`: `None` where the request had
//! no authorization header or one that was not readable as text.

use vstd::prelude::*;

use crate::claims::AuthError;
use crate::claims::Claims;
use crate::claims::TokenType;
use crate::codec::verify_result;
use crate::codec::TokenCodec;
use crate::crypto::now_seconds;
use crate::payload::ClaimsView;

verus! {

/// The header a request presented, as a mathematical value.
pub open spec fn header_view(h: Option<&str>) -> Option<Seq<char>> {
    match h {
        Some(x) => Some(x@),
        None => None,
    }
}

/// The scheme marker a credential must start with.
pub open spec fn bearer_prefix() -> Seq<char> {
    seq!['B', 'e', 'a', 'r', 'e', 'r', ' ']
}

/// What bearer-token extraction yields for a header: the text after
/// the 7-character marker, missing-credentials where there is no
/// header, invalid-token where the marker is absent.
pub open spec fn extract_spec(h: Option<Seq<char>>) -> Result<Seq<char>, AuthError> {
    match h {
        None => Err(AuthError::MissingCredentials),
        Some(s) => if s.len() >= 7 && s.subrange(0, 7) == bearer_prefix() {
            Ok(s.skip(7))
        } else {
            Err(AuthError::InvalidToken)
        },
    }
}

/// What authentication yields for a header at time `now`: extraction,
/// then verification as an access token, each failure passed through
/// unchanged.
pub open spec fn authenticate_spec(h: Option<Seq<char>>, now: int, secret: Seq<char>) -> Result<
    ClaimsView,
    AuthError,
> {
    match extract_spec(h) {
        Err(e) => Err(e),
        Ok(t) => verify_result(t, now, Some(TokenType::Access), secret),
    }
}

/// Pulls the bearer token out of an authorization header: exactly
/// [`extract_spec`].
pub fn extract_token_from_header(header: Option<&str>) -> (r: Result<String, AuthError>)
    ensures
        match r {
            Ok(t) => extract_spec(header_view(header)) == Ok::<Seq<char>, AuthError>(t@),
            Err(e) => extract_spec(header_view(header)) == Err::<Seq<char>, AuthError>(e),
        },
{
    let h = match header {
        Some(h) => h,
        None => {
            return Err(AuthError::MissingCredentials);
        },
    };
    proof {
        reveal_strlit("Bearer ");
        assert(("Bearer ")@ =~= bearer_prefix());
    }
    if !crate::payload::expect_lit(h, 0, "Bearer ") {
        proof {
            if h@.len() >= 7 && h@.subrange(0, 7) == bearer_prefix() {
                assert(crate::payload::has_lit(h@, 0, ("Bearer ")@));
            }
        }
        return Err(AuthError::InvalidToken);
    }
    let n = h.unicode_len();
    let t = h.substring_char(7, n);
    proof {
        assert(t@ =~= h@.skip(7));
    }
    Ok(t.to_owned())
}

/// Extraction, then verification as an access token at time `now`:
/// exactly [`authenticate_spec`].
pub fn authenticate_at(codec: &TokenCodec, header: Option<&str>, now: i64) -> (r: Result<
    Claims,
    AuthError,
>)
    ensures
        match r {
            Ok(c) => authenticate_spec(header_view(header), now as int, codec@) == Ok::<
                ClaimsView,
                AuthError,
            >(c@),
            Err(e) => authenticate_spec(header_view(header), now as int, codec@) == Err::<
                ClaimsView,
                AuthError,
            >(e),
        },
{
    let token = match extract_token_from_header(header) {
        Ok(t) => t,
        Err(e) => {
            return Err(e);
        },
    };
    codec.verify_at(token.as_str(), now, Some(TokenType::Access))
}

/// Authentication against the current wall clock: whatever the clock
/// read, the result is exactly what [`authenticate_spec`] yields.
pub fn authenticate(codec: &TokenCodec, header: Option<&str>) -> (r: Result<Claims, AuthError>)
    ensures
        match r {
            Ok(c) => exists|now: int|
                #[trigger] authenticate_spec(header_view(header), now, codec@) == Ok::<
                    ClaimsView,
                    AuthError,
                >(c@),
            Err(e) => exists|now: int|
                #[trigger] authenticate_spec(header_view(header), now, codec@) == Err::<
                    ClaimsView,
                    AuthError,
                >(e),
        },
{
    let now = now_seconds();
    authenticate_at(codec, header, now)
}

} // verus!
