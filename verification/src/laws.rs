//! The load-bearing guarantees of the codec, stated over the wire-format
//! specification and proved once and for all.

use vstd::prelude::*;

use crate::base64url::lemma_b64_of_alphabet;
use crate::claims::AuthError;
use crate::claims::TokenType;
use crate::codec::header_b64;
use crate::codec::issued_claims;
use crate::codec::issued_token;
use crate::codec::lemma_find_dot;
use crate::codec::lemma_payload_of_written;
use crate::codec::lemma_token_segments_of_join;
use crate::codec::payload_b64;
use crate::codec::signing_input;
use crate::codec::token_segments;
use crate::codec::token_sig;
use crate::codec::verify_result;
use crate::codec::duration_of;
use crate::payload::wf_claims;
use crate::REFRESH_TOKEN_SECONDS;
use vstd::utf8::encode_utf8;

verus! {

/// A token issued for `(sub, role)` as an access token verifies as an
/// access token, and the claims that come back carry exactly that
/// subject and role.
pub proof fn lemma_issue_then_verify(
    sub: Seq<char>,
    role: Seq<char>,
    now: int,
    t: Seq<char>,
    secret: Seq<char>,
)
    requires
        0 <= now,
        now + REFRESH_TOKEN_SECONDS <= i64::MAX,
        issued_token(t, issued_claims(sub, role, TokenType::Access, now), secret),
    ensures
        verify_result(t, now, Some(TokenType::Access), secret) == Ok::<_, AuthError>(
            issued_claims(sub, role, TokenType::Access, now),
        ),
        issued_claims(sub, role, TokenType::Access, now).sub == sub,
        issued_claims(sub, role, TokenType::Access, now).role == role,
{
    let c = issued_claims(sub, role, TokenType::Access, now);
    lemma_payload_of_written(c);
    assert(header_b64() + seq!['.'] + payload_b64(c) =~= signing_input(c));
}

/// A token never verifies as expired at the moment it was issued,
/// whatever kind it has and whatever kind the caller demands.
pub proof fn lemma_fresh_token_not_expired(
    sub: Seq<char>,
    role: Seq<char>,
    kind: TokenType,
    now: int,
    t: Seq<char>,
    secret: Seq<char>,
    expected: Option<TokenType>,
)
    requires
        0 <= now,
        now + REFRESH_TOKEN_SECONDS <= i64::MAX,
        issued_token(t, issued_claims(sub, role, kind, now), secret),
    ensures
        verify_result(t, now, expected, secret) != Err::<crate::payload::ClaimsView, AuthError>(
            AuthError::Expired,
        ),
{
    let c = issued_claims(sub, role, kind, now);
    lemma_payload_of_written(c);
    assert(duration_of(kind) > 0);
}

/// A token of one kind, demanded as the other kind, is rejected as
/// invalid — reported exactly like any other invalid token — as long
/// as it has not yet expired.
pub proof fn lemma_wrong_kind_rejected(
    sub: Seq<char>,
    role: Seq<char>,
    kind: TokenType,
    expected: TokenType,
    now: int,
    check_time: int,
    t: Seq<char>,
    secret: Seq<char>,
)
    requires
        0 <= now,
        now + REFRESH_TOKEN_SECONDS <= i64::MAX,
        kind != expected,
        check_time <= now + duration_of(kind),
        issued_token(t, issued_claims(sub, role, kind, now), secret),
    ensures
        verify_result(t, check_time, Some(expected), secret) == Err::<crate::payload::ClaimsView,
            _,
        >(AuthError::InvalidToken),
{
    let c = issued_claims(sub, role, kind, now);
    lemma_payload_of_written(c);
    assert(header_b64() + seq!['.'] + payload_b64(c) =~= signing_input(c));
    assert(TokenType::Access.spec_name().len() == 6);
    assert(TokenType::Refresh.spec_name().len() == 7);
}

/// A token whose expiry has passed is reported expired, whatever
/// stands in its signature segment.
pub proof fn lemma_expired_regardless_of_signature(
    c: crate::payload::ClaimsView,
    sg: Seq<char>,
    now: int,
    expected: Option<TokenType>,
    secret: Seq<char>,
)
    requires
        wf_claims(c),
        now > c.exp,
        forall|k: int| 0 <= k < sg.len() ==> #[trigger] sg[k] != '.',
    ensures
        verify_result(
            header_b64() + seq!['.'] + payload_b64(c) + seq!['.'] + sg,
            now,
            expected,
            secret,
        ) == Err::<crate::payload::ClaimsView, _>(AuthError::Expired),
{
    lemma_b64_of_alphabet(encode_utf8(crate::codec::header_json()));
    lemma_b64_of_alphabet(encode_utf8(crate::payload::payload_json(c)));
    lemma_token_segments_of_join(header_b64(), payload_b64(c), sg);
    lemma_payload_of_written(c);
}

/// Replacing the signature segment of an issued, unexpired token by
/// anything else makes verification fail as invalid — whether the
/// replacement is a wrong signature or not a signature segment at all.
pub proof fn lemma_tampered_signature_rejected(
    c: crate::payload::ClaimsView,
    sg2: Seq<char>,
    now: int,
    expected: Option<TokenType>,
    secret: Seq<char>,
)
    requires
        wf_claims(c),
        now <= c.exp,
        sg2 != token_sig(c, secret),
    ensures
        verify_result(signing_input(c) + seq!['.'] + sg2, now, expected, secret) == Err::<
            crate::payload::ClaimsView,
            _,
        >(AuthError::InvalidToken),
{
    let t = signing_input(c) + seq!['.'] + sg2;
    lemma_b64_of_alphabet(encode_utf8(crate::codec::header_json()));
    lemma_b64_of_alphabet(encode_utf8(crate::payload::payload_json(c)));
    assert(t =~= header_b64() + seq!['.'] + payload_b64(c) + seq!['.'] + sg2);
    if exists|k: int| 0 <= k < sg2.len() && sg2[k] == '.' {
        // the replacement introduced a fourth segment: the token no
        // longer splits into three
        let k = choose|k: int| 0 <= k < sg2.len() && sg2[k] == '.';
        let p1 = header_b64().len() as int;
        let p2 = p1 + 1 + payload_b64(c).len() as int;
        crate::codec::lemma_find_dot_at(t, 0, p1);
        crate::codec::lemma_find_dot_at(t, p1 + 1, p2);
        lemma_find_dot(t, p2 + 1);
        let fd = crate::codec::find_dot(t, p2 + 1);
        assert(t[p2 + 1 + k] == '.');
        assert(fd < t.len()) by {
            if fd == t.len() {
                assert(t[p2 + 1 + k] != '.');
            }
        }
        assert(token_segments(t) is None);
    } else {
        lemma_token_segments_of_join(header_b64(), payload_b64(c), sg2);
        lemma_payload_of_written(c);
        assert(header_b64() + seq!['.'] + payload_b64(c) =~= signing_input(c));
    }
}

/// Every issued token expires strictly after it was issued, and an
/// access token lives strictly shorter than a refresh token.
pub proof fn lemma_issued_lifetimes(sub: Seq<char>, role: Seq<char>, kind: TokenType, now: int)
    ensures
        issued_claims(sub, role, kind, now).exp > issued_claims(sub, role, kind, now).iat,
        duration_of(TokenType::Access) < duration_of(TokenType::Refresh),
{
}

/// A header carrying a freshly issued access token under the bearer
/// marker authenticates, and yields exactly the issued claims.
pub proof fn lemma_issue_then_authenticate(
    sub: Seq<char>,
    role: Seq<char>,
    now: int,
    t: Seq<char>,
    secret: Seq<char>,
)
    requires
        0 <= now,
        now + REFRESH_TOKEN_SECONDS <= i64::MAX,
        issued_token(t, issued_claims(sub, role, TokenType::Access, now), secret),
    ensures
        crate::gate::authenticate_spec(
            Some(crate::gate::bearer_prefix() + t),
            now,
            secret,
        ) == Ok::<crate::payload::ClaimsView, AuthError>(
            issued_claims(sub, role, TokenType::Access, now),
        ),
{
    let h = crate::gate::bearer_prefix() + t;
    assert(h.subrange(0, 7) =~= crate::gate::bearer_prefix());
    assert(h.skip(7) =~= t);
    lemma_issue_then_verify(sub, role, now, t, secret);
}

} // verus!
