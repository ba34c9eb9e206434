//! The token codec: issues and verifies signed, time-bound tokens.
//!
//! A token is three dot-separated base64url segments: a fixed header,
//! the claims payload, and the HMAC-SHA256 signature of the first two
//! segments under the codec's secret. Issuing and verifying are exact
//! against the wire-format specification below; only the signature
//! primitive and the base64 engine are taken on trust.

use vstd::prelude::*;

use crate::base64url::b64url_decode;
use crate::base64url::b64url_encode;
use crate::base64url::b64_of;
use crate::base64url::lemma_b64_of_alphabet;
use crate::base64url::lemma_b64_of_injective;
use crate::claims::AuthError;
use crate::claims::Claims;
use crate::claims::TokenType;
use crate::crypto::hs256_sign;
use crate::crypto::now_seconds;
use crate::crypto::sig_of;
use crate::payload::build_payload;
use crate::payload::parse_payload;
use crate::payload::parse_payload_text;
use crate::payload::wf_claims;
use crate::payload::ClaimsView;
use crate::strutil::utf8_to_string;
use crate::ACCESS_TOKEN_SECONDS;
use crate::REFRESH_TOKEN_SECONDS;
use vstd::utf8::encode_utf8;

verus! {

/// The response handed back on successful authentication: a fresh
/// access and refresh token pair.
pub struct AuthResponse {
    pub access_token: String,
    pub refresh_token: String,
    pub token_type: String,
    pub expires_in: i64,
}

/// How long a token of each kind lives, in seconds.
pub open spec fn duration_of(kind: TokenType) -> int {
    match kind {
        TokenType::Access => ACCESS_TOKEN_SECONDS as int,
        TokenType::Refresh => REFRESH_TOKEN_SECONDS as int,
    }
}

/// The claims written into a token issued at time `now`.
pub open spec fn issued_claims(sub: Seq<char>, role: Seq<char>, kind: TokenType, now: int) -> ClaimsView {
    ClaimsView {
        sub,
        role,
        exp: now + duration_of(kind),
        iat: now,
        token_type: kind.spec_name(),
    }
}

/// The fixed token header.
pub open spec fn header_json() -> Seq<char> {
    seq![
        '{', '"', 'a', 'l', 'g', '"', ':', '"', 'H', 'S', '2', '5', '6', '"', ',', '"', 't',
        'y', 'p', '"', ':', '"', 'J', 'W', 'T', '"', '}',
    ]
}

/// The header segment of every token.
pub open spec fn header_b64() -> Seq<char> {
    b64_of(encode_utf8(header_json()))
}

/// The payload segment of a token carrying the claims `c`.
pub open spec fn payload_b64(c: ClaimsView) -> Seq<char> {
    b64_of(encode_utf8(crate::payload::payload_json(c)))
}

/// What gets signed: the header and payload segments joined by a dot.
pub open spec fn signing_input(c: ClaimsView) -> Seq<char> {
    header_b64() + seq!['.'] + payload_b64(c)
}

/// The signature segment of a token carrying `c` under `secret`.
pub open spec fn token_sig(c: ClaimsView, secret: Seq<char>) -> Seq<char> {
    sig_of(encode_utf8(signing_input(c)), encode_utf8(secret))
}

/// The one token text that carries the claims `c` under `secret`.
pub open spec fn token_spec(c: ClaimsView, secret: Seq<char>) -> Seq<char> {
    signing_input(c) + seq!['.'] + token_sig(c, secret)
}

/// The position of the first dot at or after `i`, or the length.
pub open spec fn find_dot(s: Seq<char>, i: int) -> int
    decreases s.len() - i,
{
    if 0 <= i < s.len() {
        if s[i] == '.' {
            i
        } else {
            find_dot(s, i + 1)
        }
    } else {
        s.len() as int
    }
}

/// The three dot-separated segments of a token, where it has exactly
/// three.
pub open spec fn token_segments(t: Seq<char>) -> Option<(Seq<char>, Seq<char>, Seq<char>)> {
    let p1 = find_dot(t, 0);
    if p1 == t.len() {
        None
    } else {
        let p2 = find_dot(t, p1 + 1);
        if p2 == t.len() {
            None
        } else if find_dot(t, p2 + 1) != t.len() {
            None
        } else {
            Some(
                (
                    t.subrange(0, p1),
                    t.subrange(p1 + 1, p2),
                    t.subrange(p2 + 1, t.len() as int),
                ),
            )
        }
    }
}

/// A token that was issued for claims `c` under `secret`: its text and
/// its shape.
pub open spec fn issued_token(t: Seq<char>, c: ClaimsView, secret: Seq<char>) -> bool {
    &&& t == token_spec(c, secret)
    &&& token_segments(t) == Some((header_b64(), payload_b64(c), token_sig(c, secret)))
    &&& wf_claims(c)
}

/// The claims a payload segment carries, if it decodes and reads back
/// as a payload text.
pub open spec fn payload_of(p: Seq<char>) -> Option<ClaimsView> {
    if exists|x: Seq<char>| p == b64_of(encode_utf8(x)) {
        parse_payload(choose|x: Seq<char>| p == b64_of(encode_utf8(x)))
    } else {
        None
    }
}

/// What verification of token text `t` at time `now` against `secret`
/// yields, with `expected` the kind the caller demands, if any.
///
/// A token that does not split into header, payload and signature, or
/// whose header or payload is not well-formed, is invalid; a
/// well-formed one past its expiry is expired, whatever its signature;
/// after that a wrong signature or a wrong kind is invalid, and
/// otherwise the carried claims come back.
pub open spec fn verify_result(
    t: Seq<char>,
    now: int,
    expected: Option<TokenType>,
    secret: Seq<char>,
) -> Result<ClaimsView, AuthError> {
    match token_segments(t) {
        None => Err(AuthError::InvalidToken),
        Some((h, p, sg)) => {
            if h != header_b64() {
                Err(AuthError::InvalidToken)
            } else {
                match payload_of(p) {
                    None => Err(AuthError::InvalidToken),
                    Some(c) => {
                        if now > c.exp {
                            Err(AuthError::Expired)
                        } else if sg != sig_of(
                            encode_utf8(h + seq!['.'] + p),
                            encode_utf8(secret),
                        ) {
                            Err(AuthError::InvalidToken)
                        } else {
                            match expected {
                                Some(k) => if c.token_type == k.spec_name() {
                                    Ok(c)
                                } else {
                                    Err(AuthError::InvalidToken)
                                },
                                None => Ok(c),
                            }
                        }
                    },
                }
            }
        },
    }
}

/// Within `[i, j)` there is no dot and `j` holds one (or is the end):
/// then `j` is the first dot from `i`.
pub proof fn lemma_find_dot_at(s: Seq<char>, i: int, j: int)
    requires
        0 <= i <= j <= s.len(),
        forall|k: int| i <= k < j ==> #[trigger] s[k] != '.',
        j == s.len() || s[j] == '.',
    ensures
        find_dot(s, i) == j,
    decreases j - i,
{
    if i < j {
        lemma_find_dot_at(s, i + 1, j);
    }
}

/// Basic shape of [`find_dot`]: it lands on the first dot.
pub proof fn lemma_find_dot(s: Seq<char>, i: int)
    requires
        0 <= i <= s.len(),
    ensures
        i <= find_dot(s, i) <= s.len(),
        find_dot(s, i) < s.len() ==> s[find_dot(s, i)] == '.',
        forall|k: int| i <= k < find_dot(s, i) ==> #[trigger] s[k] != '.',
    decreases s.len() - i,
{
    if i < s.len() && s[i] != '.' {
        lemma_find_dot(s, i + 1);
    }
}

/// Joining three dot-free segments with dots splits back into them.
pub proof fn lemma_token_segments_of_join(h: Seq<char>, p: Seq<char>, sg: Seq<char>)
    requires
        forall|k: int| 0 <= k < h.len() ==> #[trigger] h[k] != '.',
        forall|k: int| 0 <= k < p.len() ==> #[trigger] p[k] != '.',
        forall|k: int| 0 <= k < sg.len() ==> #[trigger] sg[k] != '.',
    ensures
        token_segments(h + seq!['.'] + p + seq!['.'] + sg) == Some((h, p, sg)),
{
    let t = h + seq!['.'] + p + seq!['.'] + sg;
    let p1 = h.len() as int;
    let p2 = p1 + 1 + p.len() as int;
    assert(t.len() == sg.len() + p2 + 1);
    assert(forall|k: int| 0 <= k < p1 ==> #[trigger] t[k] != '.');
    assert(t[p1] == '.');
    lemma_find_dot_at(t, 0, p1);
    assert(forall|k: int| p1 + 1 <= k < p2 ==> #[trigger] t[k] != '.');
    assert(t[p2] == '.');
    lemma_find_dot_at(t, p1 + 1, p2);
    assert(forall|k: int| p2 + 1 <= k < t.len() ==> #[trigger] t[k] != '.');
    lemma_find_dot_at(t, p2 + 1, t.len() as int);
    assert(t.subrange(0, p1) =~= h);
    assert(t.subrange(p1 + 1, p2) =~= p);
    assert(t.subrange(p2 + 1, t.len() as int) =~= sg);
}

/// A well-formed payload segment carries exactly the claims it was
/// written for.
pub proof fn lemma_payload_of_written(c: ClaimsView)
    requires
        wf_claims(c),
    ensures
        payload_of(payload_b64(c)) == Some(c),
{
    let p = payload_b64(c);
    let pj = crate::payload::payload_json(c);
    assert(p == b64_of(encode_utf8(pj)));
    let x0 = choose|x: Seq<char>| p == b64_of(encode_utf8(x));
    lemma_b64_of_injective(encode_utf8(x0), encode_utf8(pj));
    broadcast use vstd::utf8::encode_utf8_decode_utf8;

    assert(vstd::utf8::decode_utf8(encode_utf8(x0)) == x0);
    assert(x0 == pj);
    crate::payload::lemma_payload_roundtrip(c);
}

/// The codec: holds the process-wide shared secret, set once at
/// construction and read-only afterwards.
pub struct TokenCodec {
    secret: String,
}

impl View for TokenCodec {
    type V = Seq<char>;

    closed spec fn view(&self) -> Seq<char> {
        self.secret@
    }
}

impl TokenCodec {
    /// A codec signing and verifying with the given secret.
    pub fn new(secret: String) -> (r: TokenCodec)
        ensures
            r@ == secret@,
    {
        TokenCodec { secret }
    }

    /// Issues the token carrying the claims of `(sub, role, kind)` at
    /// time `now`.
    pub fn issue_at(&self, sub: &str, role: &str, kind: TokenType, now: i64) -> (r: String)
        requires
            0 <= now,
            now + REFRESH_TOKEN_SECONDS <= i64::MAX,
        ensures
            issued_token(r@, issued_claims(sub@, role@, kind, now as int), self@),
    {
        let ghost c = issued_claims(sub@, role@, kind, now as int);
        let exp: i64 = match kind {
            TokenType::Access => now + ACCESS_TOKEN_SECONDS,
            TokenType::Refresh => now + REFRESH_TOKEN_SECONDS,
        };
        let payload = build_payload(sub, role, exp, now, kind);
        let header = "{\"alg\":\"HS256\",\"typ\":\"JWT\"}";
        proof {
            reveal_strlit("{\"alg\":\"HS256\",\"typ\":\"JWT\"}");
            assert(header@ =~= header_json());
            assert(payload@ == crate::payload::payload_json(c));
        }
        let hb = b64url_encode(header.as_bytes());
        let pb = b64url_encode(payload.as_str().as_bytes());
        let mut m = hb;
        m.push('.');
        m.append(pb.as_str());
        proof {
            assert(m@ =~= signing_input(c));
        }
        let sig = hs256_sign(m.as_str().as_bytes(), self.secret.as_str().as_bytes());
        let mut t = m;
        t.push('.');
        t.append(sig.as_str());
        proof {
            assert(t@ =~= token_spec(c, self@));
            lemma_b64_of_alphabet(encode_utf8(header_json()));
            lemma_b64_of_alphabet(encode_utf8(crate::payload::payload_json(c)));
            assert(forall|k: int|
                0 <= k < sig@.len() ==> #[trigger] sig@[k] != '.') by {
                assert(forall|k: int|
                    0 <= k < sig@.len() ==> crate::base64url::is_b64_char(#[trigger] sig@[k]));
                assert(crate::base64url::b64_val('.') == -1);
            }
            lemma_token_segments_of_join(header_b64(), payload_b64(c), token_sig(c, self@));
            assert(wf_claims(c));
        }
        t
    }

    /// Checks `token` at time `now` against the codec's secret, and
    /// against `expected` where one is demanded: exactly
    /// [`verify_result`].
    pub fn verify_at(&self, token: &str, now: i64, expected: Option<TokenType>) -> (r: Result<
        Claims,
        AuthError,
    >)
        ensures
            match r {
                Ok(c) => verify_result(token@, now as int, expected, self@) == Ok::<
                    ClaimsView,
                    AuthError,
                >(c@) && wf_claims(c@),
                Err(e) => verify_result(token@, now as int, expected, self@) == Err::<
                    ClaimsView,
                    AuthError,
                >(e),
            },
    {
        let n = token.unicode_len();
        let p1 = find_dot_at(token, 0);
        if p1 == n {
            return Err(AuthError::InvalidToken);
        }
        let p2 = find_dot_at(token, p1 + 1);
        if p2 == n {
            return Err(AuthError::InvalidToken);
        }
        if find_dot_at(token, p2 + 1) != n {
            return Err(AuthError::InvalidToken);
        }
        let h = token.substring_char(0, p1);
        let p = token.substring_char(p1 + 1, p2);
        let sg = token.substring_char(p2 + 1, n);
        let ghost segs = (h@, p@, sg@);
        proof {
            assert(token_segments(token@) == Some(segs));
        }
        // the header segment must be the one fixed header
        let header = "{\"alg\":\"HS256\",\"typ\":\"JWT\"}";
        proof {
            reveal_strlit("{\"alg\":\"HS256\",\"typ\":\"JWT\"}");
            assert(header@ =~= header_json());
        }
        let hb = b64url_encode(header.as_bytes());
        if !str_eq(h, hb.as_str()) {
            return Err(AuthError::InvalidToken);
        }
        // the payload segment must decode to a well-formed payload text
        let bytes = match b64url_decode(p) {
            Some(b) => b,
            None => {
                proof {
                    lemma_no_preimage_no_payload(p@);
                }
                return Err(AuthError::InvalidToken);
            },
        };
        let text = match utf8_to_string(bytes) {
            Some(x) => x,
            None => {
                proof {
                    lemma_invalid_utf8_no_payload(p@);
                }
                return Err(AuthError::InvalidToken);
            },
        };
        proof {
            lemma_payload_of_decoded(p@, text@);
        }
        let claims = match parse_payload_text(text.as_str()) {
            Some(c) => c,
            None => {
                return Err(AuthError::InvalidToken);
            },
        };
        proof {
            assert(payload_of(p@) == Some(claims@));
            crate::payload::lemma_parse_payload_wf(text@);
        }
        // expiry comes before the signature: an expired token is
        // expired whatever its signature says
        if now > claims.exp {
            return Err(AuthError::Expired);
        }
        // the signature segment must be the tag of the first two
        let mut m = h.to_owned();
        m.push('.');
        m.append(p);
        let expected_sig = hs256_sign(m.as_str().as_bytes(), self.secret.as_str().as_bytes());
        if !str_eq(sg, expected_sig.as_str()) {
            proof {
                assert(m@ =~= h@ + seq!['.'] + p@);
            }
            return Err(AuthError::InvalidToken);
        }
        proof {
            assert(m@ =~= h@ + seq!['.'] + p@);
        }
        // the kind must match where one is demanded
        match expected {
            Some(k) => {
                let name = k.name();
                if str_eq(claims.token_type.as_str(), name.as_str()) {
                    Ok(claims)
                } else {
                    Err(AuthError::InvalidToken)
                }
            },
            None => Ok(claims),
        }
    }
}

impl TokenCodec {
    /// Issues a token for the user and role at the current time:
    /// every token that comes back was issued, at some non-negative
    /// time, for exactly these claims. Fails only when the clock is
    /// outside the range the wire format can carry.
    pub fn generate_token(&self, user_id: &str, role: &str, token_type: TokenType) -> (r: Result<
        String,
        AuthError,
    >)
        ensures
            match r {
                Ok(t) => exists|now: int|
                    0 <= now && now + REFRESH_TOKEN_SECONDS <= i64::MAX && issued_token(
                        t@,
                        #[trigger] issued_claims(user_id@, role@, token_type, now),
                        self@,
                    ),
                Err(e) => e == AuthError::TokenCreation,
            },
    {
        let now = now_seconds();
        if now < 0 || now > i64::MAX - REFRESH_TOKEN_SECONDS {
            return Err(AuthError::TokenCreation);
        }
        let t = self.issue_at(user_id, role, token_type, now);
        proof {
            assert(issued_token(
                t@,
                issued_claims(user_id@, role@, token_type, now as int),
                self@,
            ));
        }
        Ok(t)
    }

    /// Issues the access and refresh pair for a freshly authenticated
    /// user, with the access token's lifetime in `expires_in`.
    pub fn create_tokens(&self, user_id: &str, role: &str) -> (r: Result<AuthResponse, AuthError>)
        ensures
            match r {
                Ok(a) => {
                    &&& a.expires_in == ACCESS_TOKEN_SECONDS
                    &&& a.token_type@ == seq!['B', 'e', 'a', 'r', 'e', 'r']
                    &&& exists|now: int|
                        0 <= now && now + REFRESH_TOKEN_SECONDS <= i64::MAX && issued_token(
                            a.access_token@,
                            #[trigger] issued_claims(user_id@, role@, TokenType::Access, now),
                            self@,
                        )
                    &&& exists|now: int|
                        0 <= now && now + REFRESH_TOKEN_SECONDS <= i64::MAX && issued_token(
                            a.refresh_token@,
                            #[trigger] issued_claims(user_id@, role@, TokenType::Refresh, now),
                            self@,
                        )
                },
                Err(e) => e == AuthError::TokenCreation,
            },
    {
        let access_token = match self.generate_token(user_id, role, TokenType::Access) {
            Ok(t) => t,
            Err(_) => {
                return Err(AuthError::TokenCreation);
            },
        };
        let refresh_token = match self.generate_token(user_id, role, TokenType::Refresh) {
            Ok(t) => t,
            Err(_) => {
                return Err(AuthError::TokenCreation);
            },
        };
        let bearer = String::from_str("Bearer");
        proof {
            reveal_strlit("Bearer");
            assert(bearer@ =~= seq!['B', 'e', 'a', 'r', 'e', 'r']);
        }
        Ok(
            AuthResponse {
                access_token,
                refresh_token,
                token_type: bearer,
                expires_in: ACCESS_TOKEN_SECONDS,
            },
        )
    }

    /// Checks a presented token at the current time: whatever the
    /// clock read, the result is exactly what [`verify_result`] yields
    /// for it.
    pub fn validate_token(&self, token: &str, expected_token_type: Option<TokenType>) -> (r:
        Result<Claims, AuthError>)
        ensures
            match r {
                Ok(c) => exists|now: int|
                    #[trigger] verify_result(token@, now, expected_token_type, self@) == Ok::<
                        ClaimsView,
                        AuthError,
                    >(c@),
                Err(e) => exists|now: int|
                    #[trigger] verify_result(token@, now, expected_token_type, self@) == Err::<
                        ClaimsView,
                        AuthError,
                    >(e),
            },
    {
        let now = now_seconds();
        self.verify_at(token, now, expected_token_type)
    }
}

/// Where nothing encodes to `p`, no payload is carried.
proof fn lemma_no_preimage_no_payload(p: Seq<char>)
    requires
        forall|b: Seq<u8>| p != b64_of(b),
    ensures
        payload_of(p) is None,
{
    if exists|x: Seq<char>| p == b64_of(encode_utf8(x)) {
        let x = choose|x: Seq<char>| p == b64_of(encode_utf8(x));
        assert(p != b64_of(encode_utf8(x)));
    }
}

/// Where `p` encodes bytes that are not valid UTF-8, no payload is
/// carried.
proof fn lemma_invalid_utf8_no_payload(p: Seq<char>)
    requires
        exists|b: Seq<u8>| p == b64_of(b) && !vstd::utf8::valid_utf8(b),
    ensures
        payload_of(p) is None,
{
    let b = choose|b: Seq<u8>| p == b64_of(b) && !vstd::utf8::valid_utf8(b);
    if exists|x: Seq<char>| p == b64_of(encode_utf8(x)) {
        let x = choose|x: Seq<char>| p == b64_of(encode_utf8(x));
        lemma_b64_of_injective(encode_utf8(x), b);
        broadcast use vstd::utf8::encode_utf8_valid_utf8;

        assert(vstd::utf8::valid_utf8(encode_utf8(x)));
    }
}

/// Where `p` decodes to the text `x`, the payload it carries is what
/// the payload reader makes of `x`.
proof fn lemma_payload_of_decoded(p: Seq<char>, x: Seq<char>)
    requires
        p == b64_of(encode_utf8(x)),
    ensures
        payload_of(p) == parse_payload(x),
{
    let x0 = choose|y: Seq<char>| p == b64_of(encode_utf8(y));
    assert(p == b64_of(encode_utf8(x)));
    lemma_b64_of_injective(encode_utf8(x0), encode_utf8(x));
    broadcast use vstd::utf8::encode_utf8_decode_utf8;

    assert(vstd::utf8::decode_utf8(encode_utf8(x0)) == x0);
    assert(x0 == x);
}

/// The position of the first dot at or after `i0`, or the length.
fn find_dot_at(s: &str, i0: usize) -> (r: usize)
    requires
        i0 <= s@.len(),
    ensures
        r as int == find_dot(s@, i0 as int),
        i0 <= r <= s@.len(),
{
    let n = s.unicode_len();
    let mut i = i0;
    loop
        invariant
            i0 <= i <= n,
            n == s@.len(),
            find_dot(s@, i0 as int) == find_dot(s@, i as int),
        ensures
            i as int == find_dot(s@, i0 as int),
        decreases n - i,
    {
        if i >= n {
            break;
        }
        if s.get_char(i) == '.' {
            break;
        }
        i = i + 1;
    }
    i
}

/// Whether two texts hold the same characters.
fn str_eq(a: &str, b: &str) -> (r: bool)
    ensures
        r == (a@ == b@),
{
    let an = a.unicode_len();
    let bn = b.unicode_len();
    if an != bn {
        proof {
            assert(a@ != b@);
        }
        return false;
    }
    let mut i: usize = 0;
    while i < an
        invariant
            an == a@.len(),
            bn == b@.len(),
            an == bn,
            i <= an,
            forall|j: int| 0 <= j < i ==> a@[j] == b@[j],
        decreases an - i,
    {
        if a.get_char(i) != b.get_char(i) {
            return false;
        }
        i = i + 1;
    }
    proof {
        assert(a@ =~= b@);
    }
    true
}

} // verus!
