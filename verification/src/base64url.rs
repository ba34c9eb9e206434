//! The URL-safe base64 alphabet without padding, as the token wire format
//! uses it: a full specification of the encoding, and trusted wrappers
//! around the `base64` crate that carry it out.

use vstd::prelude::*;

verus! {

/// The code (as a unicode scalar value) of the alphabet character for a
/// six-bit value `v`.
pub open spec fn b64_code_of(v: int) -> u32 {
    if 0 <= v < 26 {
        (65 + v) as u32  // 'A'..='Z'
    } else if 26 <= v < 52 {
        (97 + (v - 26)) as u32  // 'a'..='z'
    } else if 52 <= v < 62 {
        (48 + (v - 52)) as u32  // '0'..='9'
    } else if v == 62 {
        45u32  // '-'
    } else {
        95u32  // '_'
    }
}

/// The alphabet character for a six-bit value.
pub open spec fn b64_char_of(v: int) -> char {
    b64_code_of(v) as char
}

/// The six-bit value of an alphabet character, or -1 for a character
/// outside the alphabet.
pub open spec fn b64_val(c: char) -> int {
    let u = c as u32;
    if 65 <= u < 91 {
        u - 65
    } else if 97 <= u < 123 {
        (u - 97) + 26
    } else if 48 <= u < 58 {
        (u - 48) + 52
    } else if u == 45 {
        62
    } else if u == 95 {
        63
    } else {
        -1
    }
}

/// Whether a character belongs to the URL-safe base64 alphabet.
pub open spec fn is_b64_char(c: char) -> bool {
    b64_val(c) >= 0
}

/// Whether every character of a sequence belongs to the alphabet.
pub open spec fn is_b64_seq(s: Seq<char>) -> bool {
    forall|i: int| 0 <= i < s.len() ==> is_b64_char(#[trigger] s[i])
}

/// The base64url encoding (no padding) of a byte sequence.
pub open spec fn b64_of(b: Seq<u8>) -> Seq<char>
    decreases b.len(),
{
    if b.len() == 0 {
        Seq::<char>::empty()
    } else if b.len() == 1 {
        seq![b64_char_of(b[0] as int / 4), b64_char_of((b[0] as int % 4) * 16)]
    } else if b.len() == 2 {
        seq![
            b64_char_of(b[0] as int / 4),
            b64_char_of((b[0] as int % 4) * 16 + b[1] as int / 16),
            b64_char_of((b[1] as int % 16) * 4),
        ]
    } else {
        seq![
            b64_char_of(b[0] as int / 4),
            b64_char_of((b[0] as int % 4) * 16 + b[1] as int / 16),
            b64_char_of((b[1] as int % 16) * 4 + b[2] as int / 64),
            b64_char_of(b[2] as int % 64),
        ] + b64_of(b.skip(3))
    }
}

/// The unique byte sequence a character sequence encodes, if any: the
/// inverse of [`b64_of`], rejecting non-canonical trailing bits.
pub open spec fn b64_inv(s: Seq<char>) -> Option<Seq<u8>>
    decreases s.len(),
{
    if s.len() == 0 {
        Some(Seq::<u8>::empty())
    } else if s.len() == 1 {
        None
    } else if s.len() == 2 {
        let v0 = b64_val(s[0]);
        let v1 = b64_val(s[1]);
        if v0 >= 0 && v1 >= 0 && v1 % 16 == 0 {
            Some(seq![(v0 * 4 + v1 / 16) as u8])
        } else {
            None
        }
    } else if s.len() == 3 {
        let v0 = b64_val(s[0]);
        let v1 = b64_val(s[1]);
        let v2 = b64_val(s[2]);
        if v0 >= 0 && v1 >= 0 && v2 >= 0 && v2 % 4 == 0 {
            Some(seq![(v0 * 4 + v1 / 16) as u8, ((v1 % 16) * 16 + v2 / 4) as u8])
        } else {
            None
        }
    } else {
        let v0 = b64_val(s[0]);
        let v1 = b64_val(s[1]);
        let v2 = b64_val(s[2]);
        let v3 = b64_val(s[3]);
        if v0 >= 0 && v1 >= 0 && v2 >= 0 && v3 >= 0 {
            match b64_inv(s.skip(4)) {
                Some(rest) => Some(
                    seq![
                        (v0 * 4 + v1 / 16) as u8,
                        ((v1 % 16) * 16 + v2 / 4) as u8,
                        ((v2 % 4) * 64 + v3) as u8,
                    ] + rest,
                ),
                None => None,
            }
        } else {
            None
        }
    }
}

/// Every character the alphabet map produces decodes back to its six-bit
/// value; in particular it lies in the alphabet.
pub proof fn lemma_b64_char_val(v: int)
    requires
        0 <= v < 64,
    ensures
        b64_val(b64_char_of(v)) == v,
        is_b64_char(b64_char_of(v)),
{
    assert(b64_char_of(v) as u32 == b64_code_of(v));
}

/// Encoded sequences use the alphabet only; the dot that separates token
/// segments never appears in them.
pub proof fn lemma_b64_of_alphabet(b: Seq<u8>)
    ensures
        is_b64_seq(b64_of(b)),
        forall|i: int| 0 <= i < b64_of(b).len() ==> #[trigger] b64_of(b)[i] != '.',
    decreases b.len(),
{
    if b.len() == 0 {
    } else if b.len() == 1 {
        lemma_b64_char_val(b[0] as int / 4);
        lemma_b64_char_val((b[0] as int % 4) * 16);
    } else if b.len() == 2 {
        lemma_b64_char_val(b[0] as int / 4);
        lemma_b64_char_val((b[0] as int % 4) * 16 + b[1] as int / 16);
        lemma_b64_char_val((b[1] as int % 16) * 4);
    } else {
        lemma_b64_char_val(b[0] as int / 4);
        lemma_b64_char_val((b[0] as int % 4) * 16 + b[1] as int / 16);
        lemma_b64_char_val((b[1] as int % 16) * 4 + b[2] as int / 64);
        lemma_b64_char_val(b[2] as int % 64);
        lemma_b64_of_alphabet(b.skip(3));
    }
    assert forall|i: int| 0 <= i < b64_of(b).len() implies #[trigger] b64_of(b)[i] != '.' by {
        assert(is_b64_char(b64_of(b)[i]));
        assert(b64_val('.') == -1);
    }
}

/// Decoding an encoded sequence gives the original bytes back.
pub proof fn lemma_b64_roundtrip(b: Seq<u8>)
    ensures
        b64_inv(b64_of(b)) == Some(b),
    decreases b.len(),
{
    let s = b64_of(b);
    if b.len() == 0 {
        assert(b =~= Seq::<u8>::empty());
    } else if b.len() == 1 {
        let x = b[0] as int;
        lemma_b64_char_val(x / 4);
        lemma_b64_char_val((x % 4) * 16);
        assert(((x % 4) * 16) % 16 == 0);
        assert((x / 4) * 4 + ((x % 4) * 16) / 16 == x);
        assert(b64_inv(s).unwrap() =~= b);
    } else if b.len() == 2 {
        let x = b[0] as int;
        let y = b[1] as int;
        lemma_b64_char_val(x / 4);
        lemma_b64_char_val((x % 4) * 16 + y / 16);
        lemma_b64_char_val((y % 16) * 4);
        assert(((y % 16) * 4) % 4 == 0);
        assert(((x % 4) * 16 + y / 16) / 16 == x % 4);
        assert((x / 4) * 4 + x % 4 == x);
        assert(((x % 4) * 16 + y / 16) % 16 == y / 16);
        assert((y / 16) * 16 + ((y % 16) * 4) / 4 == y);
        assert(b64_inv(s).unwrap() =~= b);
    } else {
        let x = b[0] as int;
        let y = b[1] as int;
        let z = b[2] as int;
        lemma_b64_char_val(x / 4);
        lemma_b64_char_val((x % 4) * 16 + y / 16);
        lemma_b64_char_val((y % 16) * 4 + z / 64);
        lemma_b64_char_val(z % 64);
        lemma_b64_roundtrip(b.skip(3));
        assert(s.skip(4) =~= b64_of(b.skip(3)));
        assert(((x % 4) * 16 + y / 16) / 16 == x % 4);
        assert((x / 4) * 4 + x % 4 == x);
        assert(((x % 4) * 16 + y / 16) % 16 == y / 16);
        assert(((y % 16) * 4 + z / 64) / 4 == y % 16);
        assert((y / 16) * 16 + y % 16 == y);
        assert(((y % 16) * 4 + z / 64) % 4 == z / 64);
        assert((z / 64) * 64 + z % 64 == z);
        assert(b64_inv(s).unwrap() =~= b);
    }
}

/// The encoding is injective: equal encodings come from equal bytes.
pub proof fn lemma_b64_of_injective(a: Seq<u8>, b: Seq<u8>)
    requires
        b64_of(a) == b64_of(b),
    ensures
        a == b,
{
    lemma_b64_roundtrip(a);
    lemma_b64_roundtrip(b);
}

/// Relies on `base64`'s `URL_SAFE_NO_PAD` engine: RFC 4648 base64url,
/// no padding.
#[verifier::external_body]
pub(crate) fn b64url_encode(b: &[u8]) -> (r: String)
    ensures
        r@ == b64_of(b@),
{
    <base64::engine::general_purpose::GeneralPurpose as base64::Engine>::encode(
        &base64::engine::general_purpose::URL_SAFE_NO_PAD,
        b,
    )
}

/// Relies on `base64`'s `URL_SAFE_NO_PAD` engine: strict decoding that
/// accepts exactly the canonical encodings (no padding, no stray
/// trailing bits) and rejects everything else.
#[verifier::external_body]
pub(crate) fn b64url_decode(s: &str) -> (r: Option<Vec<u8>>)
    ensures
        match r {
            Some(b) => s@ == b64_of(b@),
            None => forall|b: Seq<u8>| s@ != b64_of(b),
        },
{
    <base64::engine::general_purpose::GeneralPurpose as base64::Engine>::decode(
        &base64::engine::general_purpose::URL_SAFE_NO_PAD,
        s,
    ).ok()
}

} // verus!
