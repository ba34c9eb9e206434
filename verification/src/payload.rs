//! The claims payload: a canonical JSON object
//! `{"sub":...,"role":...,"exp":...,"iat":...,"token_type":...}`.
//! The text is specified as a function of the claims, built by a
//! verified writer and read back by a verified reader.

use vstd::prelude::*;

use crate::claims::Claims;
use crate::claims::TokenType;
use crate::strutil::dec_of;
use crate::strutil::esc;
use crate::strutil::push_dec;
use crate::strutil::push_escaped;

verus! {

/// The claims a token carries, as mathematical values.
#[verifier::ext_equal]
pub struct ClaimsView {
    pub sub: Seq<char>,
    pub role: Seq<char>,
    pub exp: int,
    pub iat: int,
    pub token_type: Seq<char>,
}

/// The claims of a token that the codec can issue: a recognised kind
/// and timestamps that fit the wire representation.
pub open spec fn wf_claims(c: ClaimsView) -> bool {
    &&& (c.token_type == TokenType::Access.spec_name() || c.token_type
        == TokenType::Refresh.spec_name())
    &&& 0 <= c.iat <= i64::MAX
    &&& 0 <= c.exp <= i64::MAX
}

pub open spec fn lit_sub() -> Seq<char> {
    seq!['{', '"', 's', 'u', 'b', '"', ':', '"']
}

pub open spec fn lit_role() -> Seq<char> {
    seq![',', '"', 'r', 'o', 'l', 'e', '"', ':', '"']
}

pub open spec fn lit_exp() -> Seq<char> {
    seq![',', '"', 'e', 'x', 'p', '"', ':']
}

pub open spec fn lit_iat() -> Seq<char> {
    seq![',', '"', 'i', 'a', 't', '"', ':']
}

pub open spec fn lit_tt() -> Seq<char> {
    seq![',', '"', 't', 'o', 'k', 'e', 'n', '_', 't', 'y', 'p', 'e', '"', ':', '"']
}

pub open spec fn lit_end() -> Seq<char> {
    seq!['"', '}']
}

/// The one payload text that carries the claims `c`.
pub open spec fn payload_json(c: ClaimsView) -> Seq<char> {
    lit_sub() + esc(c.sub) + seq!['"'] + lit_role() + esc(c.role) + seq!['"'] + lit_exp() + dec_of(
        c.exp,
    ) + lit_iat() + dec_of(c.iat) + lit_tt() + c.token_type + lit_end()
}

/// Writes the payload text for the given claim values.
pub fn build_payload(sub: &str, role: &str, exp: i64, iat: i64, kind: TokenType) -> (r: String)
    requires
        0 <= exp,
        0 <= iat,
    ensures
        r@ == payload_json(
            ClaimsView {
                sub: sub@,
                role: role@,
                exp: exp as int,
                iat: iat as int,
                token_type: kind.spec_name(),
            },
        ),
{
    let mut s = String::from_str("{\"sub\":\"");
    proof {
        reveal_strlit("{\"sub\":\"");
        assert(s@ =~= lit_sub());
    }
    push_escaped(&mut s, sub);
    s.append("\",\"role\":\"");
    proof {
        reveal_strlit("\",\"role\":\"");
        assert(s@ =~= lit_sub() + esc(sub@) + seq!['"'] + lit_role());
    }
    push_escaped(&mut s, role);
    s.append("\",\"exp\":");
    proof {
        reveal_strlit("\",\"exp\":");
        assert(s@ =~= lit_sub() + esc(sub@) + seq!['"'] + lit_role() + esc(role@) + seq!['"']
            + lit_exp());
    }
    push_dec(&mut s, exp as u64);
    s.append(",\"iat\":");
    proof {
        reveal_strlit(",\"iat\":");
    }
    push_dec(&mut s, iat as u64);
    s.append(",\"token_type\":\"");
    proof {
        reveal_strlit(",\"token_type\":\"");
    }
    let name = kind.name();
    s.append(name.as_str());
    s.append("\"}");
    proof {
        reveal_strlit(",\"iat\":");
        reveal_strlit(",\"token_type\":\"");
        reveal_strlit("\"}");
        assert(s@ =~= payload_json(
            ClaimsView {
                sub: sub@,
                role: role@,
                exp: exp as int,
                iat: iat as int,
                token_type: kind.spec_name(),
            },
        ));
    }
    s
}

/// The decimal value of a digit character, or -1 for any other
/// character.
pub open spec fn digit_val(c: char) -> int {
    let u = c as u32;
    if 48 <= u < 58 {
        u - 48
    } else {
        -1
    }
}

pub open spec fn is_digit(c: char) -> bool {
    digit_val(c) >= 0
}

/// The first position at or after `i` that does not hold a digit.
pub open spec fn num_end(s: Seq<char>, i: int) -> int
    decreases s.len() - i,
{
    if 0 <= i < s.len() && is_digit(s[i]) {
        num_end(s, i + 1)
    } else {
        i
    }
}

/// The value of the digit run `s[i..j]`.
pub open spec fn num_val(s: Seq<char>, i: int, j: int) -> int
    decreases j - i,
{
    if i >= j {
        0
    } else {
        num_val(s, i, j - 1) * 10 + digit_val(s[j - 1])
    }
}

/// Reading a quoted string from position `i`: the unescaped content and
/// the position after the closing quote, or nothing if the text ends or
/// an invalid escape appears before one.
pub open spec fn unesc_at(s: Seq<char>, i: int) -> Option<(Seq<char>, int)>
    decreases s.len() - i,
{
    if i < 0 || i >= s.len() {
        None
    } else if s[i] == '"' {
        Some((Seq::<char>::empty(), i + 1))
    } else if s[i] == '\\' {
        if i + 1 < s.len() && (s[i + 1] == '"' || s[i + 1] == '\\') {
            match unesc_at(s, i + 2) {
                Some((t, j)) => Some((seq![s[i + 1]] + t, j)),
                None => None,
            }
        } else {
            None
        }
    } else {
        match unesc_at(s, i + 1) {
            Some((t, j)) => Some((seq![s[i]] + t, j)),
            None => None,
        }
    }
}

/// Whether `lit` appears in `s` at position `i`.
pub open spec fn has_lit(s: Seq<char>, i: int, lit: Seq<char>) -> bool {
    0 <= i && i + lit.len() <= s.len() && s.subrange(i, i + lit.len() as int) == lit
}

/// The claims that a payload text carries, if it is well-formed.
pub open spec fn parse_payload(s: Seq<char>) -> Option<ClaimsView> {
    if !has_lit(s, 0, lit_sub()) {
        None
    } else {
        match unesc_at(s, 8) {
            None => None,
            Some((sub, i1)) => if !has_lit(s, i1, lit_role()) {
                None
            } else {
                match unesc_at(s, i1 + 9) {
                    None => None,
                    Some((role, i3)) => if !has_lit(s, i3, lit_exp()) {
                        None
                    } else {
                        let i4 = i3 + 7;
                        let j1 = num_end(s, i4);
                        if j1 == i4 || num_val(s, i4, j1) > i64::MAX {
                            None
                        } else if !has_lit(s, j1, lit_iat()) {
                            None
                        } else {
                            let i5 = j1 + 7;
                            let j2 = num_end(s, i5);
                            if j2 == i5 || num_val(s, i5, j2) > i64::MAX {
                                None
                            } else if !has_lit(s, j2, lit_tt()) {
                                None
                            } else {
                                let i6 = j2 + 15;
                                if s.len() == i6 + 8 && s.subrange(i6, s.len() as int)
                                    == TokenType::Access.spec_name() + lit_end() {
                                    Some(ClaimsView {
                                        sub,
                                        role,
                                        exp: num_val(s, i4, j1),
                                        iat: num_val(s, i5, j2),
                                        token_type: TokenType::Access.spec_name(),
                                    })
                                } else if s.len() == i6 + 9 && s.subrange(i6, s.len() as int)
                                    == TokenType::Refresh.spec_name() + lit_end() {
                                    Some(ClaimsView {
                                        sub,
                                        role,
                                        exp: num_val(s, i4, j1),
                                        iat: num_val(s, i5, j2),
                                        token_type: TokenType::Refresh.spec_name(),
                                    })
                                } else {
                                    None
                                }
                            }
                        }
                    },
                }
            },
        }
    }
}

/// Everything before the end of a digit run is a digit, and the run
/// only moves forward.
pub proof fn lemma_num_end_digits(s: Seq<char>, i: int)
    ensures
        i <= num_end(s, i),
        num_end(s, i) <= s.len() || num_end(s, i) == i,
        forall|k: int| i <= k < num_end(s, i) ==> is_digit(#[trigger] s[k]),
    decreases s.len() - i,
{
    if 0 <= i < s.len() && is_digit(s[i]) {
        lemma_num_end_digits(s, i + 1);
    }
}

/// Digit runs never have negative values.
pub proof fn lemma_num_val_nonneg(s: Seq<char>, i: int, j: int)
    requires
        forall|k: int| i <= k < j ==> is_digit(#[trigger] s[k]),
    ensures
        num_val(s, i, j) >= 0,
    decreases j - i,
{
    if i < j {
        lemma_num_val_nonneg(s, i, j - 1);
    }
}

/// A parsed payload always carries claims the codec could have issued.
pub proof fn lemma_parse_payload_wf(s: Seq<char>)
    ensures
        parse_payload(s) is Some ==> wf_claims(parse_payload(s).unwrap()),
{
    if parse_payload(s) is Some {
        let (sub, i1) = unesc_at(s, 8).unwrap();
        let (role, i3) = unesc_at(s, i1 + 9).unwrap();
        let i4 = i3 + 7;
        let j1 = num_end(s, i4);
        let i5 = j1 + 7;
        let j2 = num_end(s, i5);
        lemma_num_end_digits(s, i4);
        lemma_num_val_nonneg(s, i4, j1);
        lemma_num_end_digits(s, i5);
        lemma_num_val_nonneg(s, i5, j2);
    }
}

/// The exec digit table and [`digit_val`] agree.
pub proof fn lemma_digit_char_val(d: int)
    requires
        0 <= d < 10,
    ensures
        digit_val(crate::strutil::digit_char(d)) == d,
        is_digit(crate::strutil::digit_char(d)),
{
    assert(crate::strutil::digit_char(d) as u32 == 48 + d);
}

/// Decimal renderings are non-empty and consist of digits.
pub proof fn lemma_dec_of_digits(n: int)
    requires
        0 <= n,
    ensures
        dec_of(n).len() >= 1,
        forall|k: int| 0 <= k < dec_of(n).len() ==> is_digit(#[trigger] dec_of(n)[k]),
    decreases n,
{
    if n < 10 {
        lemma_digit_char_val(n);
    } else {
        lemma_dec_of_digits(n / 10);
        lemma_digit_char_val(n % 10);
    }
}

/// A digit run that stops at a non-digit ends exactly there.
pub proof fn lemma_num_end_of_run(s: Seq<char>, i: int, j: int)
    requires
        0 <= i <= j <= s.len(),
        forall|k: int| i <= k < j ==> is_digit(#[trigger] s[k]),
        j == s.len() || !is_digit(s[j]),
    ensures
        num_end(s, i) == j,
    decreases j - i,
{
    if i < j {
        lemma_num_end_of_run(s, i + 1, j);
    }
}

/// Reading back a decimal rendering gives the number.
pub proof fn lemma_dec_of_num(s: Seq<char>, i: int, n: int)
    requires
        0 <= i,
        0 <= n,
        i + dec_of(n).len() <= s.len(),
        s.subrange(i, i + dec_of(n).len() as int) == dec_of(n),
    ensures
        num_val(s, i, i + dec_of(n).len() as int) == n,
    decreases n,
{
    let len = dec_of(n).len() as int;
    if n < 10 {
        assert(s[i] == dec_of(n)[0]);
        lemma_digit_char_val(n);
        assert(num_val(s, i, i) == 0);
    } else {
        lemma_dec_of_digits(n / 10);
        assert(s.subrange(i, i + (len - 1)) =~= dec_of(n / 10)) by {
            assert(forall|k: int|
                0 <= k < len - 1 ==> #[trigger] s.subrange(i, i + len)[k] == dec_of(n)[k]);
        }
        lemma_dec_of_num(s, i, n / 10);
        assert(s[i + len - 1] == s.subrange(i, i + len)[len - 1]);
        assert(s[i + len - 1] == crate::strutil::digit_char(n % 10));
        lemma_digit_char_val(n % 10);
        assert(num_val(s, i, i + len) == (n / 10) * 10 + n % 10);
    }
}

/// Reading a quoted string back from its escaped form gives the
/// original content and stops right after the closing quote.
pub proof fn lemma_unesc_esc(s: Seq<char>, i: int, x: Seq<char>)
    requires
        0 <= i,
        i + esc(x).len() + 1 <= s.len(),
        s.subrange(i, i + esc(x).len() + 1) == esc(x) + seq!['"'],
    ensures
        unesc_at(s, i) == Some((x, i + esc(x).len() + 1)),
    decreases x.len(),
{
    let e = esc(x);
    let whole = s.subrange(i, i + e.len() + 1);
    if x.len() == 0 {
        assert(s[i] == whole[0]);
        assert(s[i] == '"');
        assert(unesc_at(s, i) == Some((Seq::<char>::empty(), i + 1)));
        assert(x =~= Seq::<char>::empty());
    } else {
        let xr = x.skip(1);
        let er = esc(xr);
        assert(e =~= crate::strutil::esc_char(x[0]) + er);
        if x[0] == '"' || x[0] == '\\' {
            assert(s[i] == whole[0]);
            assert(s[i + 1] == whole[1]);
            assert(s[i] == '\\');
            assert(s[i + 1] == x[0]);
            assert(s.subrange(i + 2, i + 2 + er.len() + 1) =~= er + seq!['"']) by {
                assert(forall|k: int|
                    0 <= k < er.len() + 1 ==> #[trigger] s.subrange(i + 2, i + 2 + er.len() + 1)[k]
                        == whole[k + 2]);
            }
            lemma_unesc_esc(s, i + 2, xr);
            assert(seq![s[i + 1]] + xr =~= x);
        } else {
            assert(s[i] == whole[0]);
            assert(s[i] == x[0]);
            assert(s[i] != '"' && s[i] != '\\');
            assert(s.subrange(i + 1, i + 1 + er.len() + 1) =~= er + seq!['"']) by {
                assert(forall|k: int|
                    0 <= k < er.len() + 1 ==> #[trigger] s.subrange(i + 1, i + 1 + er.len() + 1)[k]
                        == whole[k + 1]);
            }
            lemma_unesc_esc(s, i + 1, xr);
            assert(seq![s[i]] + xr =~= x);
        }
    }
}

/// Reading back the payload written for claims `c` gives `c`: the
/// payload text round-trips.
#[verifier::rlimit(60)]
pub proof fn lemma_payload_roundtrip(c: ClaimsView)
    requires
        wf_claims(c),
    ensures
        parse_payload(payload_json(c)) == Some(c),
{
    let s = payload_json(c);
    let e1 = esc(c.sub);
    let e2 = esc(c.role);
    let d1 = dec_of(c.exp);
    let d2 = dec_of(c.iat);
    let tt = c.token_type;
    lemma_dec_of_digits(c.exp);
    lemma_dec_of_digits(c.iat);
    let i1 = 9 + e1.len() as int;
    let i3 = i1 + 9 + e2.len() as int + 1;
    let i4 = i3 + 7;
    let j1 = i4 + d1.len() as int;
    let i5 = j1 + 7;
    let j2 = i5 + d2.len() as int;
    let i6 = j2 + 15;
    assert(s.len() == i6 + tt.len() as int + 2);

    // the opening literal
    assert(s.subrange(0, 8) =~= lit_sub());
    // the subject string
    assert(s.subrange(8, 8 + e1.len() as int + 1) =~= e1 + seq!['"']);
    lemma_unesc_esc(s, 8, c.sub);
    assert(unesc_at(s, 8) == Some((c.sub, i1)));
    // the role literal and string
    assert(s.subrange(i1, i1 + 9) =~= lit_role());
    assert(s.subrange(i1 + 9, i1 + 9 + e2.len() as int + 1) =~= e2 + seq!['"']);
    lemma_unesc_esc(s, i1 + 9, c.role);
    assert(unesc_at(s, i1 + 9) == Some((c.role, i3)));
    // the expiry
    assert(s.subrange(i3, i3 + 7) =~= lit_exp());
    assert(s.subrange(i4, j1) =~= d1);
    assert(forall|k: int| i4 <= k < j1 ==> is_digit(#[trigger] s[k])) by {
        assert(forall|k: int| i4 <= k < j1 ==> s[k] == #[trigger] s.subrange(i4, j1)[k - i4]);
    }
    assert(s[j1] == ',') by {
        assert(s.subrange(j1, j1 + 7)[0] == s[j1]);
    }
    assert(!is_digit(','));
    lemma_num_end_of_run(s, i4, j1);
    lemma_dec_of_num(s, i4, c.exp);
    assert(num_val(s, i4, j1) == c.exp);
    // the issue time
    assert(s.subrange(j1, j1 + 7) =~= lit_iat());
    assert(s.subrange(i5, j2) =~= d2);
    assert(forall|k: int| i5 <= k < j2 ==> is_digit(#[trigger] s[k])) by {
        assert(forall|k: int| i5 <= k < j2 ==> s[k] == #[trigger] s.subrange(i5, j2)[k - i5]);
    }
    assert(s[j2] == ',') by {
        assert(s.subrange(j2, j2 + 15)[0] == s[j2]);
    }
    lemma_num_end_of_run(s, i5, j2);
    lemma_dec_of_num(s, i5, c.iat);
    assert(num_val(s, i5, j2) == c.iat);
    // the kind
    assert(s.subrange(j2, j2 + 15) =~= lit_tt());
    assert(s.subrange(i6, s.len() as int) =~= tt + lit_end());
    if tt == TokenType::Access.spec_name() {
        assert(s.len() == i6 + 8);
        assert(parse_payload(s) == Some(
            ClaimsView {
                sub: c.sub,
                role: c.role,
                exp: c.exp,
                iat: c.iat,
                token_type: TokenType::Access.spec_name(),
            },
        ));
        assert(parse_payload(s).unwrap() =~= c);
    } else {
        assert(tt == TokenType::Refresh.spec_name());
        assert(s.len() == i6 + 9);
        assert(s.len() != i6 + 8);
        assert(parse_payload(s).unwrap() =~= c);
    }
}

/// A digit run's value only grows as the run extends.
proof fn lemma_num_val_grows(s: Seq<char>, i: int, j: int, k: int)
    requires
        i <= j <= k,
        num_val(s, i, j) >= 0,
        forall|m: int| j <= m < k ==> is_digit(#[trigger] s[m]),
    ensures
        num_val(s, i, k) >= num_val(s, i, j),
    decreases k - j,
{
    if j < k {
        assert(is_digit(s[j]));
        assert(num_val(s, i, j + 1) == num_val(s, i, j) * 10 + digit_val(s[j]));
        lemma_num_val_grows(s, i, j + 1, k);
    }
}

/// Whether `lit` stands in `s` at position `i0`.
pub(crate) fn expect_lit(s: &str, i0: usize, lit: &str) -> (r: bool)
    requires
        i0 <= s@.len(),
    ensures
        r == has_lit(s@, i0 as int, lit@),
{
    let n = s.unicode_len();
    let m = lit.unicode_len();
    if m > n - i0 {
        return false;
    }
    let mut k: usize = 0;
    while k < m
        invariant
            n == s@.len(),
            m == lit@.len(),
            i0 + m <= n,
            k <= m,
            forall|j: int| 0 <= j < k ==> s@[i0 + j] == #[trigger] lit@[j],
        decreases m - k,
    {
        let a = s.get_char(i0 + k);
        let b = lit.get_char(k);
        if a != b {
            proof {
                if has_lit(s@, i0 as int, lit@) {
                    assert(s@.subrange(i0 as int, i0 as int + lit@.len() as int)[k as int]
                        == lit@[k as int]);
                }
            }
            return false;
        }
        k = k + 1;
    }
    proof {
        assert(s@.subrange(i0 as int, i0 as int + lit@.len() as int) =~= lit@);
    }
    true
}

/// What remains of a quoted-string read once `acc` has been taken.
spec fn unesc_cont(s: Seq<char>, i: int, acc: Seq<char>) -> Option<(Seq<char>, int)> {
    match unesc_at(s, i) {
        Some((t, j)) => Some((acc + t, j)),
        None => None,
    }
}

/// Reads a quoted string starting at `i0`, returning its unescaped
/// content and the position after the closing quote.
fn read_string(s: &str, i0: usize) -> (r: Option<(String, usize)>)
    requires
        i0 <= s@.len(),
    ensures
        match r {
            Some(p) => unesc_at(s@, i0 as int) == Some((p.0@, p.1 as int)) && i0 < p.1
                && p.1 <= s@.len(),
            None => unesc_at(s@, i0 as int) is None,
        },
{
    let n = s.unicode_len();
    let mut acc = String::new();
    let mut i = i0;
    loop
        invariant
            i0 <= i <= n,
            n == s@.len(),
            unesc_cont(s@, i as int, acc@) == unesc_at(s@, i0 as int),
        decreases n - i,
    {
        if i >= n {
            return None;
        }
        let c = s.get_char(i);
        if c == '"' {
            proof {
                assert(acc@ + Seq::<char>::empty() =~= acc@);
            }
            return Some((acc, i + 1));
        } else if c == '\\' {
            if i + 1 >= n {
                return None;
            }
            let d = s.get_char(i + 1);
            if d == '"' || d == '\\' {
                proof {
                    if unesc_at(s@, i as int + 2) is Some {
                        let (t, j) = unesc_at(s@, i as int + 2).unwrap();
                        assert(acc@.push(d) + t =~= acc@ + (seq![d] + t));
                    }
                }
                acc.push(d);
                i = i + 2;
            } else {
                return None;
            }
        } else {
            proof {
                if unesc_at(s@, i as int + 1) is Some {
                    let (t, j) = unesc_at(s@, i as int + 1).unwrap();
                    assert(acc@.push(c) + t =~= acc@ + (seq![c] + t));
                }
            }
            acc.push(c);
            i = i + 1;
        }
    }
}

/// Reads a run of digits starting at `i0` as a non-negative `i64`,
/// failing when there is no digit or the value does not fit.
fn read_number(s: &str, i0: usize) -> (r: Option<(i64, usize)>)
    requires
        i0 <= s@.len(),
    ensures
        match r {
            Some(p) => p.1 as int == num_end(s@, i0 as int) && i0 < p.1 && p.1 <= s@.len()
                && 0 <= p.0 && p.0 as int == num_val(s@, i0 as int, p.1 as int),
            None => num_end(s@, i0 as int) == i0 as int || num_val(
                s@,
                i0 as int,
                num_end(s@, i0 as int),
            ) > i64::MAX,
        },
{
    let n = s.unicode_len();
    let ghost ne = num_end(s@, i0 as int);
    let mut i = i0;
    let mut v: i64 = 0;
    loop
        invariant
            i0 <= i <= n,
            n == s@.len(),
            ne == num_end(s@, i0 as int),
            num_end(s@, i as int) == ne,
            0 <= v,
            v as int == num_val(s@, i0 as int, i as int),
        ensures
            i0 <= i <= n,
            ne == i,
            0 <= v,
            v as int == num_val(s@, i0 as int, i as int),
        decreases n - i,
    {
        if i >= n {
            break;
        }
        let c = s.get_char(i);
        let u = c as u32;
        if u < 48 || u >= 58 {
            proof {
                assert(!is_digit(s@[i as int]));
                assert(num_end(s@, i as int) == i);
            }
            break;
        }
        let d = (u - 48) as i64;
        proof {
            assert(is_digit(s@[i as int]));
            assert(digit_val(s@[i as int]) == d);
            assert(num_val(s@, i0 as int, i as int + 1) == v * 10 + d);
            lemma_num_end_digits(s@, i as int + 1);
            assert(num_end(s@, i as int) == num_end(s@, i as int + 1));
            assert(ne >= i + 1);
        }
        if v > (i64::MAX - d) / 10 {
            proof {
                assert(v * 10 + d > i64::MAX) by {
                    let m = i64::MAX as int;
                    assert(v as int >= (m - d) / 10 + 1);
                    assert(((m - d) / 10 + 1) * 10 == ((m - d) / 10) * 10 + 10);
                    assert(((m - d) / 10) * 10 > m - d - 10);
                }
                lemma_num_end_digits(s@, i as int);
                assert(forall|m: int| i + 1 <= m < ne ==> is_digit(#[trigger] s@[m]));
                lemma_num_val_grows(s@, i0 as int, i as int + 1, ne);
                assert(num_val(s@, i0 as int, ne) >= v * 10 + d);
                assert(num_end(s@, i0 as int) == ne);
                assert(num_val(s@, i0 as int, num_end(s@, i0 as int)) > i64::MAX);
            }
            return None;
        }
        v = v * 10 + d;
        i = i + 1;
    }
    if i == i0 {
        return None;
    }
    Some((v, i))
}

/// Reads claims back from a payload text, accepting exactly the texts
/// the writer produces.
pub fn parse_payload_text(s: &str) -> (r: Option<Claims>)
    ensures
        match r {
            Some(c) => parse_payload(s@) == Some(c@),
            None => parse_payload(s@) is None,
        },
{
    proof {
        reveal_strlit("{\"sub\":\"");
        reveal_strlit(",\"role\":\"");
        reveal_strlit(",\"exp\":");
        reveal_strlit(",\"iat\":");
        reveal_strlit(",\"token_type\":\"");
        reveal_strlit("access\"}");
        reveal_strlit("refresh\"}");
        reveal_strlit("access");
        reveal_strlit("refresh");
        assert(("{\"sub\":\"")@ =~= lit_sub());
        assert((",\"role\":\"")@ =~= lit_role());
        assert((",\"exp\":")@ =~= lit_exp());
        assert((",\"iat\":")@ =~= lit_iat());
        assert((",\"token_type\":\"")@ =~= lit_tt());
        assert(("access\"}")@ =~= TokenType::Access.spec_name() + lit_end());
        assert(("refresh\"}")@ =~= TokenType::Refresh.spec_name() + lit_end());
    }
    let n = s.unicode_len();
    if !expect_lit(s, 0, "{\"sub\":\"") {
        return None;
    }
    let (sub, i1) = match read_string(s, 8) {
        Some(p) => p,
        None => {
            return None;
        },
    };
    if !expect_lit(s, i1, ",\"role\":\"") {
        return None;
    }
    let (role, i3) = match read_string(s, i1 + 9) {
        Some(p) => p,
        None => {
            return None;
        },
    };
    if !expect_lit(s, i3, ",\"exp\":") {
        return None;
    }
    let (exp, j1) = match read_number(s, i3 + 7) {
        Some(p) => p,
        None => {
            return None;
        },
    };
    if !expect_lit(s, j1, ",\"iat\":") {
        return None;
    }
    let (iat, j2) = match read_number(s, j1 + 7) {
        Some(p) => p,
        None => {
            return None;
        },
    };
    if !expect_lit(s, j2, ",\"token_type\":\"") {
        return None;
    }
    let i6 = j2 + 15;
    if expect_lit(s, i6, "access\"}") && n == i6 + 8 {
        return Some(
            Claims {
                sub,
                role,
                exp,
                iat,
                token_type: String::from_str("access"),
            },
        );
    }
    if expect_lit(s, i6, "refresh\"}") && n == i6 + 9 {
        return Some(
            Claims {
                sub,
                role,
                exp,
                iat,
                token_type: String::from_str("refresh"),
            },
        );
    }
    None
}

} // verus!
