//! Text building blocks for the claims payload: decimal rendering of
//! timestamps and escaping of embedded strings, each specified as a
//! function on sequences and implemented by verified builders.

use vstd::prelude::*;

verus! {

/// Relies on `String::push`: appends exactly the given character.
pub assume_specification[ String::push ](s: &mut String, c: char)
    ensures
        final(s)@ == old(s)@.push(c),
;

/// Relies on `String::from_utf8`: succeeds exactly on valid UTF-8 and
/// returns the text those bytes encode.
#[verifier::external_body]
pub(crate) fn utf8_to_string(b: Vec<u8>) -> (r: Option<String>)
    ensures
        match r {
            Some(x) => b@ == vstd::utf8::encode_utf8(x@),
            None => !vstd::utf8::valid_utf8(b@),
        },
{
    String::from_utf8(b).ok()
}

/// The character for a decimal digit value.
pub open spec fn digit_char(d: int) -> char {
    ((48 + d) as u32) as char
}

/// The decimal rendering of a non-negative integer, without leading
/// zeros.
pub open spec fn dec_of(n: int) -> Seq<char>
    decreases n,
{
    if n < 0 {
        Seq::<char>::empty()
    } else if n < 10 {
        seq![digit_char(n)]
    } else {
        dec_of(n / 10).push(digit_char(n % 10))
    }
}

/// How one character is written inside a quoted payload string: a quote
/// or a backslash gets a backslash before it.
pub open spec fn esc_char(c: char) -> Seq<char> {
    if c == '"' || c == '\\' {
        seq!['\\', c]
    } else {
        seq![c]
    }
}

/// How a whole string is written inside a quoted payload string.
pub open spec fn esc(s: Seq<char>) -> Seq<char>
    decreases s.len(),
{
    if s.len() == 0 {
        Seq::<char>::empty()
    } else {
        esc_char(s[0]) + esc(s.skip(1))
    }
}

/// Escaping distributes over extending a string by one character.
pub proof fn lemma_esc_snoc(s: Seq<char>, c: char)
    ensures
        esc(s.push(c)) == esc(s) + esc_char(c),
    decreases s.len(),
{
    if s.len() == 0 {
        assert(s.push(c)[0] == c);
        assert(s.push(c).skip(1) =~= Seq::<char>::empty());
        assert(esc(Seq::<char>::empty()) =~= Seq::<char>::empty());
        assert(esc(s.push(c)) =~= esc_char(s.push(c)[0]) + esc(s.push(c).skip(1)));
        assert(esc(s.push(c)) =~= esc_char(c));
        assert(esc(s.push(c)) =~= esc(s) + esc_char(c));
    } else {
        assert(s.push(c)[0] == s[0]);
        assert(s.push(c).skip(1) =~= s.skip(1).push(c));
        lemma_esc_snoc(s.skip(1), c);
        assert(esc(s.push(c)) =~= esc_char(s[0]) + (esc(s.skip(1)) + esc_char(c)));
        assert(esc(s.push(c)) =~= esc(s) + esc_char(c));
    }
}

/// The exec digit table agrees with [`digit_char`].
fn digit_char_x(d: u64) -> (c: char)
    requires
        d < 10,
    ensures
        c == digit_char(d as int),
{
    if d == 0 {
        '0'
    } else if d == 1 {
        '1'
    } else if d == 2 {
        '2'
    } else if d == 3 {
        '3'
    } else if d == 4 {
        '4'
    } else if d == 5 {
        '5'
    } else if d == 6 {
        '6'
    } else if d == 7 {
        '7'
    } else if d == 8 {
        '8'
    } else {
        '9'
    }
}

/// Appends the decimal rendering of `n` to `s`.
pub fn push_dec(s: &mut String, n: u64)
    ensures
        final(s)@ == old(s)@ + dec_of(n as int),
    decreases n,
{
    if n < 10 {
        s.push(digit_char_x(n));
        assert(s@ =~= old(s)@ + dec_of(n as int));
    } else {
        push_dec(s, n / 10);
        s.push(digit_char_x(n % 10));
        assert(s@ =~= old(s)@ + dec_of(n as int));
    }
}

/// Appends `t`, escaped for inclusion inside a quoted payload string.
pub fn push_escaped(s: &mut String, t: &str)
    ensures
        final(s)@ == old(s)@ + esc(t@),
{
    let n = t.unicode_len();
    let mut i: usize = 0;
    while i < n
        invariant
            n == t@.len(),
            i <= n,
            s@ == old(s)@ + esc(t@.take(i as int)),
        decreases n - i,
    {
        let c = t.get_char(i);
        if c == '"' || c == '\\' {
            s.push('\\');
        }
        s.push(c);
        proof {
            lemma_esc_snoc(t@.take(i as int), c);
            assert(t@.take(i as int).push(c) =~= t@.take(i as int + 1));
            assert(s@ =~= old(s)@ + esc(t@.take(i as int + 1)));
        }
        i = i + 1;
    }
    proof {
        assert(t@.take(n as int) =~= t@);
    }
}

} // verus!
