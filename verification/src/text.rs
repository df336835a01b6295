//! Small verified text utilities shared by the naming, sanitizing and
//! configuration layers: ASCII upper-casing, fixed-width decimal rendering,
//! and placeholder substitution, plus thin trusted shims over the two `str`
//! primitives vstd leaves unspecified.

use vstd::prelude::*;
use vstd::string::StrSliceExecFns;
use vstd::string::StringExecFns;

verus! {

/// Relies on `str` equality (`<str as PartialEq>::eq`): two slices compare
/// equal exactly when their character sequences do.
#[verifier::external_body]
pub(crate) fn str_eq(a: &str, b: &str) -> (r: bool)
    ensures
        r == (a@ == b@),
{
    a == b
}

/// Relies on `String::push`: appends exactly one character to the buffer.
#[verifier::external_body]
pub(crate) fn push_char(s: &mut String, c: char)
    ensures
        final(s)@ == old(s)@.push(c),
{
    s.push(c);
}

/// The upper-case form of one character: ASCII letters are folded, everything
/// else is left alone.
pub open spec fn spec_upper_char(c: char) -> char {
    if 97 <= c as u32 <= 122 {
        (((c as u32) as u8) - 32) as char
    } else {
        c
    }
}

/// A character sequence with every ASCII letter upper-cased.
pub open spec fn spec_upper(s: Seq<char>) -> Seq<char> {
    s.map_values(|c: char| spec_upper_char(c))
}

/// Upper-cases the ASCII letters of `s`, leaving other characters unchanged.
pub fn to_upper(s: &str) -> (r: String)
    ensures
        r@ == spec_upper(s@),
{
    let n = s.unicode_len();
    let mut out = String::new();
    let mut i: usize = 0;
    while i < n
        invariant
            i <= n,
            n == s@.len(),
            out@ == spec_upper(s@.take(i as int)),
        decreases n - i,
    {
        let c = s.get_char(i);
        let v = c as u32;
        let u = if 97 <= v && v <= 122 {
            ((v as u8) - 32) as char
        } else {
            c
        };
        assert(u == spec_upper_char(s@[i as int]));
        push_char(&mut out, u);
        assert(out@ =~= spec_upper(s@.take(i + 1)));
        i = i + 1;
    }
    assert(s@.take(n as int) =~= s@);
    out
}

/// The digit character for one decimal digit.
pub open spec fn digit_char(d: int) -> char {
    ((48 + d) as u8) as char
}

/// The two-digit, zero-padded decimal rendering of `n`.
pub open spec fn spec_two_digits(n: int) -> Seq<char> {
    seq![digit_char(n / 10 % 10), digit_char(n % 10)]
}

/// The four-digit, zero-padded decimal rendering of `n`.
pub open spec fn spec_four_digits(n: int) -> Seq<char> {
    seq![
        digit_char(n / 1000 % 10),
        digit_char(n / 100 % 10),
        digit_char(n / 10 % 10),
        digit_char(n % 10),
    ]
}

/// The two-digit zero-padded rendering of `n`.
pub fn two_digits(n: u32) -> (r: String)
    requires
        n < 100,
    ensures
        r@ == spec_two_digits(n as int),
{
    let mut out = String::new();
    push_char(&mut out, ((48 + (n / 10) % 10) as u8) as char);
    push_char(&mut out, ((48 + n % 10) as u8) as char);
    assert(out@ =~= spec_two_digits(n as int));
    out
}

/// The four-digit zero-padded rendering of `n`.
pub fn four_digits(n: u32) -> (r: String)
    requires
        n < 10000,
    ensures
        r@ == spec_four_digits(n as int),
{
    let mut out = String::new();
    push_char(&mut out, ((48 + (n / 1000) % 10) as u8) as char);
    push_char(&mut out, ((48 + (n / 100) % 10) as u8) as char);
    push_char(&mut out, ((48 + (n / 10) % 10) as u8) as char);
    push_char(&mut out, ((48 + n % 10) as u8) as char);
    assert(out@ =~= spec_four_digits(n as int));
    out
}

/// `s` with every non-overlapping occurrence of `pat` replaced by `rep`,
/// scanning left to right.
pub open spec fn spec_replace(s: Seq<char>, pat: Seq<char>, rep: Seq<char>) -> Seq<char>
    decreases s.len(),
    when pat.len() > 0
{
    if s.len() < pat.len() {
        s
    } else if s.take(pat.len() as int) == pat {
        rep + spec_replace(s.skip(pat.len() as int), pat, rep)
    } else {
        seq![s[0]] + spec_replace(s.skip(1), pat, rep)
    }
}

/// Replaces every non-overlapping occurrence of `pat` in `s` by `rep`,
/// scanning left to right.
pub fn replace_all(s: &str, pat: &str, rep: &str) -> (r: String)
    requires
        pat@.len() > 0,
    ensures
        r@ == spec_replace(s@, pat@, rep@),
{
    let n = s.unicode_len();
    let m = pat.unicode_len();
    let mut out = String::new();
    let mut i: usize = 0;
    assert(s@.skip(0) =~= s@);
    assert(out@ + spec_replace(s@, pat@, rep@) =~= spec_replace(s@, pat@, rep@));
    while i < n
        invariant
            i <= n,
            n == s@.len(),
            m == pat@.len(),
            0 < m,
            out@ + spec_replace(s@.skip(i as int), pat@, rep@) == spec_replace(s@, pat@, rep@),
        decreases n - i,
    {
        let ghost rest = s@.skip(i as int);
        if m <= n - i {
            let window = s.substring_char(i, i + m);
            assert(window@ =~= rest.take(m as int));
            if str_eq(window, pat) {
                let ghost prev = out@;
                out.append(rep);
                i = i + m;
                assert(s@.skip(i as int) =~= rest.skip(m as int));
                assert(out@ + spec_replace(s@.skip(i as int), pat@, rep@) =~= prev + spec_replace(
                    rest,
                    pat@,
                    rep@,
                ));
                continue;
            }
        }
        let c = s.get_char(i);
        assert(seq![rest[0]] + rest.skip(1) =~= rest);
        let ghost prev = out@;
        push_char(&mut out, c);
        i = i + 1;
        assert(out@ =~= prev + seq![rest[0]]);
        assert(s@.skip(i as int) =~= rest.skip(1));
        assert(out@ + spec_replace(s@.skip(i as int), pat@, rep@) =~= prev + spec_replace(
            rest,
            pat@,
            rep@,
        ));
    }
    assert(s@.skip(n as int) =~= Seq::<char>::empty());
    assert(out@ + Seq::<char>::empty() =~= out@);
    out
}

/// Whether the byte string `a` is lexicographically at most `b`.
pub open spec fn spec_bytes_le(a: Seq<u8>, b: Seq<u8>) -> bool
    decreases a.len(),
{
    if a.len() == 0 {
        true
    } else if b.len() == 0 {
        false
    } else if a[0] < b[0] {
        true
    } else if a[0] > b[0] {
        false
    } else {
        spec_bytes_le(a.skip(1), b.skip(1))
    }
}

/// Proof that the lexicographic byte order is total.
pub proof fn lemma_bytes_le_total(a: Seq<u8>, b: Seq<u8>)
    ensures
        spec_bytes_le(a, b) || spec_bytes_le(b, a),
    decreases a.len(),
{
    if a.len() > 0 && b.len() > 0 && a[0] == b[0] {
        lemma_bytes_le_total(a.skip(1), b.skip(1));
    }
}

/// Proof that the lexicographic byte order is transitive.
pub proof fn lemma_bytes_le_trans(a: Seq<u8>, b: Seq<u8>, c: Seq<u8>)
    requires
        spec_bytes_le(a, b),
        spec_bytes_le(b, c),
    ensures
        spec_bytes_le(a, c),
    decreases a.len(),
{
    if a.len() > 0 && b.len() > 0 && c.len() > 0 && a[0] == b[0] && b[0] == c[0] {
        lemma_bytes_le_trans(a.skip(1), b.skip(1), c.skip(1));
    }
}

/// Relies on `str`'s `PartialOrd`: slices are ordered lexicographically by
/// their bytes.
#[verifier::external_body]
pub(crate) fn str_le(a: &str, b: &str) -> (r: bool)
    ensures
        r == spec_bytes_le(vstd::utf8::encode_utf8(a@), vstd::utf8::encode_utf8(b@)),
{
    a <= b
}

/// Whether `s` ends with `suffix`.
pub open spec fn spec_ends_with(s: Seq<char>, suffix: Seq<char>) -> bool {
    s.len() >= suffix.len() && s.skip(s.len() - suffix.len()) == suffix
}

/// Whether `s` ends with `suffix`.
pub fn ends_with(s: &str, suffix: &str) -> (r: bool)
    ensures
        r == spec_ends_with(s@, suffix@),
{
    let n = s.unicode_len();
    let m = suffix.unicode_len();
    if m > n {
        return false;
    }
    let tail = s.substring_char(n - m, n);
    assert(tail@ =~= s@.skip(s@.len() - suffix@.len()));
    str_eq(tail, suffix)
}

} // verus!
