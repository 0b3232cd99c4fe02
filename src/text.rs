use vstd::prelude::*;
use vstd::std_specs::iter::IteratorSpec;

verus! {

/// What `char::is_alphanumeric` answers for a character (Unicode `Alphabetic`
/// or `Numeric`).
pub uninterp spec fn alphanumeric(c: char) -> bool;

pub open spec fn is_digit(c: char) -> bool {
    '0' <= c && c <= '9'
}

pub open spec fn is_lower_hex_digit(c: char) -> bool {
    is_digit(c) || ('a' <= c && c <= 'f')
}

pub open spec fn is_ascii_alphanumeric(c: char) -> bool {
    is_digit(c) || ('a' <= c && c <= 'z') || ('A' <= c && c <= 'Z')
}

/// `s` is one or more groups of decimal digits separated by single dots:
/// `[0-9]+(\.[0-9]+)*`.
pub open spec fn dotted_digits(s: Seq<char>) -> bool {
    &&& s.len() > 0
    &&& is_digit(s[0])
    &&& is_digit(s.last())
    &&& forall|i: int| 0 <= i < s.len() ==> is_digit(#[trigger] s[i]) || s[i] == '.'
    &&& forall|i: int| 0 <= i < s.len() - 1 ==> #[trigger] s[i] == '.' ==> s[i + 1] != '.'
}

/// `s` as a whole is a decimal number: `[+-]?[0-9]+(\.[0-9]+)*`.
pub open spec fn decimal_form(s: Seq<char>) -> bool {
    dotted_digits(s) || (s.len() >= 1 && (s[0] == '+' || s[0] == '-') && dotted_digits(
        s.drop_first(),
    ))
}

/// `s` as a whole is a hex number: `0x[a-f0-9]+`.
pub open spec fn hex_form(s: Seq<char>) -> bool {
    &&& s.len() >= 3
    &&& s[0] == '0'
    &&& s[1] == 'x'
    &&& forall|i: int| 2 <= i < s.len() ==> is_lower_hex_digit(#[trigger] s[i])
}

/// A scanned run of identifier characters is classified as a number when
/// the whole run is a decimal or a hex number.
pub open spec fn number_like(s: Seq<char>) -> bool {
    decimal_form(s) || hex_form(s)
}

/// The characters of a string, in order.
pub(crate) fn chars_of(s: &str) -> (r: Vec<char>)
    ensures
        r@ == s@,
{
    broadcast use vstd::string::group_string_axioms;

    let mut it = s.chars();
    let mut out: Vec<char> = Vec::new();
    loop
        invariant
            out@ + it.remaining() == s@,
            it.decrease() is Some,
        ensures
            out@ == s@,
        decreases it.decrease()->0,
    {
        match it.next() {
            Some(c) => {
                out.push(c);
                assert(out@ + it.remaining() =~= s@);
            },
            None => {
                assert(out@ =~= s@);
                break;
            },
        }
    }
    out
}

/// Relies on `String: FromIterator<char>`: the string holds the characters
/// `chars[start..end]`, in order.
#[verifier::external_body]
pub(crate) fn string_from(chars: &Vec<char>, start: usize, end: usize) -> (r: String)
    requires
        start <= end <= chars.len(),
    ensures
        r@ == chars@.subrange(start as int, end as int),
{
    chars[start..end].iter().collect()
}

/// Relies on `char::is_alphanumeric`: true for alphabetic or numeric
/// characters, which among ASCII characters are the letters and digits.
#[verifier::external_body]
pub(crate) fn is_alphanumeric(c: char) -> (r: bool)
    ensures
        r == alphanumeric(c),
        (c as u32) < 128 ==> (r <==> is_ascii_alphanumeric(c)),
{
    c.is_alphanumeric()
}

/// Relies on `regex::Regex::new` and `regex::Regex::is_match` for the pattern
/// `^([+-]?[0-9]+(\.[0-9]+)*|0x[a-f0-9]+)$`, which is valid, so `new`
/// succeeds. Both alternatives sit inside the group that `^` and `$`
/// anchor, so `is_match` reports whether the whole of `s` matches one of them.
#[verifier::external_body]
pub(crate) fn matches_number_pattern(s: &str) -> (r: bool)
    ensures
        r == number_like(s@),
{
    regex::Regex::new(r"^([+-]?[0-9]+(\.[0-9]+)*|0x[a-f0-9]+)$").unwrap().is_match(s)
}

/// Whether the string spells exactly the given text.
pub fn text_is(s: &String, lit: &str) -> (r: bool)
    ensures
        r == (s@ == lit@),
{
    let a = chars_of(s.as_str());
    let b = chars_of(lit);
    if a.len() != b.len() {
        return false;
    }
    let mut i: usize = 0;
    while i < a.len()
        invariant
            a@ == s@,
            b@ == lit@,
            a.len() == b.len(),
            i <= a.len(),
            forall|k: int| 0 <= k < i ==> a@[k] == b@[k],
        decreases a.len() - i,
    {
        if a[i] != b[i] {
            return false;
        }
        i = i + 1;
    }
    assert(a@ =~= b@);
    true
}

/// Whether the characters begin with `0x`.
pub open spec fn starts_with_hex_prefix(s: Seq<char>) -> bool {
    s.len() >= 2 && s[0] == '0' && s[1] == 'x'
}

} // verus!
