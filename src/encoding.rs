use vstd::multiset::Multiset;
use vstd::prelude::*;

use crate::ast::variable_type::VariableType;
use crate::text::{is_digit, starts_with_hex_prefix};

verus! {

/// Value of a hexadecimal digit of either case.
pub open spec fn hex_value(c: char) -> Option<nat> {
    if '0' <= c && c <= '9' {
        Some((c as nat - '0' as nat) as nat)
    } else if 'a' <= c && c <= 'f' {
        Some((c as nat - 'a' as nat + 10) as nat)
    } else if 'A' <= c && c <= 'F' {
        Some((c as nat - 'A' as nat + 10) as nat)
    } else {
        None
    }
}

/// Bytes spelled by pairs of hex digits, first pair first; `None` for an
/// odd count or a character that is no hex digit.
pub open spec fn hex_bytes(s: Seq<char>) -> Option<Seq<u8>>
    decreases s.len(),
{
    if s.len() == 0 {
        Some(Seq::empty())
    } else if s.len() == 1 {
        None
    } else {
        match (hex_value(s[0]), hex_value(s[1]), hex_bytes(s.subrange(2, s.len() as int))) {
            (Some(hi), Some(lo), Some(rest)) => Some(seq![(hi * 16 + lo) as u8] + rest),
            _ => None,
        }
    }
}

/// Value of a string of decimal digits, most significant first.
pub open spec fn digits_value(s: Seq<char>) -> nat
    decreases s.len(),
{
    if s.len() == 0 {
        0
    } else {
        digits_value(s.drop_last()) * 10 + (s.last() as nat - '0' as nat) as nat
    }
}

pub open spec fn all_digits(s: Seq<char>) -> bool {
    forall|i: int| 0 <= i < s.len() ==> #[trigger] is_digit(s[i])
}

/// Whether a value fits in a type.
pub open spec fn fits(x: nat, t: VariableType) -> bool {
    match t {
        VariableType::U8 => x < 0x100,
        VariableType::U16 => x < 0x1_0000,
        VariableType::U32 => x < 0x1_0000_0000,
        VariableType::U64 => x < 0x1_0000_0000_0000_0000,
    }
}

/// The `w` low bytes of `v`, most significant first.
pub open spec fn be_bytes(v: nat, w: nat) -> Seq<u8>
    decreases w,
{
    if w == 0 {
        Seq::empty()
    } else {
        be_bytes(v / 256, (w - 1) as nat).push((v % 256) as u8)
    }
}

/// Encoding of an operand value bound to a variable of type `t`: a `0x`
/// value gives its hex pairs whatever the type; a decimal value gives its
/// big-endian bytes at the type's width, when it fits.
pub open spec fn encode_value(v: Seq<char>, t: VariableType) -> Option<Seq<u8>> {
    if starts_with_hex_prefix(v) {
        hex_bytes(v.subrange(2, v.len() as int))
    } else if v.len() > 0 && all_digits(v) && fits(digits_value(v), t) {
        Some(be_bytes(digits_value(v), t.width()))
    } else {
        None
    }
}

/// Encoding of a template literal: only `0x` literals have one.
pub open spec fn encode_literal(n: Seq<char>) -> Option<Seq<u8>> {
    if starts_with_hex_prefix(n) {
        hex_bytes(n.subrange(2, n.len() as int))
    } else {
        None
    }
}

/// Occurrences of `c` in `s`.
pub open spec fn count_char(s: Seq<char>, c: char) -> nat
    decreases s.len(),
{
    if s.len() == 0 {
        0
    } else {
        count_char(s.drop_last(), c) + if s.last() == c {
            1nat
        } else {
            0nat
        }
    }
}

/// How many characters of `a` are left over once each character of `b`
/// cancels one equal character of `a`: a position of `a` counts when its
/// character has occurred in `a`, up to there, more often than in all of `b`.
pub open spec fn word_distance(a: Seq<char>, b: Seq<char>) -> nat
    decreases a.len(),
{
    if a.len() == 0 {
        0
    } else {
        word_distance(a.drop_last(), b) + if count_char(a, a.last()) > count_char(b, a.last()) {
            1nat
        } else {
            0nat
        }
    }
}

fn hex_digit(c: char) -> (r: Option<u8>)
    ensures
        r matches Some(d) ==> hex_value(c) == Some(d as nat),
        r is None ==> hex_value(c) is None,
{
    if '0' <= c && c <= '9' {
        Some((c as u32 - '0' as u32) as u8)
    } else if 'a' <= c && c <= 'f' {
        Some((c as u32 - 'a' as u32 + 10) as u8)
    } else if 'A' <= c && c <= 'F' {
        Some((c as u32 - 'A' as u32 + 10) as u8)
    } else {
        None
    }
}

/// Decodes the hex pairs of `s[from..]` and appends the bytes to `out`.
pub fn append_hex(s: &Vec<char>, from: usize, out: &mut Vec<u8>) -> (ok: bool)
    requires
        from <= s.len(),
    ensures
        ok == (hex_bytes(s@.subrange(from as int, s@.len() as int)) is Some),
        ok ==> final(out)@ == old(out)@ + hex_bytes(s@.subrange(from as int, s@.len() as int))->0,
{
    let mut i = from;
    let ghost start = old(out)@;
    while i < s.len()
        invariant
            from <= i <= s.len(),
            i - from == 2 * ((i - from) / 2),
            ({
                let whole = hex_bytes(s@.subrange(from as int, s@.len() as int));
                let tail = hex_bytes(s@.subrange(i as int, s@.len() as int));
                &&& whole is Some <==> tail is Some
                &&& tail matches Some(t) ==> whole->0 == out@.subrange(start.len() as int, out@.len() as int) + t
            }),
            out@.len() >= start.len(),
            out@.subrange(0, start.len() as int) == start,
        decreases s.len() - i,
    {
        let ghost sub = s@.subrange(i as int, s@.len() as int);
        if i + 1 >= s.len() {
            return false;
        }
        let hi = hex_digit(s[i]);
        let lo = hex_digit(s[i + 1]);
        match (hi, lo) {
            (Some(h), Some(l)) => {
                assert(sub.subrange(2, sub.len() as int) =~= s@.subrange(i + 2, s@.len() as int));
                let ghost before = out@;
                let b = h * 16 + l;
                out.push(b);
                proof {
                    let tail = hex_bytes(s@.subrange(i + 2, s@.len() as int));
                    if tail is Some {
                        assert(out@.subrange(start.len() as int, out@.len() as int) =~= before.subrange(start.len() as int, before.len() as int).push(b));
                        assert(before.subrange(start.len() as int, before.len() as int) + (seq![b] + tail->0) =~= out@.subrange(start.len() as int, out@.len() as int) + tail->0);
                    }
                    assert(out@.subrange(0, start.len() as int) =~= before.subrange(0, start.len() as int));
                }
                i = i + 2;
            },
            _ => {
                return false;
            },
        }
    }
    proof {
        assert(s@.subrange(i as int, s@.len() as int) =~= Seq::<char>::empty());
        assert(out@ =~= start + out@.subrange(start.len() as int, out@.len() as int));
        assert(out@.subrange(start.len() as int, out@.len() as int) + Seq::<u8>::empty() =~= out@.subrange(start.len() as int, out@.len() as int));
    }
    true
}

proof fn lemma_digits_value_grows(s: Seq<char>, i: int)
    requires
        0 <= i <= s.len(),
        all_digits(s),
    ensures
        digits_value(s.subrange(0, i)) <= digits_value(s),
    decreases s.len() - i,
{
    if i < s.len() {
        lemma_digits_value_grows(s, i + 1);
        let p = s.subrange(0, i + 1);
        assert(p.drop_last() =~= s.subrange(0, i));
        assert(is_digit(s[i]));
    } else {
        assert(s.subrange(0, i) =~= s);
    }
}

/// Parses a decimal operand; `None` unless it is all digits and fits in `u64`.
fn decimal_u64(s: &Vec<char>) -> (r: Option<u64>)
    ensures
        r matches Some(v) ==> s@.len() > 0 && all_digits(s@) && v as nat == digits_value(s@),
        r is None ==> !(s@.len() > 0 && all_digits(s@) && digits_value(s@) <= u64::MAX),
{
    if s.len() == 0 {
        return None;
    }
    let mut v: u64 = 0;
    let mut i: usize = 0;
    while i < s.len()
        invariant
            i <= s.len(),
            forall|k: int| 0 <= k < i ==> #[trigger] is_digit(s@[k]),
            v as nat == digits_value(s@.subrange(0, i as int)),
        decreases s.len() - i,
    {
        let c = s[i];
        if !('0' <= c && c <= '9') {
            assert(!is_digit(s@[i as int]));
            assert(!all_digits(s@));
            return None;
        }
        let d = (c as u32 - '0' as u32) as u64;
        let ghost p = s@.subrange(0, i + 1);
        assert(p.drop_last() =~= s@.subrange(0, i as int));
        match v.checked_mul(10) {
            None => {
                proof {
                    if all_digits(s@) {
                        lemma_digits_value_grows(s@, i + 1);
                    }
                }
                return None;
            },
            Some(m) => match m.checked_add(d) {
                None => {
                    proof {
                        if all_digits(s@) {
                            lemma_digits_value_grows(s@, i + 1);
                        }
                    }
                    return None;
                },
                Some(n) => {
                    v = n;
                },
            },
        }
        i = i + 1;
    }
    assert(s@.subrange(0, i as int) =~= s@);
    Some(v)
}

/// Appends the `w` low bytes of `v`, most significant first.
pub fn append_be(v: u64, w: usize, out: &mut Vec<u8>)
    requires
        w <= 8,
    ensures
        final(out)@ == old(out)@ + be_bytes(v as nat, w as nat),
{
    let mut bytes: Vec<u8> = Vec::new();
    let mut k: usize = 0;
    while k < w
        invariant
            bytes@.len() == k,
            k <= w,
        decreases w - k,
    {
        bytes.push(0);
        k = k + 1;
    }
    let mut q: u64 = v;
    let mut j: usize = w;
    assert(bytes@.subrange(w as int, w as int) =~= Seq::<u8>::empty());
    assert(be_bytes(v as nat, w as nat) =~= be_bytes(q as nat, j as nat) + Seq::<u8>::empty());
    while j > 0
        invariant
            j <= w,
            bytes@.len() == w,
            be_bytes(v as nat, w as nat) == be_bytes(q as nat, j as nat) + bytes@.subrange(
                j as int,
                w as int,
            ),
        decreases j,
    {
        let ghost old_bytes = bytes@;
        let b = (q % 256) as u8;
        bytes.set(j - 1, b);
        proof {
            let tail = old_bytes.subrange(j as int, w as int);
            assert(bytes@.subrange(j - 1, w as int) =~= seq![b] + tail);
            assert(be_bytes(q as nat, j as nat) == be_bytes((q / 256) as nat, (j - 1) as nat).push(
                b,
            ));
            assert(be_bytes((q / 256) as nat, (j - 1) as nat).push(b) + tail =~= be_bytes(
                (q / 256) as nat,
                (j - 1) as nat,
            ) + (seq![b] + tail));
        }
        q = q / 256;
        j = j - 1;
    }
    assert(bytes@.subrange(0, w as int) =~= bytes@);
    let ghost start = out@;
    let mut i: usize = 0;
    while i < w
        invariant
            i <= w,
            bytes@.len() == w,
            out@ == start + bytes@.subrange(0, i as int),
        decreases w - i,
    {
        out.push(bytes[i]);
        assert(bytes@.subrange(0, i + 1) =~= bytes@.subrange(0, i as int).push(bytes@[i as int]));
        i = i + 1;
    }
    assert(be_bytes(0, 0) =~= Seq::<u8>::empty());
    assert(be_bytes(v as nat, w as nat) =~= bytes@);
}

/// Appends the encoding of operand value `v` bound to a variable of type
/// `t`; `false` (and `out` in an unspecified state) when it has none.
pub fn append_value(v: &Vec<char>, t: VariableType, out: &mut Vec<u8>) -> (ok: bool)
    ensures
        ok == (encode_value(v@, t) is Some),
        ok ==> final(out)@ == old(out)@ + encode_value(v@, t)->0,
{
    if v.len() >= 2 && v[0] == '0' && v[1] == 'x' {
        return append_hex(v, 2, out);
    }
    match decimal_u64(v) {
        None => false,
        Some(x) => {
            let fits_type = match t {
                VariableType::U8 => x < 0x100,
                VariableType::U16 => x < 0x1_0000,
                VariableType::U32 => x < 0x1_0000_0000,
                VariableType::U64 => true,
            };
            if !fits_type {
                return false;
            }
            append_be(x, t.byte_width(), out);
            true
        },
    }
}

/// Appends the encoding of template literal `n`; `false` when it has none.
pub fn append_literal(n: &Vec<char>, out: &mut Vec<u8>) -> (ok: bool)
    ensures
        ok == (encode_literal(n@) is Some),
        ok ==> final(out)@ == old(out)@ + encode_literal(n@)->0,
{
    if n.len() >= 2 && n[0] == '0' && n[1] == 'x' {
        append_hex(n, 2, out)
    } else {
        false
    }
}

fn count_in(s: &Vec<char>, end: usize, c: char) -> (r: usize)
    requires
        end <= s.len(),
    ensures
        r == count_char(s@.subrange(0, end as int), c),
        r <= end,
{
    let mut r: usize = 0;
    let mut j: usize = 0;
    assert(s@.subrange(0, 0) =~= Seq::<char>::empty());
    while j < end
        invariant
            j <= end <= s.len(),
            r == count_char(s@.subrange(0, j as int), c),
            r <= j,
        decreases end - j,
    {
        assert(s@.subrange(0, j + 1).drop_last() =~= s@.subrange(0, j as int));
        if s[j] == c {
            r = r + 1;
        }
        j = j + 1;
    }
    r
}

/// Computes `word_distance(a, b)`.
pub fn distance(a: &Vec<char>, b: &Vec<char>) -> (r: usize)
    ensures
        r == word_distance(a@, b@),
{
    let mut r: usize = 0;
    let mut i: usize = 0;
    assert(a@.subrange(0, 0) =~= Seq::<char>::empty());
    assert(b@.subrange(0, b@.len() as int) =~= b@);
    while i < a.len()
        invariant
            i <= a.len(),
            r == word_distance(a@.subrange(0, i as int), b@),
            r <= i,
            b@.subrange(0, b@.len() as int) == b@,
        decreases a.len() - i,
    {
        let c = a[i];
        let ca = count_in(a, i + 1, c);
        let cb = count_in(b, b.len(), c);
        let ghost sub = a@.subrange(0, i + 1);
        assert(sub.drop_last() =~= a@.subrange(0, i as int));
        assert(sub.last() == c);
        if ca > cb {
            r = r + 1;
        }
        i = i + 1;
    }
    assert(a@.subrange(0, i as int) =~= a@);
    r
}

/// An operand value written `0x...` is encoded as its hex pairs, whatever
/// width its variable declares.
pub proof fn lemma_hex_value_ignores_width(v: Seq<char>, t: VariableType)
    requires
        starts_with_hex_prefix(v),
    ensures
        encode_value(v, t) == hex_bytes(v.subrange(2, v.len() as int)),
{
}

proof fn lemma_count_char_is_multiplicity(s: Seq<char>, c: char)
    ensures
        count_char(s, c) == s.to_multiset().count(c),
    decreases s.len(),
{
    broadcast use vstd::multiset::group_multiset_axioms;

    if s.len() == 0 {
        s.to_multiset_ensures();
        vstd::multiset::lemma_multiset_empty_len(s.to_multiset());
        assert(s.to_multiset() =~= Multiset::<char>::empty());
    } else {
        let p = s.drop_last();
        lemma_count_char_is_multiplicity(p, c);
        assert(p.push(s.last()) =~= s);
        vstd::seq_lib::to_multiset_build(p, s.last());
    }
}

/// The score of two differing words counts the characters of `a` that `b`
/// does not cancel: for every character, how many more times it occurs in
/// `a` than in `b`, when that is positive, summed over all characters. That
/// is the size of the multiset difference of their characters.
pub proof fn lemma_word_distance_is_multiset_difference(a: Seq<char>, b: Seq<char>)
    ensures
        word_distance(a, b) == a.to_multiset().difference_with(b.to_multiset()).len(),
    decreases a.len(),
{
    broadcast use {
        vstd::multiset::group_multiset_axioms,
        vstd::multiset::lemma_difference_count,
        vstd::multiset::lemma_insert_len,
    };

    let mb = b.to_multiset();
    if a.len() == 0 {
        a.to_multiset_ensures();
        vstd::multiset::lemma_multiset_empty_len(a.to_multiset());
        assert(a.to_multiset() =~= Multiset::<char>::empty());
        assert(a.to_multiset().difference_with(mb) =~= Multiset::<char>::empty());
    } else {
        let p = a.drop_last();
        let c = a.last();
        lemma_word_distance_is_multiset_difference(p, b);
        assert(p.push(c) =~= a);
        vstd::seq_lib::to_multiset_build(p, c);
        lemma_count_char_is_multiplicity(a, c);
        lemma_count_char_is_multiplicity(b, c);
        let d0 = p.to_multiset().difference_with(mb);
        let d1 = a.to_multiset().difference_with(mb);
        if count_char(a, c) > count_char(b, c) {
            assert(d1 =~= d0.insert(c));
        } else {
            assert(d1 =~= d0);
        }
    }
}

} // verus!
