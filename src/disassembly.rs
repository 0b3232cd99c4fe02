use vstd::prelude::*;

use crate::assembly::extend_chars;
use crate::ast::rule::{lookup_declared, LeftItem, RightItem, Rule, RuleLeftItem, RuleRightItem, RuleView};
use crate::ast::variable::VariableView;
use crate::ast::variable_type::VariableType;
use crate::encoding::{append_literal, encode_literal};
use crate::text::{chars_of, string_from};

verus! {

/// The bytes read for one variable name.
pub type CaptureView = (Seq<char>, Seq<u8>);

/// The bytes captured for `name`, if any.
pub open spec fn find_capture(caps: Seq<CaptureView>, name: Seq<char>) -> Option<Seq<u8>>
    decreases caps.len(),
{
    if caps.len() == 0 {
        None
    } else if caps[0].0 == name {
        Some(caps[0].1)
    } else {
        find_capture(caps.drop_first(), name)
    }
}

/// Reads `raw` from byte `pos` against the template from item `j` on: a
/// literal must match its bytes exactly; a variable takes its declared width,
/// and a name read before must read the same bytes again. `None` when the
/// bytes do not fit the template.
pub open spec fn read_template(
    rule: RuleView,
    raw: Seq<u8>,
    j: int,
    pos: int,
    caps: Seq<CaptureView>,
) -> Option<Seq<CaptureView>>
    decreases rule.right.len() - j,
{
    if j < 0 || j >= rule.right.len() || pos < 0 {
        Some(caps)
    } else {
        match rule.right[j] {
            RightItem::Number(n) => match encode_literal(n) {
                None => None,
                Some(b) => if pos + b.len() <= raw.len() && raw.subrange(pos, pos + b.len()) == b {
                    read_template(rule, raw, j + 1, pos + b.len(), caps)
                } else {
                    None
                },
            },
            RightItem::Var(v) => match lookup_declared(rule.left, v.name) {
                None => None,
                Some(t) => if pos + t.width() <= raw.len() {
                    let got = raw.subrange(pos, pos + t.width());
                    match find_capture(caps, v.name) {
                        Some(prev) => if prev == got {
                            read_template(rule, raw, j + 1, pos + t.width(), caps)
                        } else {
                            None
                        },
                        None => read_template(rule, raw, j + 1, pos + t.width(), caps.push((v.name, got))),
                    }
                } else {
                    None
                },
            },
        }
    }
}

pub open spec fn hex_char(d: nat) -> char {
    if d < 10 {
        ('0' as nat + d) as char
    } else {
        ('a' as nat + d - 10) as char
    }
}

/// Two lower-case hex digits per byte, first byte first.
pub open spec fn hex_text(b: Seq<u8>) -> Seq<char>
    decreases b.len(),
{
    if b.len() == 0 {
        Seq::empty()
    } else {
        hex_text(b.drop_last()) + seq![hex_char(b.last() as nat / 16), hex_char(b.last() as nat % 16)]
    }
}

/// Text of one pattern item: a word as it is, a variable as `0x` and the
/// hex of its bytes (nothing when the template never reads it).
pub open spec fn item_text(item: LeftItem, caps: Seq<CaptureView>) -> Seq<char> {
    match item {
        LeftItem::Word(w) => w,
        LeftItem::Var(v) => match find_capture(caps, v.name) {
            Some(b) => seq!['0', 'x'] + hex_text(b),
            None => Seq::empty(),
        },
    }
}

/// The pattern rendered with the captured values, each item followed by a space.
pub open spec fn render_left(left: Seq<LeftItem>, caps: Seq<CaptureView>) -> Seq<char>
    decreases left.len(),
{
    if left.len() == 0 {
        Seq::empty()
    } else {
        render_left(left.drop_last(), caps) + item_text(left.last(), caps) + seq![' ']
    }
}

/// What a rule makes of a byte sequence.
pub open spec fn disassemble(rule: RuleView, raw: Seq<u8>) -> Option<Seq<char>> {
    match read_template(rule, raw, 0, 0, Seq::empty()) {
        Some(caps) => Some(render_left(rule.left, caps)),
        None => None,
    }
}

struct Capture {
    name: String,
    bytes: Vec<u8>,
}

impl View for Capture {
    type V = CaptureView;

    closed spec fn view(&self) -> CaptureView {
        (self.name@, self.bytes@)
    }
}

spec fn captures_view(caps: Seq<Capture>) -> Seq<CaptureView> {
    caps.map_values(|c: Capture| c@)
}

fn find_capture_exec<'a>(caps: &'a Vec<Capture>, name: &String) -> (r: Option<&'a Vec<u8>>)
    ensures
        match r {
            Some(b) => find_capture(captures_view(caps@), name@) == Some(b@),
            None => find_capture(captures_view(caps@), name@) is None,
        },
{
    let ghost all = captures_view(caps@);
    let mut i: usize = 0;
    assert(all.subrange(0, all.len() as int) =~= all);
    while i < caps.len()
        invariant
            i <= caps.len(),
            all == captures_view(caps@),
            find_capture(all, name@) == find_capture(all.subrange(i as int, all.len() as int), name@),
        decreases caps.len() - i,
    {
        let ghost sub = all.subrange(i as int, all.len() as int);
        assert(sub.drop_first() =~= all.subrange(i + 1, all.len() as int));
        assert(sub[0] == caps@[i as int]@);
        if caps[i].name == *name {
            return Some(&caps[i].bytes);
        }
        i = i + 1;
    }
    None
}

fn hex_digit_char(d: u8) -> (c: char)
    requires
        d < 16,
    ensures
        c == hex_char(d as nat),
{
    if d < 10 {
        (48u8 + d) as char
    } else {
        (87u8 + d) as char
    }
}

fn push_hex(out: &mut Vec<char>, b: &Vec<u8>)
    ensures
        final(out)@ == old(out)@ + hex_text(b@),
{
    let ghost start = out@;
    let mut i: usize = 0;
    assert(b@.subrange(0, 0) =~= Seq::<u8>::empty());
    while i < b.len()
        invariant
            i <= b.len(),
            out@ == start + hex_text(b@.subrange(0, i as int)),
        decreases b.len() - i,
    {
        let x = b[i];
        let ghost sub = b@.subrange(0, i + 1);
        assert(sub.drop_last() =~= b@.subrange(0, i as int));
        out.push(hex_digit_char(x / 16));
        out.push(hex_digit_char(x % 16));
        assert(out@ =~= start + hex_text(sub));
        i = i + 1;
    }
    assert(b@.subrange(0, i as int) =~= b@);
}

impl Rule {
    /// Reads `raw` against the template and, when it fits, renders the
    /// pattern with the values read.
    pub fn try_disassemble(&self, raw: &Vec<u8>) -> (r: Option<String>)
        ensures
            match r {
                Some(s) => disassemble(self@, raw@) == Some(s@),
                None => disassemble(self@, raw@) is None,
            },
    {
        let ghost rv = self@;
        let mut caps: Vec<Capture> = Vec::new();
        let mut pos: usize = 0;
        let mut j: usize = 0;
        assert(captures_view(caps@) =~= Seq::<CaptureView>::empty());
        while j < self.right_items.len()
            invariant
                rv == self@,
                j <= self.right_items.len(),
                pos <= raw.len(),
                read_template(rv, raw@, 0, 0, Seq::empty()) == read_template(
                    rv,
                    raw@,
                    j as int,
                    pos as int,
                    captures_view(caps@),
                ),
            decreases self.right_items.len() - j,
        {
            assert(rv.right[j as int] == self.right_items@[j as int]@);
            match &self.right_items[j] {
                RuleRightItem::Number(n) => {
                    let mut lit: Vec<u8> = Vec::new();
                    if !append_literal(&chars_of(n.value.as_str()), &mut lit) {
                        return None;
                    }
                    assert(lit@ =~= encode_literal(n.value@)->0);
                    if lit.len() > raw.len() - pos {
                        return None;
                    }
                    if !bytes_at(raw, pos, &lit) {
                        return None;
                    }
                    assert(raw@.subrange(pos as int, pos + lit.len()) =~= lit@);
                    pos = pos + lit.len();
                },
                RuleRightItem::Variable(v) => {
                    let t = match self.declared_type(&v.name) {
                        None => {
                            return None;
                        },
                        Some(t) => t,
                    };
                    let w = t.byte_width();
                    if w > raw.len() - pos {
                        return None;
                    }
                    let mut got: Vec<u8> = Vec::new();
                    let mut k: usize = 0;
                    while k < w
                        invariant
                            k <= w,
                            pos + w <= raw.len(),
                            got@ == raw@.subrange(pos as int, pos + k),
                        decreases w - k,
                    {
                        got.push(raw[pos + k]);
                        assert(got@ =~= raw@.subrange(pos as int, pos + k + 1));
                        k = k + 1;
                    }
                    match find_capture_exec(&caps, &v.name) {
                        Some(prev) => {
                            if !bytes_equal(prev, &got) {
                                return None;
                            }
                        },
                        None => {
                            let ghost before = captures_view(caps@);
                            caps.push(Capture { name: v.name.clone(), bytes: got });
                            assert(captures_view(caps@) =~= before.push((v.name@, raw@.subrange(pos as int, pos + w))));
                        },
                    }
                    pos = pos + w;
                },
            }
            j = j + 1;
        }
        let ghost cv = captures_view(caps@);
        let mut buf: Vec<char> = Vec::new();
        let mut i: usize = 0;
        assert(rv.left.subrange(0, 0) =~= Seq::<LeftItem>::empty());
        while i < self.left_items.len()
            invariant
                rv == self@,
                cv == captures_view(caps@),
                i <= self.left_items.len(),
                buf@ == render_left(rv.left.subrange(0, i as int), cv),
            decreases self.left_items.len() - i,
        {
            let ghost sub = rv.left.subrange(0, i + 1);
            assert(sub.drop_last() =~= rv.left.subrange(0, i as int));
            assert(sub.last() == self.left_items@[i as int]@);
            match &self.left_items[i] {
                RuleLeftItem::Word(w) => {
                    extend_chars(&mut buf, &chars_of(w.as_str()));
                },
                RuleLeftItem::Variable(v) => {
                    match find_capture_exec(&caps, &v.name) {
                        Some(b) => {
                            buf.push('0');
                            buf.push('x');
                            push_hex(&mut buf, b);
                        },
                        None => {},
                    }
                },
            }
            buf.push(' ');
            assert(buf@ =~= render_left(sub, cv));
            i = i + 1;
        }
        assert(rv.left.subrange(0, i as int) =~= rv.left);
        Some(string_from(&buf, 0, buf.len()))
    }
}

fn bytes_at(raw: &Vec<u8>, pos: usize, lit: &Vec<u8>) -> (r: bool)
    requires
        pos + lit.len() <= raw.len(),
    ensures
        r == (raw@.subrange(pos as int, pos + lit.len()) == lit@),
{
    let mut k: usize = 0;
    while k < lit.len()
        invariant
            k <= lit.len(),
            pos + lit.len() <= raw.len(),
            forall|m: int| 0 <= m < k ==> raw@[pos + m] == lit@[m],
        decreases lit.len() - k,
    {
        if raw[pos + k] != lit[k] {
            assert(raw@.subrange(pos as int, pos + lit.len())[k as int] != lit@[k as int]);
            return false;
        }
        k = k + 1;
    }
    assert(raw@.subrange(pos as int, pos + lit.len()) =~= lit@);
    true
}

fn bytes_equal(a: &Vec<u8>, b: &Vec<u8>) -> (r: bool)
    ensures
        r == (a@ == b@),
{
    if a.len() != b.len() {
        return false;
    }
    let mut i: usize = 0;
    while i < a.len()
        invariant
            i <= a.len(),
            a.len() == b.len(),
            forall|k: int| 0 <= k < i ==> a@[k] == b@[k],
        decreases a.len() - i,
    {
        if a[i] != b[i] {
            return false;
        }
        i = i + 1;
    }
    assert(a@ =~= b@);
    true
}

/// A template that reads one variable twice accepts a byte sequence exactly
/// when both readings give the same bytes.
pub proof fn lemma_repeated_variable_consistent(
    rule: RuleView,
    raw: Seq<u8>,
    a: VariableView,
    b: VariableView,
    t: VariableType,
)
    requires
        rule.right == seq![RightItem::Var(a), RightItem::Var(b)],
        a.name == b.name,
        lookup_declared(rule.left, a.name) == Some(t),
        raw.len() >= 2 * t.width(),
    ensures
        disassemble(rule, raw) is Some <==> raw.subrange(0, t.width() as int) == raw.subrange(
            t.width() as int,
            2 * t.width() as int,
        ),
{
    let w = t.width() as int;
    let got = raw.subrange(0, w);
    let caps = Seq::<CaptureView>::empty().push((a.name, got));
    assert(find_capture(Seq::<CaptureView>::empty(), a.name) is None);
    assert(find_capture(caps, b.name) == Some(got));
    assert(read_template(rule, raw, 2, 2 * w, caps) == Some(caps));
    assert(read_template(rule, raw, 0, 0, Seq::empty()) == read_template(rule, raw, 1, w, caps));
}

/// Number of bytes that template item `item` reads.
pub open spec fn item_width(rule: RuleView, item: RightItem) -> nat {
    match item {
        RightItem::Number(n) => match encode_literal(n) {
            Some(b) => b.len(),
            None => 0,
        },
        RightItem::Var(v) => match lookup_declared(rule.left, v.name) {
            Some(t) => t.width(),
            None => 0,
        },
    }
}

/// Byte offset at which template item `j` starts reading.
pub open spec fn item_offset(rule: RuleView, j: int) -> nat
    decreases j,
{
    if j <= 0 || j > rule.right.len() {
        0
    } else {
        item_offset(rule, j - 1) + item_width(rule, rule.right[j - 1])
    }
}

/// The bytes that template item `k` reads from `raw`.
pub open spec fn item_bytes(rule: RuleView, raw: Seq<u8>, k: int) -> Seq<u8> {
    raw.subrange(
        item_offset(rule, k) as int,
        (item_offset(rule, k) + item_width(rule, rule.right[k])) as int,
    )
}

proof fn lemma_find_capture_push(caps: Seq<CaptureView>, x: CaptureView, n: Seq<char>)
    ensures
        find_capture(caps.push(x), n) == match find_capture(caps, n) {
            Some(b) => Some(b),
            None => if x.0 == n {
                Some(x.1)
            } else {
                None
            },
        },
    decreases caps.len(),
{
    if caps.len() > 0 {
        assert(caps.push(x)[0] == caps[0]);
        assert(caps.push(x).drop_first() =~= caps.drop_first().push(x));
        lemma_find_capture_push(caps.drop_first(), x, n);
    } else {
        assert(caps.push(x)[0] == x);
        assert(caps.push(x).drop_first() =~= Seq::<CaptureView>::empty());
        assert(find_capture(Seq::<CaptureView>::empty(), n) is None);
    }
}

proof fn lemma_read_captures(rule: RuleView, raw: Seq<u8>, j: int, caps: Seq<CaptureView>)
    requires
        0 <= j <= rule.right.len(),
        read_template(rule, raw, j, item_offset(rule, j) as int, caps) is Some,
    ensures
        ({
            let fin = read_template(rule, raw, j, item_offset(rule, j) as int, caps)->0;
            &&& forall|n: Seq<char>|
                find_capture(caps, n) is Some ==> #[trigger] find_capture(fin, n) == find_capture(
                    caps,
                    n,
                )
            &&& forall|k: int|
                j <= k < rule.right.len() && (#[trigger] rule.right[k]) is Var ==> find_capture(
                    fin,
                    rule.right[k]->Var_0.name,
                ) == Some(item_bytes(rule, raw, k))
        }),
    decreases rule.right.len() - j,
{
    if j < rule.right.len() {
        let pos = item_offset(rule, j) as int;
        let fin = read_template(rule, raw, j, pos, caps)->0;
        assert(item_offset(rule, j + 1) == pos + item_width(rule, rule.right[j]));
        match rule.right[j] {
            RightItem::Number(n) => {
                lemma_read_captures(rule, raw, j + 1, caps);
            },
            RightItem::Var(v) => {
                let t = lookup_declared(rule.left, v.name)->0;
                let got = raw.subrange(pos, pos + t.width());
                assert(got == item_bytes(rule, raw, j));
                match find_capture(caps, v.name) {
                    Some(prev) => {
                        lemma_read_captures(rule, raw, j + 1, caps);
                    },
                    None => {
                        let next = caps.push((v.name, got));
                        lemma_read_captures(rule, raw, j + 1, next);
                        assert forall|n: Seq<char>| find_capture(caps, n) is Some implies #[trigger] find_capture(
                            fin,
                            n,
                        ) == find_capture(caps, n) by {
                            lemma_find_capture_push(caps, (v.name, got), n);
                        }
                        lemma_find_capture_push(caps, (v.name, got), v.name);
                    },
                }
            },
        }
    }
}

/// Wherever a template reads the same variable twice, at items `k1` and
/// `k2`, disassembly succeeds only on bytes that hold the same value at both
/// places: when the two groups of bytes differ, no text comes out.
pub proof fn lemma_repeated_reads_agree(rule: RuleView, raw: Seq<u8>, k1: int, k2: int)
    requires
        0 <= k1 < k2 < rule.right.len(),
        rule.right[k1] is Var,
        rule.right[k2] is Var,
        rule.right[k1]->Var_0.name == rule.right[k2]->Var_0.name,
        disassemble(rule, raw) is Some,
    ensures
        item_bytes(rule, raw, k1) == item_bytes(rule, raw, k2),
{
    lemma_read_captures(rule, raw, 0, Seq::empty());
}

} // verus!
