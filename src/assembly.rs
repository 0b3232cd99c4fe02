use vstd::prelude::*;

use crate::ast::instruction::AsmInstruction;
use crate::ast::rule::{LeftItem, RightItem, Rule, RuleLeftItem, RuleRightItem, RuleView};
use crate::encoding::{append_literal, append_value, distance, encode_literal, encode_value, word_distance};
use crate::text::{chars_of, string_from};
use crate::stream::views_of;
use crate::tokens::{Token, TokenView};

verus! {

/// Why a rule did not assemble an instruction.
#[derive(Debug, Clone, Copy, PartialEq, Eq, Structural)]
pub enum AssembleFailure {
    /// The pattern did not match; the score says how close it came.
    Mismatch(u32),
    /// The pattern matched, but a literal or an operand value has no encoding.
    BadLiteral,
}

pub open spec fn token_at(toks: Seq<TokenView>, i: int) -> Option<TokenView> {
    if 0 <= i < toks.len() {
        Some(toks[i])
    } else {
        None
    }
}

/// Score of one pattern item against the token at its position: `Ok` with
/// the gain of a match, `Err` with the contribution of a mismatch.
pub open spec fn item_score(item: LeftItem, tok: Option<TokenView>) -> Result<nat, nat> {
    match item {
        LeftItem::Word(w) => match tok {
            Some(TokenView::Word(x)) => if w == x {
                Ok(10)
            } else {
                Err(word_distance(w, x))
            },
            _ => Err(0),
        },
        LeftItem::Var(_) => match tok {
            Some(TokenView::Number(_)) => Ok(10),
            _ => Err(0),
        },
    }
}

/// Walks the pattern from item `i` with score `acc` so far: `Ok` with the
/// total when every item matches, else `Err` with the score up to and
/// including the first mismatch.
pub open spec fn match_score(left: Seq<LeftItem>, toks: Seq<TokenView>, i: int, acc: nat) -> Result<
    nat,
    nat,
>
    decreases left.len() - i,
{
    if i < 0 || i >= left.len() {
        Ok(acc)
    } else {
        match item_score(left[i], token_at(toks, i)) {
            Ok(s) => match_score(left, toks, i + 1, acc + s),
            Err(s) => Err(acc + s),
        }
    }
}

/// The number text matched by the last declaration of `name` among the
/// first `n` pattern items.
pub open spec fn bound_value(left: Seq<LeftItem>, toks: Seq<TokenView>, name: Seq<char>, n: int) -> Option<
    Seq<char>,
>
    decreases n,
{
    if n <= 0 || n > left.len() {
        None
    } else {
        match left[n - 1] {
            LeftItem::Var(v) => if v.name == name {
                match token_at(toks, n - 1) {
                    Some(TokenView::Number(x)) => Some(x),
                    _ => None,
                }
            } else {
                bound_value(left, toks, name, n - 1)
            },
            LeftItem::Word(_) => bound_value(left, toks, name, n - 1),
        }
    }
}

/// Bytes of one template item.
pub open spec fn template_piece(rule: RuleView, toks: Seq<TokenView>, item: RightItem) -> Option<
    Seq<u8>,
> {
    match item {
        RightItem::Number(n) => encode_literal(n),
        RightItem::Var(v) => match bound_value(rule.left, toks, v.name, rule.left.len() as int) {
            Some(x) => encode_value(x, v.v_type),
            None => None,
        },
    }
}

/// Bytes of the template from item `j` on.
pub open spec fn encode_template(rule: RuleView, toks: Seq<TokenView>, j: int) -> Option<Seq<u8>>
    decreases rule.right.len() - j,
{
    if j < 0 || j >= rule.right.len() {
        Some(Seq::empty())
    } else {
        match (template_piece(rule, toks, rule.right[j]), encode_template(rule, toks, j + 1)) {
            (Some(a), Some(b)) => Some(a + b),
            _ => None,
        }
    }
}

pub open spec fn clamp(x: nat) -> u32 {
    if x > u32::MAX {
        u32::MAX
    } else {
        x as u32
    }
}

/// What a rule makes of an instruction's tokens.
pub open spec fn assemble(rule: RuleView, toks: Seq<TokenView>) -> Result<Seq<u8>, AssembleFailure> {
    match match_score(rule.left, toks, 0, 0) {
        Err(s) => Err(AssembleFailure::Mismatch(clamp(s))),
        Ok(_) => match encode_template(rule, toks, 0) {
            Some(b) => Ok(b),
            None => Err(AssembleFailure::BadLiteral),
        },
    }
}

/// Text of one pattern item in a hint.
pub open spec fn item_hint(item: LeftItem) -> Seq<char> {
    match item {
        LeftItem::Word(w) => w,
        LeftItem::Var(v) => seq!['{'] + v.name + seq!['}'],
    }
}

/// The pattern written out, items separated by single spaces.
pub open spec fn hint_of(left: Seq<LeftItem>) -> Seq<char>
    decreases left.len(),
{
    if left.len() == 0 {
        Seq::empty()
    } else if left.len() == 1 {
        item_hint(left[0])
    } else {
        hint_of(left.drop_last()) + seq![' '] + item_hint(left.last())
    }
}

pub fn extend_chars(out: &mut Vec<char>, s: &Vec<char>)
    ensures
        final(out)@ == old(out)@ + s@,
{
    let ghost start = out@;
    let mut i: usize = 0;
    while i < s.len()
        invariant
            i <= s.len(),
            out@ == start + s@.subrange(0, i as int),
        decreases s.len() - i,
    {
        out.push(s[i]);
        assert(s@.subrange(0, i + 1) =~= s@.subrange(0, i as int).push(s@[i as int]));
        i = i + 1;
    }
    assert(s@.subrange(0, i as int) =~= s@);
}

fn clamp_usize(x: usize) -> (r: u32)
    ensures
        r == clamp(x as nat),
{
    if x > u32::MAX as usize {
        u32::MAX
    } else {
        x as u32
    }
}

fn score_item(item: &RuleLeftItem, tok: Option<&Token>) -> (r: Result<usize, usize>)
    ensures
        ({
            let t = match tok {
                Some(t) => Some(t@),
                None => None,
            };
            match r {
                Ok(s) => item_score(item@, t) == Ok::<nat, nat>(s as nat),
                Err(s) => item_score(item@, t) == Err::<nat, nat>(s as nat),
            }
        }),
{
    match item {
        RuleLeftItem::Word(w) => match tok {
            Some(Token::Word(x)) => {
                if *w == *x {
                    Ok(10)
                } else {
                    let a = chars_of(w.as_str());
                    let b = chars_of(x.as_str());
                    Err(distance(&a, &b))
                }
            },
            _ => Err(0),
        },
        RuleLeftItem::Variable(_) => match tok {
            Some(Token::Number(_)) => Ok(10),
            _ => Err(0),
        },
    }
}

impl Rule {
    /// The pattern written out: words as they are, variables as `{name}`,
    /// separated by single spaces.
    pub fn get_hint(&self) -> (r: String)
        ensures
            r@ == hint_of(self@.left),
    {
        let mut buf: Vec<char> = Vec::new();
        let mut i: usize = 0;
        while i < self.left_items.len()
            invariant
                i <= self.left_items.len(),
                buf@ == hint_of(self@.left.subrange(0, i as int)),
            decreases self.left_items.len() - i,
        {
            let ghost sub = self@.left.subrange(0, i + 1);
            assert(sub.drop_last() =~= self@.left.subrange(0, i as int));
            if i > 0 {
                buf.push(' ');
            }
            match &self.left_items[i] {
                RuleLeftItem::Word(w) => {
                    extend_chars(&mut buf, &chars_of(w.as_str()));
                },
                RuleLeftItem::Variable(v) => {
                    buf.push('{');
                    extend_chars(&mut buf, &chars_of(v.name.as_str()));
                    buf.push('}');
                },
            }
            proof {
                if i == 0 {
                    assert(hint_of(sub) == item_hint(sub[0]));
                }
            }
            assert(buf@ =~= hint_of(sub));
            i = i + 1;
        }
        assert(self@.left.subrange(0, i as int) =~= self@.left);
        string_from(&buf, 0, buf.len())
    }

    /// The number text bound to `name` by the pattern match.
    fn bound_value_of<'a>(&self, toks: &'a Vec<Token>, name: &String) -> (r: Option<&'a String>)
        ensures
            match r {
                Some(x) => bound_value(self@.left, views_of(toks@), name@, self@.left.len() as int) == Some(x@),
                None => bound_value(self@.left, views_of(toks@), name@, self@.left.len() as int) is None,
            },
    {
        let ghost left = self@.left;
        let ghost tv = views_of(toks@);
        let mut n = self.left_items.len();
        while n > 0
            invariant
                n <= self.left_items.len(),
                left == self@.left,
                tv == views_of(toks@),
                bound_value(left, tv, name@, left.len() as int) == bound_value(left, tv, name@, n as int),
            decreases n,
        {
            match &self.left_items[n - 1] {
                RuleLeftItem::Variable(v) => {
                    if v.name == *name {
                        proof {
                            assert(tv.len() == toks@.len());
                            if n - 1 < toks.len() {
                                assert(tv[n - 1] == toks@[n - 1]@);
                            }
                        }
                        if n - 1 < toks.len() {
                            match &toks[n - 1] {
                                Token::Number(x) => {
                                    return Some(x);
                                },
                                _ => {
                                    return None;
                                },
                            }
                        } else {
                            return None;
                        }
                    }
                },
                RuleLeftItem::Word(_) => {},
            }
            n = n - 1;
        }
        None
    }

    /// Matches the instruction against the pattern and, on a match, renders
    /// the template into bytes.
    pub fn try_assemble(&self, instruction: &AsmInstruction) -> (r: Result<Vec<u8>, AssembleFailure>)
        ensures
            match r {
                Ok(b) => assemble(self@, instruction@) == Ok::<Seq<u8>, AssembleFailure>(b@),
                Err(f) => assemble(self@, instruction@) == Err::<Seq<u8>, AssembleFailure>(f),
            },
    {
        let toks = &instruction.instructions;
        let ghost tv = instruction@;
        let ghost rv = self@;
        let mut total: u32 = 0;
        let ghost mut acc: nat = 0;
        let mut i: usize = 0;
        while i < self.left_items.len()
            invariant
                i <= self.left_items.len(),
                rv == self@,
                tv == instruction@,
                tv == views_of(toks@),
                match_score(rv.left, tv, 0, 0) == match_score(rv.left, tv, i as int, acc),
                total == clamp(acc),
            decreases self.left_items.len() - i,
        {
            let tok = if i < toks.len() {
                Some(&toks[i])
            } else {
                None
            };
            match score_item(&self.left_items[i], tok) {
                Ok(s) => {
                    total = total.saturating_add(clamp_usize(s));
                    proof {
                        acc = acc + s as nat;
                    }
                },
                Err(s) => {
                    return Err(AssembleFailure::Mismatch(total.saturating_add(clamp_usize(s))));
                },
            }
            i = i + 1;
        }
        let mut out: Vec<u8> = Vec::new();
        let mut j: usize = 0;
        assert(out@ + Seq::<u8>::empty() =~= out@);
        while j < self.right_items.len()
            invariant
                j <= self.right_items.len(),
                rv == self@,
                tv == instruction@,
                tv == views_of(toks@),
                match_score(rv.left, tv, 0, 0) is Ok,
                encode_template(rv, tv, 0) is Some <==> encode_template(rv, tv, j as int) is Some,
                encode_template(rv, tv, j as int) is Some ==> encode_template(rv, tv, 0)->0 == out@
                    + encode_template(rv, tv, j as int)->0,
            decreases self.right_items.len() - j,
        {
            let ghost before = out@;
            assert(rv.right[j as int] == self.right_items@[j as int]@);
            let ok = match &self.right_items[j] {
                RuleRightItem::Number(n) => append_literal(&chars_of(n.value.as_str()), &mut out),
                RuleRightItem::Variable(v) => match self.bound_value_of(toks, &v.name) {
                    None => false,
                    Some(x) => append_value(&chars_of(x.as_str()), v.v_type, &mut out),
                },
            };
            if !ok {
                return Err(AssembleFailure::BadLiteral);
            }
            proof {
                let piece = template_piece(rv, tv, rv.right[j as int]);
                assert(out@ == before + piece->0);
                if encode_template(rv, tv, j + 1) is Some {
                    assert(before + (piece->0 + encode_template(rv, tv, j + 1)->0) =~= out@
                        + encode_template(rv, tv, j + 1)->0);
                }
            }
            j = j + 1;
        }
        assert(out@ + Seq::<u8>::empty() =~= out@);
        Ok(out)
    }
}


} // verus!
