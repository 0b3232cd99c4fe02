use vstd::prelude::*;

use crate::assembly::{assemble, hint_of, AssembleFailure};
use crate::ast::instruction::AsmInstruction;
use crate::ast::rule::{Rule, RuleView};
use crate::disassembly::disassemble;
use crate::tokens::TokenView;

verus! {

/// Why the registry could not assemble an instruction or disassemble bytes.
#[derive(Debug, Clone, PartialEq)]
pub enum ContextError {
    /// No rule matched the instruction; the hint writes out the pattern of
    /// the rule that came closest.
    NoMatchingRule(String),
    /// The registry holds no rule.
    NoRules,
    /// A rule matched, but a literal or an operand value has no encoding.
    UnsupportedLiteral,
    /// No rule fits the bytes.
    UnableToDisassemble,
}

pub enum ContextErrorView {
    NoMatchingRule(Seq<char>),
    NoRules,
    UnsupportedLiteral,
    UnableToDisassemble,
}

impl View for ContextError {
    type V = ContextErrorView;

    open spec fn view(&self) -> ContextErrorView {
        match self {
            ContextError::NoMatchingRule(h) => ContextErrorView::NoMatchingRule(h@),
            ContextError::NoRules => ContextErrorView::NoRules,
            ContextError::UnsupportedLiteral => ContextErrorView::UnsupportedLiteral,
            ContextError::UnableToDisassemble => ContextErrorView::UnableToDisassemble,
        }
    }
}

/// The closest miss so far after seeing a rule at index `i` with score `s`:
/// it replaces the one remembered only on a strictly greater score.
pub open spec fn keep_best(best: Option<(int, u32)>, i: int, s: u32) -> Option<(int, u32)> {
    match best {
        Some((k, b)) => if s > b {
            Some((i, s))
        } else {
            Some((k, b))
        },
        None => Some((i, s)),
    }
}

/// Tries the rules from index `i` on, in order, remembering the closest miss.
pub open spec fn assemble_from(
    rules: Seq<RuleView>,
    toks: Seq<TokenView>,
    i: int,
    best: Option<(int, u32)>,
) -> Result<Seq<u8>, ContextErrorView>
    decreases rules.len() - i,
{
    if i < 0 || i >= rules.len() {
        match best {
            Some((k, _)) => Err(ContextErrorView::NoMatchingRule(hint_of(rules[k].left))),
            None => Err(ContextErrorView::NoRules),
        }
    } else {
        match assemble(rules[i], toks) {
            Ok(b) => Ok(b),
            Err(AssembleFailure::BadLiteral) => Err(ContextErrorView::UnsupportedLiteral),
            Err(AssembleFailure::Mismatch(s)) => assemble_from(rules, toks, i + 1, keep_best(best, i, s)),
        }
    }
}

pub open spec fn context_assemble(rules: Seq<RuleView>, toks: Seq<TokenView>) -> Result<
    Seq<u8>,
    ContextErrorView,
> {
    assemble_from(rules, toks, 0, None)
}

/// Text from the first rule, from index `i` on, that fits the bytes.
pub open spec fn disassemble_from(rules: Seq<RuleView>, raw: Seq<u8>, i: int) -> Result<
    Seq<char>,
    ContextErrorView,
>
    decreases rules.len() - i,
{
    if i < 0 || i >= rules.len() {
        Err(ContextErrorView::UnableToDisassemble)
    } else {
        match disassemble(rules[i], raw) {
            Some(t) => Ok(t),
            None => disassemble_from(rules, raw, i + 1),
        }
    }
}

pub open spec fn context_disassemble(rules: Seq<RuleView>, raw: Seq<u8>) -> Result<
    Seq<char>,
    ContextErrorView,
> {
    disassemble_from(rules, raw, 0)
}

/// The rules learned so far, in the order they were added; that order is
/// the order of matching priority.
#[derive(Debug, Clone)]
pub struct Context {
    rules: Vec<Rule>,
}

impl View for Context {
    type V = Seq<RuleView>;

    closed spec fn view(&self) -> Seq<RuleView> {
        self.rules@.map_values(|r: Rule| r@)
    }
}

impl Context {
    pub fn new() -> (r: Context)
        ensures
            r@ == Seq::<RuleView>::empty(),
    {
        let r = Context { rules: Vec::new() };
        assert(r@ =~= Seq::<RuleView>::empty());
        r
    }

    /// Appends a rule, after every rule already held.
    pub fn add_rule(&mut self, rule: Rule)
        ensures
            final(self)@ == old(self)@.push(rule@),
    {
        let ghost r = rule@;
        self.rules.push(rule);
        assert(self@ =~= old(self)@.push(r));
    }

    /// Bytes of the first rule that assembles the instruction; when none
    /// does, the hint of the closest miss.
    pub fn try_assemble(&self, instruction: &AsmInstruction) -> (r: Result<Vec<u8>, ContextError>)
        ensures
            match r {
                Ok(b) => context_assemble(self@, instruction@) == Ok::<Seq<u8>, ContextErrorView>(b@),
                Err(e) => context_assemble(self@, instruction@) == Err::<Seq<u8>, ContextErrorView>(e@),
            },
    {
        let ghost rv = self@;
        let mut best: Option<(usize, u32)> = None;
        let mut i: usize = 0;
        while i < self.rules.len()
            invariant
                rv == self@,
                i <= self.rules.len(),
                best matches Some((k, _)) ==> k < i,
                context_assemble(rv, instruction@) == assemble_from(
                    rv,
                    instruction@,
                    i as int,
                    match best {
                        Some((k, s)) => Some((k as int, s)),
                        None => None,
                    },
                ),
            decreases self.rules.len() - i,
        {
            assert(rv[i as int] == self.rules@[i as int]@);
            match self.rules[i].try_assemble(instruction) {
                Ok(b) => {
                    return Ok(b);
                },
                Err(AssembleFailure::BadLiteral) => {
                    return Err(ContextError::UnsupportedLiteral);
                },
                Err(AssembleFailure::Mismatch(s)) => {
                    best = match best {
                        Some((k, b)) => if s > b {
                            Some((i, s))
                        } else {
                            Some((k, b))
                        },
                        None => Some((i, s)),
                    };
                },
            }
            i = i + 1;
        }
        match best {
            Some((k, _)) => {
                assert(rv[k as int] == self.rules@[k as int]@);
                Err(ContextError::NoMatchingRule(self.rules[k].get_hint()))
            },
            None => Err(ContextError::NoRules),
        }
    }

    /// Text of the first rule that fits the bytes.
    pub fn try_disassemble(&self, bytes: &Vec<u8>) -> (r: Result<String, ContextError>)
        ensures
            match r {
                Ok(t) => context_disassemble(self@, bytes@) == Ok::<Seq<char>, ContextErrorView>(t@),
                Err(e) => context_disassemble(self@, bytes@) == Err::<Seq<char>, ContextErrorView>(e@),
            },
    {
        let ghost rv = self@;
        let mut i: usize = 0;
        while i < self.rules.len()
            invariant
                rv == self@,
                i <= self.rules.len(),
                context_disassemble(rv, bytes@) == disassemble_from(rv, bytes@, i as int),
            decreases self.rules.len() - i,
        {
            assert(rv[i as int] == self.rules@[i as int]@);
            match self.rules[i].try_disassemble(bytes) {
                Some(t) => {
                    return Ok(t);
                },
                None => {},
            }
            i = i + 1;
        }
        Err(ContextError::UnableToDisassemble)
    }
}

proof fn lemma_assemble_reaches(
    rules: Seq<RuleView>,
    toks: Seq<TokenView>,
    i: int,
    k: int,
    best: Option<(int, u32)>,
)
    requires
        0 <= k <= i < rules.len(),
        assemble(rules[i], toks) is Ok,
        forall|m: int|
            0 <= m < i ==> #[trigger] assemble(rules[m], toks) matches Err(
                AssembleFailure::Mismatch(_),
            ),
    ensures
        assemble_from(rules, toks, k, best) == Ok::<Seq<u8>, ContextErrorView>(
            assemble(rules[i], toks)->Ok_0,
        ),
    decreases i - k,
{
    if k < i {
        let s = assemble(rules[k], toks)->Err_0->Mismatch_0;
        lemma_assemble_reaches(rules, toks, i, k + 1, keep_best(best, k, s));
    }
}

/// First-match priority: when the rule at index `i` assembles the
/// instruction and every rule registered before it misses its pattern, the
/// registry answers with the bytes of that rule, whatever the scores of the
/// misses and whatever rules registered later would give. (An earlier rule
/// whose pattern matches but whose template has no encoding ends the search
/// with `UnsupportedLiteral` instead.)
pub proof fn lemma_first_match_wins(rules: Seq<RuleView>, toks: Seq<TokenView>, i: int)
    requires
        0 <= i < rules.len(),
        assemble(rules[i], toks) is Ok,
        forall|k: int|
            0 <= k < i ==> #[trigger] assemble(rules[k], toks) matches Err(
                AssembleFailure::Mismatch(_),
            ),
    ensures
        context_assemble(rules, toks) == Ok::<Seq<u8>, ContextErrorView>(
            assemble(rules[i], toks)->Ok_0,
        ),
{
    lemma_assemble_reaches(rules, toks, i, 0, None);
}

proof fn lemma_disassemble_reaches(rules: Seq<RuleView>, raw: Seq<u8>, i: int, k: int)
    requires
        0 <= k <= i < rules.len(),
        disassemble(rules[i], raw) is Some,
        forall|m: int| 0 <= m < i ==> #[trigger] disassemble(rules[m], raw) is None,
    ensures
        disassemble_from(rules, raw, k) == Ok::<Seq<char>, ContextErrorView>(
            disassemble(rules[i], raw)->0,
        ),
    decreases i - k,
{
    if k < i {
        lemma_disassemble_reaches(rules, raw, i, k + 1);
    }
}

/// Disassembly answers with the first rule, in registration order, that fits
/// the bytes; which rule produced the bytes plays no part. So assembling and
/// then disassembling gives back the text of an earlier rule whenever that
/// rule also fits the bytes.
pub proof fn lemma_first_fit_disassembles(rules: Seq<RuleView>, raw: Seq<u8>, i: int)
    requires
        0 <= i < rules.len(),
        disassemble(rules[i], raw) is Some,
        forall|k: int| 0 <= k < i ==> #[trigger] disassemble(rules[k], raw) is None,
    ensures
        context_disassemble(rules, raw) == Ok::<Seq<char>, ContextErrorView>(
            disassemble(rules[i], raw)->0,
        ),
{
    lemma_disassemble_reaches(rules, raw, i, 0);
}

} // verus!
