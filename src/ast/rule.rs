use vstd::prelude::*;

use crate::ast::variable::{parse_variable, Variable, VariableView};
use crate::ast::variable_type::VariableType;
use crate::ast::{outcome, AstNodeBuildError, ParseFailure};
use crate::stream::TokenStream;
use crate::tokens::{Token, TokenView};

verus! {

/// A numeric literal of a rule's encoding template, as written.
#[derive(Debug, PartialEq, Clone)]
pub struct RuleNumber {
    pub value: String,
}

/// One element of a rule's match pattern.
#[derive(Debug, PartialEq, Clone)]
pub enum RuleLeftItem {
    Word(String),
    Variable(Variable),
}

/// One element of a rule's encoding template.
#[derive(Debug, PartialEq, Clone)]
pub enum RuleRightItem {
    Variable(Variable),
    Number(RuleNumber),
}

/// A mapping between an instruction pattern (left) and its encoding (right).
#[derive(Debug, PartialEq, Clone)]
pub struct Rule {
    pub left_items: Vec<RuleLeftItem>,
    pub right_items: Vec<RuleRightItem>,
}

pub enum LeftItem {
    Word(Seq<char>),
    Var(VariableView),
}

pub enum RightItem {
    Var(VariableView),
    Number(Seq<char>),
}

pub struct RuleView {
    pub left: Seq<LeftItem>,
    pub right: Seq<RightItem>,
}

impl View for RuleLeftItem {
    type V = LeftItem;

    open spec fn view(&self) -> LeftItem {
        match self {
            RuleLeftItem::Word(w) => LeftItem::Word(w@),
            RuleLeftItem::Variable(v) => LeftItem::Var(v@),
        }
    }
}

impl View for RuleRightItem {
    type V = RightItem;

    open spec fn view(&self) -> RightItem {
        match self {
            RuleRightItem::Variable(v) => RightItem::Var(v@),
            RuleRightItem::Number(n) => RightItem::Number(n.value@),
        }
    }
}

impl View for Rule {
    type V = RuleView;

    open spec fn view(&self) -> RuleView {
        RuleView {
            left: self.left_items@.map_values(|i: RuleLeftItem| i@),
            right: self.right_items@.map_values(|i: RuleRightItem| i@),
        }
    }
}

/// The type of the last declaration of `name` in a match pattern.
pub open spec fn lookup_declared(left: Seq<LeftItem>, name: Seq<char>) -> Option<VariableType>
    decreases left.len(),
{
    if left.len() == 0 {
        None
    } else {
        match left.last() {
            LeftItem::Var(v) => if v.name == name {
                Some(v.v_type)
            } else {
                lookup_declared(left.drop_last(), name)
            },
            LeftItem::Word(_) => lookup_declared(left.drop_last(), name),
        }
    }
}

/// Where the rule parser stands: in the pattern, in the template, after a
/// declaration waiting for its `}`, or inside a `{...}` reference (and
/// whether the reference has its name yet).
pub enum RulePhase {
    Left,
    Right,
    Closing(VariableView),
    Reference(bool),
}

pub open spec fn with_left(rule: RuleView, item: LeftItem) -> RuleView {
    RuleView { left: rule.left.push(item), right: rule.right }
}

pub open spec fn with_right(rule: RuleView, item: RightItem) -> RuleView {
    RuleView { left: rule.left, right: rule.right.push(item) }
}

/// One rule line: pattern words and `{name: type}` declarations, `=>`, then
/// template numbers and `{name}` references to declared names. The line
/// break that ends it is left in the stream.
pub open spec fn parse_rule_from(ts: Seq<TokenView>, phase: RulePhase, rule: RuleView) -> (Result<
    RuleView,
    ParseFailure,
>, Seq<TokenView>)
    decreases ts.len(),
{
    if ts.len() == 0 {
        (Err(ParseFailure::EndOfInput), ts)
    } else {
        let rest = ts.drop_first();
        match phase {
            RulePhase::Closing(var) => match ts[0] {
                TokenView::Whitespace(_) => parse_rule_from(rest, phase, rule),
                TokenView::Mark(Token::BraceClose) => if rest.len() == 0 {
                    (Err(ParseFailure::EndOfInput), rest)
                } else {
                    parse_rule_from(rest, RulePhase::Left, with_left(rule, LeftItem::Var(var)))
                },
                _ => (Err(ParseFailure::Unexpected), ts),
            },
            RulePhase::Reference(found) => match ts[0] {
                TokenView::Whitespace(_) => parse_rule_from(rest, phase, rule),
                TokenView::Word(n) => if found {
                    (Err(ParseFailure::Unexpected), rest)
                } else {
                    match lookup_declared(rule.left, n) {
                        None => (Err(ParseFailure::Unresolved), rest),
                        Some(t) => parse_rule_from(
                            rest,
                            RulePhase::Reference(true),
                            with_right(rule, RightItem::Var(VariableView { name: n, v_type: t })),
                        ),
                    }
                },
                TokenView::Mark(Token::BraceClose) => if rest.len() == 0 {
                    (Err(ParseFailure::EndOfInput), rest)
                } else {
                    parse_rule_from(rest, RulePhase::Right, rule)
                },
                _ => (Err(ParseFailure::Unexpected), ts),
            },
            _ => {
                let left = phase is Left;
                match ts[0] {
                    TokenView::Mark(Token::Error) => (Err(ParseFailure::Token), ts),
                    TokenView::Whitespace(_) => parse_rule_from(rest, phase, rule),
                    TokenView::Comment(_) => parse_rule_from(rest, phase, rule),
                    TokenView::Word(w) => if left {
                        parse_rule_from(rest, phase, with_left(rule, LeftItem::Word(w)))
                    } else {
                        (Err(ParseFailure::Unexpected), rest)
                    },
                    TokenView::Number(n) => if left {
                        (Err(ParseFailure::Unexpected), rest)
                    } else {
                        parse_rule_from(rest, phase, with_right(rule, RightItem::Number(n)))
                    },
                    TokenView::Mark(Token::BraceOpen) => if left {
                        let (v, after) = parse_variable(rest);
                        match v {
                            Err(e) => (Err(e), after),
                            Ok(var) => if after.len() < ts.len() {
                                parse_rule_from(after, RulePhase::Closing(var), rule)
                            } else {
                                (Err(ParseFailure::EndOfInput), after)
                            },
                        }
                    } else {
                        parse_rule_from(rest, RulePhase::Reference(false), rule)
                    },
                    TokenView::Mark(Token::HeavyArrowRight) => parse_rule_from(
                        rest,
                        RulePhase::Right,
                        rule,
                    ),
                    TokenView::Mark(Token::LineBreak) => (Ok(rule), ts),
                    _ => (Err(ParseFailure::Unexpected), ts),
                }
            },
        }
    }
}

pub open spec fn empty_rule() -> RuleView {
    RuleView { left: Seq::empty(), right: Seq::empty() }
}

pub open spec fn parse_rule(ts: Seq<TokenView>) -> (Result<RuleView, ParseFailure>, Seq<TokenView>) {
    parse_rule_from(ts, RulePhase::Left, empty_rule())
}

enum Phase {
    Left,
    Right,
    Closing(Variable),
    Reference(bool),
}

impl View for Phase {
    type V = RulePhase;

    closed spec fn view(&self) -> RulePhase {
        match self {
            Phase::Left => RulePhase::Left,
            Phase::Right => RulePhase::Right,
            Phase::Closing(v) => RulePhase::Closing(v@),
            Phase::Reference(b) => RulePhase::Reference(*b),
        }
    }
}

impl Rule {
    /// The type of the last declaration of `name` in the pattern.
    pub(crate) fn declared_type(&self, name: &String) -> (r: Option<VariableType>)
        ensures
            r == lookup_declared(self@.left, name@),
    {
        let ghost left = self@.left;
        let mut i = self.left_items.len();
        assert(left.subrange(0, i as int) =~= left);
        while i > 0
            invariant
                i <= self.left_items.len(),
                left == self@.left,
                lookup_declared(left, name@) == lookup_declared(left.subrange(0, i as int), name@),
            decreases i,
        {
            let ghost sub = left.subrange(0, i as int);
            assert(sub.drop_last() =~= left.subrange(0, i - 1));
            match &self.left_items[i - 1] {
                RuleLeftItem::Variable(v) => {
                    if v.name == *name {
                        return Some(v.v_type);
                    }
                },
                RuleLeftItem::Word(_) => {},
            }
            i = i - 1;
        }
        None
    }

    fn push_left(&mut self, item: RuleLeftItem)
        ensures
            final(self)@ == with_left(old(self)@, item@),
    {
        self.left_items.push(item);
        assert(self@.left =~= old(self)@.left.push(item@));
    }

    fn push_right(&mut self, item: RuleRightItem)
        ensures
            final(self)@ == with_right(old(self)@, item@),
    {
        self.right_items.push(item);
        assert(self@.right =~= old(self)@.right.push(item@));
    }

    /// Reads one rule line, up to (not including) the line break that ends it.
    pub fn build_from_tokens(s: &mut TokenStream) -> (r: Result<Rule, AstNodeBuildError>)
        ensures
            (outcome(r), final(s)@) == parse_rule(old(s)@),
    {
        let mut rule = Rule { left_items: Vec::new(), right_items: Vec::new() };
        let mut phase = Phase::Left;
        assert(rule@.left =~= Seq::<LeftItem>::empty());
        assert(rule@.right =~= Seq::<RightItem>::empty());
        loop
            invariant
                parse_rule_from(s@, phase@, rule@) == parse_rule(old(s)@),
            decreases s@.len(),
        {
            let n0 = s.len();
            let tok = match s.advance() {
                None => {
                    return Err(AstNodeBuildError::UnexpectedEOS);
                },
                Some(t) => t,
            };
            match phase {
                Phase::Closing(var) => {
                    match tok {
                        Token::Whitespace(_) => {
                            phase = Phase::Closing(var);
                        },
                        Token::BraceClose => {
                            if s.len() == 0 {
                                return Err(AstNodeBuildError::UnexpectedEOS);
                            }
                            rule.push_left(RuleLeftItem::Variable(var));
                            phase = Phase::Left;
                        },
                        _ => {
                            s.push_front(tok);
                            return Err(AstNodeBuildError::unexpected("expected `}` after the declaration"));
                        },
                    }
                },
                Phase::Reference(found) => {
                    match tok {
                        Token::Whitespace(_) => {},
                        Token::Word(n) => {
                            if found {
                                return Err(AstNodeBuildError::unexpected("only one variable between braces is expected"));
                            }
                            match rule.declared_type(&n) {
                                None => {
                                    return Err(AstNodeBuildError::unresolved(&n));
                                },
                                Some(t) => {
                                    rule.push_right(RuleRightItem::Variable(Variable { v_type: t, name: n }));
                                    phase = Phase::Reference(true);
                                },
                            }
                        },
                        Token::BraceClose => {
                            if s.len() == 0 {
                                return Err(AstNodeBuildError::UnexpectedEOS);
                            }
                            phase = Phase::Right;
                        },
                        _ => {
                            s.push_front(tok);
                            return Err(AstNodeBuildError::unexpected("expected a variable name or `}`"));
                        },
                    }
                },
                _ => {
                    let left = matches!(phase, Phase::Left);
                    match tok {
                        Token::Error => {
                            s.push_front(tok);
                            return Err(AstNodeBuildError::token_error());
                        },
                        Token::Whitespace(_) => {},
                        Token::Comment(_) => {},
                        Token::Word(w) => {
                            if left {
                                rule.push_left(RuleLeftItem::Word(w));
                            } else {
                                return Err(AstNodeBuildError::unexpected("unexpected word in the right side of the rule"));
                            }
                        },
                        Token::Number(n) => {
                            if left {
                                return Err(AstNodeBuildError::unexpected("unexpected number in the left side of the rule"));
                            } else {
                                rule.push_right(RuleRightItem::Number(RuleNumber { value: n }));
                            }
                        },
                        Token::BraceOpen => {
                            if left {
                                let var = match Variable::build_from_tokens(s) {
                                    Ok(v) => v,
                                    Err(e) => {
                                        return Err(e);
                                    },
                                };
                                if s.len() >= n0 {
                                    return Err(AstNodeBuildError::UnexpectedEOS);
                                }
                                phase = Phase::Closing(var);
                            } else {
                                phase = Phase::Reference(false);
                            }
                        },
                        Token::HeavyArrowRight => {
                            phase = Phase::Right;
                        },
                        Token::LineBreak => {
                            s.push_front(tok);
                            return Ok(rule);
                        },
                        _ => {
                            s.push_front(tok);
                            return Err(AstNodeBuildError::unexpected("unexpected token in a rule"));
                        },
                    }
                },
            }
        }
    }
}

} // verus!
