use vstd::prelude::*;

use crate::ast::instruction::{parse_instruction, AsmInstruction};
use crate::ast::rule::RuleView;
use crate::ast::ruledef::{parse_ruledef, RuleDef};
use crate::ast::{outcome, AstNodeBuildError, ParseFailure};
use crate::stream::TokenStream;
use crate::text::text_is;
use crate::tokens::{Token, TokenView};

verus! {

/// What one parse step yields: a rule block or an instruction line.
#[derive(Debug, PartialEq)]
pub enum Statement {
    RuleDef(RuleDef),
    Instruction(AsmInstruction),
}

pub enum StatementView {
    RuleDef(Seq<RuleView>),
    Instruction(Seq<TokenView>),
}

impl View for Statement {
    type V = StatementView;

    open spec fn view(&self) -> StatementView {
        match self {
            Statement::RuleDef(d) => StatementView::RuleDef(d@),
            Statement::Instruction(i) => StatementView::Instruction(i@),
        }
    }
}

pub open spec fn ruledef_word() -> Seq<char> {
    seq!['r', 'u', 'l', 'e', 'd', 'e', 'f']
}

/// After `#ruledef`: line breaks and whitespace, then `{` and the block.
pub open spec fn parse_ruledef_open(ts: Seq<TokenView>) -> (Result<StatementView, ParseFailure>, Seq<
    TokenView,
>)
    decreases ts.len(),
{
    if ts.len() == 0 {
        (Err(ParseFailure::EndOfInput), ts)
    } else {
        match ts[0] {
            TokenView::Mark(Token::LineBreak) => parse_ruledef_open(ts.drop_first()),
            TokenView::Whitespace(_) => parse_ruledef_open(ts.drop_first()),
            TokenView::Mark(Token::BraceOpen) => {
                let (d, rest) = parse_ruledef(ts.drop_first());
                match d {
                    Ok(rules) => (Ok(StatementView::RuleDef(rules)), rest),
                    Err(e) => (Err(e), rest),
                }
            },
            _ => (Err(ParseFailure::Unexpected), ts),
        }
    }
}

/// One statement: blank lines, whitespace and comments are skipped; `#`
/// must be followed by the word `ruledef` and opens a rule block; a word
/// starts an instruction line; any other token is refused.
pub open spec fn parse_statement(ts: Seq<TokenView>) -> (Result<StatementView, ParseFailure>, Seq<
    TokenView,
>)
    decreases ts.len(),
{
    if ts.len() == 0 {
        (Err(ParseFailure::EndOfInput), ts)
    } else {
        let rest = ts.drop_first();
        match ts[0] {
            TokenView::Mark(Token::Hash) => if rest.len() == 0 {
                (Err(ParseFailure::EndOfInput), rest)
            } else if rest[0] == TokenView::Word(ruledef_word()) {
                parse_ruledef_open(rest.drop_first())
            } else {
                (Err(ParseFailure::Unexpected), rest)
            },
            TokenView::Whitespace(_) => parse_statement(rest),
            TokenView::Comment(_) => parse_statement(rest),
            TokenView::Mark(Token::LineBreak) => parse_statement(rest),
            TokenView::Word(_) => {
                let (i, after) = parse_instruction(ts);
                match i {
                    Ok(toks) => (Ok(StatementView::Instruction(toks)), after),
                    Err(e) => (Err(e), after),
                }
            },
            _ => (Err(ParseFailure::Unexpected), ts),
        }
    }
}

fn is_ruledef_word(t: &Token) -> (r: bool)
    ensures
        r == (t@ == TokenView::Word(ruledef_word())),
{
    proof {
        reveal_strlit("ruledef");
        assert("ruledef"@ =~= ruledef_word());
    }
    match t {
        Token::Word(w) => text_is(w, "ruledef"),
        _ => false,
    }
}

impl Statement {
    fn build_ruledef_block(s: &mut TokenStream) -> (r: Result<Statement, AstNodeBuildError>)
        ensures
            (outcome(r), final(s)@) == parse_ruledef_open(old(s)@),
    {
        loop
            invariant
                parse_ruledef_open(s@) == parse_ruledef_open(old(s)@),
            decreases s@.len(),
        {
            match s.peek() {
                None => {
                    return Err(AstNodeBuildError::UnexpectedEOS);
                },
                Some(Token::LineBreak) | Some(Token::Whitespace(_)) => {
                    s.advance();
                },
                Some(Token::BraceOpen) => {
                    s.advance();
                    return match RuleDef::build_from_tokens(s) {
                        Ok(d) => Ok(Statement::RuleDef(d)),
                        Err(e) => Err(e),
                    };
                },
                Some(_) => {
                    return Err(AstNodeBuildError::unexpected("expected `{` after `#ruledef`"));
                },
            }
        }
    }

    /// Reads the next statement of the stream.
    pub fn build_from_tokens(s: &mut TokenStream) -> (r: Result<Statement, AstNodeBuildError>)
        ensures
            (outcome(r), final(s)@) == parse_statement(old(s)@),
    {
        loop
            invariant
                parse_statement(s@) == parse_statement(old(s)@),
            decreases s@.len(),
        {
            match s.peek() {
                None => {
                    return Err(AstNodeBuildError::UnexpectedEOS);
                },
                Some(Token::Hash) => {
                    s.advance();
                    match s.peek() {
                        None => {
                            return Err(AstNodeBuildError::UnexpectedEOS);
                        },
                        Some(t) => {
                            if is_ruledef_word(t) {
                                s.advance();
                                return Self::build_ruledef_block(s);
                            } else {
                                return Err(AstNodeBuildError::unexpected("expected `ruledef` after `#`"));
                            }
                        },
                    }
                },
                Some(Token::Whitespace(_)) | Some(Token::Comment(_)) | Some(Token::LineBreak) => {
                    s.advance();
                },
                Some(Token::Word(_)) => {
                    return match AsmInstruction::build_from_tokens(s) {
                        Ok(i) => Ok(Statement::Instruction(i)),
                        Err(e) => Err(e),
                    };
                },
                Some(_) => {
                    return Err(AstNodeBuildError::unexpected("expected `#ruledef` or an instruction"));
                },
            }
        }
    }
}

} // verus!
