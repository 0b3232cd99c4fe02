use vstd::prelude::*;

use crate::ast::variable_type::{parse_type, VariableType};
use crate::ast::{outcome, AstNode, AstNodeBuildError, ParseFailure};
use crate::stream::TokenStream;
use crate::tokens::{Token, TokenView};

verus! {

/// A named operand slot of a rule.
#[derive(Debug, PartialEq, Clone)]
pub struct Variable {
    pub v_type: VariableType,
    pub name: String,
}

pub struct VariableView {
    pub name: Seq<char>,
    pub v_type: VariableType,
}

impl View for Variable {
    type V = VariableView;

    open spec fn view(&self) -> VariableView {
        VariableView { name: self.name@, v_type: self.v_type }
    }
}

impl Variable {
    pub fn duplicate(&self) -> (r: Variable)
        ensures
            r@ == self@,
    {
        Variable { v_type: self.v_type, name: self.name.clone() }
    }
}

/// A declaration `name : type`: blanks before the name are skipped, and
/// whitespace between the name and the colon.
pub open spec fn parse_variable(ts: Seq<TokenView>) -> (Result<VariableView, ParseFailure>, Seq<
    TokenView,
>)
    decreases ts.len(),
{
    if ts.len() == 0 {
        (Err(ParseFailure::EndOfInput), ts)
    } else {
        match ts[0] {
            TokenView::Mark(Token::Error) => (Err(ParseFailure::Token), ts),
            TokenView::Comment(_) => parse_variable(ts.drop_first()),
            TokenView::Whitespace(_) => parse_variable(ts.drop_first()),
            TokenView::Word(n) => parse_variable_colon(n, ts.drop_first()),
            _ => (Err(ParseFailure::Unexpected), ts),
        }
    }
}

/// The part of a declaration after its name.
pub open spec fn parse_variable_colon(name: Seq<char>, ts: Seq<TokenView>) -> (Result<
    VariableView,
    ParseFailure,
>, Seq<TokenView>)
    decreases ts.len(),
{
    if ts.len() == 0 {
        (Err(ParseFailure::EndOfInput), ts)
    } else {
        match ts[0] {
            TokenView::Whitespace(_) => parse_variable_colon(name, ts.drop_first()),
            TokenView::Mark(Token::Colon) => {
                let (t, rest) = parse_type(ts.drop_first());
                match t {
                    Ok(v_type) => (Ok(VariableView { name, v_type }), rest),
                    Err(e) => (Err(e), rest),
                }
            },
            _ => (Err(ParseFailure::Unexpected), ts),
        }
    }
}

impl Variable {
    /// Reads a declaration `name : type`.
    pub fn build_from_tokens(s: &mut TokenStream) -> (r: Result<Variable, AstNodeBuildError>)
        ensures
            (outcome(r), final(s)@) == parse_variable(old(s)@),
    {
        loop
            invariant
                parse_variable(s@) == parse_variable(old(s)@),
            decreases s@.len(),
        {
            match s.peek() {
                None => {
                    return Err(AstNodeBuildError::UnexpectedEOS);
                },
                Some(Token::Error) => {
                    return Err(AstNodeBuildError::token_error());
                },
                Some(Token::Comment(_)) | Some(Token::Whitespace(_)) => {
                    s.advance();
                },
                Some(Token::Word(_)) => {
                    let name = match s.advance() {
                        Some(Token::Word(n)) => n,
                        _ => {
                            return Err(AstNodeBuildError::UnexpectedEOS);
                        },
                    };
                    return Self::build_after_name(name, s);
                },
                Some(_) => {
                    return Err(AstNodeBuildError::unexpected("expected a variable name"));
                },
            }
        }
    }

    fn build_after_name(name: String, s: &mut TokenStream) -> (r: Result<
        Variable,
        AstNodeBuildError,
    >)
        ensures
            (outcome(r), final(s)@) == parse_variable_colon(name@, old(s)@),
    {
        loop
            invariant
                parse_variable_colon(name@, s@) == parse_variable_colon(name@, old(s)@),
            decreases s@.len(),
        {
            match s.peek() {
                None => {
                    return Err(AstNodeBuildError::UnexpectedEOS);
                },
                Some(Token::Whitespace(_)) => {
                    s.advance();
                },
                Some(Token::Colon) => {
                    s.advance();
                    return match VariableType::build_from_tokens(s) {
                        Ok(v_type) => Ok(Variable { v_type, name }),
                        Err(e) => Err(e),
                    };
                },
                Some(_) => {
                    return Err(AstNodeBuildError::unexpected("expected `:` after the variable name"));
                },
            }
        }
    }
}

} // verus!
