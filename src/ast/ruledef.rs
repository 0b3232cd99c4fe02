use vstd::prelude::*;

use crate::ast::rule::{parse_rule, Rule, RuleView};
use crate::ast::{outcome, AstNodeBuildError, ParseFailure};
use crate::stream::TokenStream;
use crate::tokens::{Token, TokenView};

verus! {

/// The rules of one `#ruledef { ... }` block, in order.
#[derive(Debug, PartialEq)]
pub struct RuleDef {
    pub rules: Vec<Rule>,
}

impl View for RuleDef {
    type V = Seq<RuleView>;

    open spec fn view(&self) -> Seq<RuleView> {
        self.rules@.map_values(|r: Rule| r@)
    }
}

/// The body of a rule block after its `{`: rules, blank lines, whitespace
/// and comments, up to and including the closing `}`.
pub open spec fn parse_ruledef_from(ts: Seq<TokenView>, rules: Seq<RuleView>) -> (Result<
    Seq<RuleView>,
    ParseFailure,
>, Seq<TokenView>)
    decreases ts.len(),
{
    if ts.len() == 0 {
        (Err(ParseFailure::EndOfInput), ts)
    } else {
        match ts[0] {
            TokenView::Mark(Token::Error) => (Err(ParseFailure::Token), ts),
            TokenView::Whitespace(_) => parse_ruledef_from(ts.drop_first(), rules),
            TokenView::Comment(_) => parse_ruledef_from(ts.drop_first(), rules),
            TokenView::Mark(Token::LineBreak) => parse_ruledef_from(ts.drop_first(), rules),
            TokenView::Mark(Token::BraceClose) => (Ok(rules), ts.drop_first()),
            _ => {
                let (r, after) = parse_rule(ts);
                match r {
                    Err(e) => (Err(e), after),
                    Ok(rule) => if after.len() < ts.len() {
                        parse_ruledef_from(after, rules.push(rule))
                    } else {
                        (Err(ParseFailure::EndOfInput), after)
                    },
                }
            },
        }
    }
}

pub open spec fn parse_ruledef(ts: Seq<TokenView>) -> (Result<Seq<RuleView>, ParseFailure>, Seq<
    TokenView,
>) {
    parse_ruledef_from(ts, Seq::empty())
}

impl RuleDef {
    /// Reads the rules of a block whose `{` has been consumed, through its `}`.
    pub fn build_from_tokens(s: &mut TokenStream) -> (r: Result<RuleDef, AstNodeBuildError>)
        ensures
            (outcome(r), final(s)@) == parse_ruledef(old(s)@),
    {
        let mut rules: Vec<Rule> = Vec::new();
        assert(rules@.map_values(|r: Rule| r@) =~= Seq::<RuleView>::empty());
        loop
            invariant
                parse_ruledef_from(s@, rules@.map_values(|r: Rule| r@)) == parse_ruledef(
                    old(s)@,
                ),
            decreases s@.len(),
        {
            let n0 = s.len();
            match s.peek() {
                None => {
                    return Err(AstNodeBuildError::UnexpectedEOS);
                },
                Some(Token::Error) => {
                    return Err(AstNodeBuildError::token_error());
                },
                Some(Token::Whitespace(_)) | Some(Token::Comment(_)) | Some(Token::LineBreak) => {
                    s.advance();
                },
                Some(Token::BraceClose) => {
                    s.advance();
                    return Ok(RuleDef { rules });
                },
                Some(_) => {
                    let rule = match Rule::build_from_tokens(s) {
                        Ok(r) => r,
                        Err(e) => {
                            return Err(e);
                        },
                    };
                    if s.len() >= n0 {
                        return Err(AstNodeBuildError::UnexpectedEOS);
                    }
                    let ghost prev = rules@;
                    rules.push(rule);
                    assert(rules@.map_values(|r: Rule| r@) =~= prev.map_values(|r: Rule| r@).push(
                        rules@.last()@,
                    ));
                },
            }
        }
    }
}

} // verus!
