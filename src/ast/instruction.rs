use vstd::prelude::*;

use crate::ast::{outcome, AstNodeBuildError, ParseFailure};
use crate::stream::{views_of, TokenStream};
use crate::tokens::{is_blank, Token, TokenView};

verus! {

/// One instruction line: its tokens without whitespace and comments.
#[derive(Debug, PartialEq)]
pub struct AsmInstruction {
    pub instructions: Vec<Token>,
}

impl View for AsmInstruction {
    type V = Seq<TokenView>;

    open spec fn view(&self) -> Seq<TokenView> {
        views_of(self.instructions@)
    }
}

/// An instruction line: every token but whitespace and comments is kept, up
/// to a line break (consumed) or the end of the input, which must then find
/// at least one token kept. An error token refuses the line.
pub open spec fn parse_instruction_from(ts: Seq<TokenView>, acc: Seq<TokenView>) -> (Result<
    Seq<TokenView>,
    ParseFailure,
>, Seq<TokenView>)
    decreases ts.len(),
{
    if ts.len() == 0 {
        if acc.len() > 0 {
            (Ok(acc), ts)
        } else {
            (Err(ParseFailure::EndOfInput), ts)
        }
    } else {
        match ts[0] {
            TokenView::Mark(Token::Error) => (Err(ParseFailure::Token), ts),
            TokenView::Mark(Token::LineBreak) => (Ok(acc), ts.drop_first()),
            t => if is_blank(t) {
                parse_instruction_from(ts.drop_first(), acc)
            } else {
                parse_instruction_from(ts.drop_first(), acc.push(t))
            },
        }
    }
}

pub open spec fn parse_instruction(ts: Seq<TokenView>) -> (Result<Seq<TokenView>, ParseFailure>, Seq<
    TokenView,
>) {
    parse_instruction_from(ts, Seq::empty())
}

impl AsmInstruction {
    /// Reads the tokens of one instruction line.
    pub fn build_from_tokens(s: &mut TokenStream) -> (r: Result<AsmInstruction, AstNodeBuildError>)
        ensures
            (outcome(r), final(s)@) == parse_instruction(old(s)@),
    {
        let mut instructions: Vec<Token> = Vec::new();
        assert(views_of(instructions@) =~= Seq::<TokenView>::empty());
        loop
            invariant
                parse_instruction_from(s@, views_of(instructions@)) == parse_instruction(old(s)@),
            decreases s@.len(),
        {
            match s.peek() {
                None => {
                    if instructions.len() > 0 {
                        return Ok(AsmInstruction { instructions });
                    } else {
                        return Err(AstNodeBuildError::UnexpectedEOS);
                    }
                },
                Some(Token::Error) => {
                    return Err(AstNodeBuildError::token_error());
                },
                Some(Token::LineBreak) => {
                    s.advance();
                    return Ok(AsmInstruction { instructions });
                },
                Some(Token::Whitespace(_)) | Some(Token::Comment(_)) => {
                    s.advance();
                },
                Some(_) => {
                    let t = s.advance().unwrap();
                    let ghost prev = instructions@;
                    instructions.push(t);
                    assert(views_of(instructions@) =~= views_of(prev).push(t@));
                },
            }
        }
    }
}

} // verus!
