use vstd::prelude::*;

use crate::ast::{outcome, AstNode, AstNodeBuildError, ParseFailure};
use crate::stream::TokenStream;
use crate::text::text_is;
use crate::tokens::{Token, TokenView};

verus! {

/// Width of an unsigned operand.
#[derive(Debug, PartialEq, Eq, Copy, Clone, Structural)]
pub enum VariableType {
    U8,
    U16,
    U32,
    U64,
}

impl View for VariableType {
    type V = VariableType;

    open spec fn view(&self) -> VariableType {
        *self
    }
}

impl VariableType {
    /// Number of bytes a value of this type occupies.
    pub open spec fn width(self) -> nat {
        match self {
            VariableType::U8 => 1,
            VariableType::U16 => 2,
            VariableType::U32 => 4,
            VariableType::U64 => 8,
        }
    }

    pub fn byte_width(&self) -> (r: usize)
        ensures
            r == self.width(),
    {
        match self {
            VariableType::U8 => 1,
            VariableType::U16 => 2,
            VariableType::U32 => 4,
            VariableType::U64 => 8,
        }
    }
}

/// The type a word names, if any.
pub open spec fn type_named(w: Seq<char>) -> Option<VariableType> {
    if w == seq!['u', '8'] {
        Some(VariableType::U8)
    } else if w == seq!['u', '1', '6'] {
        Some(VariableType::U16)
    } else if w == seq!['u', '3', '2'] {
        Some(VariableType::U32)
    } else if w == seq!['u', '6', '4'] {
        Some(VariableType::U64)
    } else {
        None
    }
}

/// A type name: whitespace is skipped, then one word is consumed, which must
/// name a type; any other token is consumed and refused.
pub open spec fn parse_type(ts: Seq<TokenView>) -> (Result<VariableType, ParseFailure>, Seq<
    TokenView,
>)
    decreases ts.len(),
{
    if ts.len() == 0 {
        (Err(ParseFailure::EndOfInput), ts)
    } else {
        match ts[0] {
            TokenView::Whitespace(_) => parse_type(ts.drop_first()),
            TokenView::Word(w) => match type_named(w) {
                Some(t) => (Ok(t), ts.drop_first()),
                None => (Err(ParseFailure::Unexpected), ts.drop_first()),
            },
            _ => (Err(ParseFailure::Unexpected), ts.drop_first()),
        }
    }
}

fn type_of_word(w: &String) -> (r: Option<VariableType>)
    ensures
        r == type_named(w@),
{
    proof {
        reveal_strlit("u8");
        reveal_strlit("u16");
        reveal_strlit("u32");
        reveal_strlit("u64");
        assert("u8"@ =~= seq!['u', '8']);
        assert("u16"@ =~= seq!['u', '1', '6']);
        assert("u32"@ =~= seq!['u', '3', '2']);
        assert("u64"@ =~= seq!['u', '6', '4']);
    }
    if text_is(w, "u8") {
        Some(VariableType::U8)
    } else if text_is(w, "u16") {
        Some(VariableType::U16)
    } else if text_is(w, "u32") {
        Some(VariableType::U32)
    } else if text_is(w, "u64") {
        Some(VariableType::U64)
    } else {
        None
    }
}

impl AstNode for VariableType {
    open spec fn built_from(
        ts: Seq<TokenView>,
        r: Result<VariableType, AstNodeBuildError>,
        rest: Seq<TokenView>,
    ) -> bool {
        (outcome(r), rest) == parse_type(ts)
    }

    /// Reads a type name (`u8`, `u16`, `u32` or `u64`).
    fn build_from_tokens(s: &mut TokenStream) -> (r: Result<VariableType, AstNodeBuildError>) {
        while s.len() > 0
            invariant
                parse_type(s@) == parse_type(old(s)@),
            decreases s@.len(),
        {
            let t = s.advance().unwrap();
            match t {
                Token::Whitespace(_) => {},
                Token::Word(w) => {
                    return match type_of_word(&w) {
                        Some(v) => Ok(v),
                        None => Err(AstNodeBuildError::unexpected("invalid type; valid are u8, u16, u32, u64")),
                    };
                },
                _ => {
                    return Err(AstNodeBuildError::unexpected("expected a type name"));
                },
            }
        }
        Err(AstNodeBuildError::UnexpectedEOS)
    }
}

} // verus!
