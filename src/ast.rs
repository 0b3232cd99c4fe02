pub mod instruction;
pub mod rule;
pub mod ruledef;
pub mod statement;
pub mod variable;
pub mod variable_type;

use vstd::prelude::*;

use crate::stream::TokenStream;
use crate::tokens::TokenView;

verus! {

/// Why a syntax node could not be built.
#[derive(Clone, Debug)]
pub enum AstNodeBuildError {
    /// The stream yielded an error token: the text held a malformed literal.
    TokenError(String),
    /// A token stood where the node does not allow it.
    UnexpectedToken(String),
    /// The stream ended before the node was complete.
    UnexpectedEOS,
    /// A variable reference names no variable declared before it in the rule.
    UnresolvedVariable(String),
}

/// The kind of a build failure, as the contracts speak of it.
pub enum ParseFailure {
    Token,
    Unexpected,
    EndOfInput,
    Unresolved,
}

impl AstNodeBuildError {
    pub open spec fn kind(&self) -> ParseFailure {
        match self {
            AstNodeBuildError::TokenError(_) => ParseFailure::Token,
            AstNodeBuildError::UnexpectedToken(_) => ParseFailure::Unexpected,
            AstNodeBuildError::UnexpectedEOS => ParseFailure::EndOfInput,
            AstNodeBuildError::UnresolvedVariable(_) => ParseFailure::Unresolved,
        }
    }

    pub fn token_error() -> (r: AstNodeBuildError)
        ensures
            r.kind() == ParseFailure::Token,
    {
        AstNodeBuildError::TokenError("the input holds a malformed literal".to_string())
    }

    pub fn unexpected(what: &str) -> (r: AstNodeBuildError)
        ensures
            r.kind() == ParseFailure::Unexpected,
    {
        AstNodeBuildError::UnexpectedToken(what.to_string())
    }

    pub fn unresolved(name: &String) -> (r: AstNodeBuildError)
        ensures
            r.kind() == ParseFailure::Unresolved,
    {
        AstNodeBuildError::UnresolvedVariable(name.clone())
    }
}

/// A syntax node that can be read from a token stream, consuming exactly
/// the tokens that belong to it.
pub trait AstNode: Sized {
    /// `r` is what reading the node from `ts` gives, and `rest` what is left.
    spec fn built_from(ts: Seq<TokenView>, r: Result<Self, AstNodeBuildError>, rest: Seq<TokenView>) -> bool;

    fn build_from_tokens(s: &mut TokenStream) -> (r: Result<Self, AstNodeBuildError>)
        ensures
            Self::built_from(old(s)@, r, final(s)@),
    ;
}

/// What a build returns, with values and failures in their models.
pub open spec fn outcome<T: View>(r: Result<T, AstNodeBuildError>) -> Result<T::V, ParseFailure> {
    match r {
        Ok(v) => Ok(v@),
        Err(e) => Err(e.kind()),
    }
}

} // verus!
