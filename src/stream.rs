use vstd::prelude::*;

use crate::tokenizer::{tokens_from, Tokenizer};
use crate::tokens::{Token, TokenView};

verus! {

/// A forward-only cursor over tokens with one token of lookahead.
pub struct TokenStream {
    /// The tokens still to come, last one first.
    rev: Vec<Token>,
}

pub open spec fn views_of(ts: Seq<Token>) -> Seq<TokenView> {
    ts.map_values(|t: Token| t@)
}

impl View for TokenStream {
    type V = Seq<TokenView>;

    /// The tokens still to come, in order.
    closed spec fn view(&self) -> Seq<TokenView> {
        Seq::new(self.rev@.len(), |i: int| self.rev@[self.rev@.len() - 1 - i]@)
    }
}

impl TokenStream {
    /// A stream over `tokens`, first token first.
    pub fn new(tokens: Vec<Token>) -> (r: TokenStream)
        ensures
            r@ == views_of(tokens@),
    {
        let ghost all = tokens@;
        let mut tokens = tokens;
        let mut rev: Vec<Token> = Vec::new();
        while tokens.len() > 0
            invariant
                tokens@ == all.subrange(0, tokens@.len() as int),
                tokens@.len() + rev@.len() == all.len(),
                forall|i: int|
                    0 <= i < rev@.len() ==> #[trigger] rev@[i] == all[all.len() - 1 - i],
            decreases tokens.len(),
        {
            let t = tokens.pop().unwrap();
            rev.push(t);
        }
        let r = TokenStream { rev };
        assert(r@ =~= views_of(all));
        r
    }

    /// A stream over every token of `src`.
    pub fn from_source(src: &str) -> (r: TokenStream)
        ensures
            r@ == tokens_from(src@, 0),
    {
        let mut t = Tokenizer::new(src);
        let tokens = t.collect_tokens();
        TokenStream::new(tokens)
    }

    /// The next token, without consuming it.
    pub fn peek(&self) -> (r: Option<&Token>)
        ensures
            r is None <==> self@.len() == 0,
            r matches Some(t) ==> self@.len() > 0 && t@ == self@[0],
    {
        if self.rev.len() == 0 {
            None
        } else {
            Some(&self.rev[self.rev.len() - 1])
        }
    }

    /// Consumes and returns the next token.
    pub fn advance(&mut self) -> (r: Option<Token>)
        ensures
            old(self)@.len() == 0 ==> r is None && final(self)@ == old(self)@,
            old(self)@.len() > 0 ==> (r matches Some(t) && t@ == old(self)@[0] && final(self)@
                == old(self)@.drop_first()),
    {
        let r = self.rev.pop();
        assert(self@ =~= old(self)@.drop_first() || old(self)@.len() == 0);
        r
    }

    /// Puts a token back in front of the stream.
    pub fn push_front(&mut self, t: Token)
        ensures
            final(self)@ == seq![t@] + old(self)@,
    {
        self.rev.push(t);
        assert(self@ =~= seq![t@] + old(self)@);
    }

    /// Number of tokens still to come.
    pub fn len(&self) -> (r: usize)
        ensures
            r == self@.len(),
    {
        self.rev.len()
    }
}

} // verus!
