use vstd::prelude::*;

use crate::stream::TokenStream;
use crate::tokens::{Token, TokenView};

verus! {

/// A rewriting applied to a token stream.
pub enum Directive {
    /// `#` followed by the word is replaced by the token.
    Replace(String, Token),
}

pub type DirectiveView = (Seq<char>, TokenView);

impl View for Directive {
    type V = DirectiveView;

    open spec fn view(&self) -> DirectiveView {
        match self {
            Directive::Replace(from, to) => (from@, to@),
        }
    }
}

/// An ordered list of directives.
pub struct Preprocessor {
    directives: Vec<Directive>,
}

impl View for Preprocessor {
    type V = Seq<DirectiveView>;

    closed spec fn view(&self) -> Seq<DirectiveView> {
        self.directives@.map_values(|d: Directive| d@)
    }
}

/// The token that the first directive for `word` puts in place of `#word`.
pub open spec fn replacement(dirs: Seq<DirectiveView>, word: Seq<char>) -> Option<TokenView>
    decreases dirs.len(),
{
    if dirs.len() == 0 {
        None
    } else if dirs[0].0 == word {
        Some(dirs[0].1)
    } else {
        replacement(dirs.drop_first(), word)
    }
}

/// One step of the rewriting stream: the token it yields, the token it
/// holds back for the next step, and the input left. A held-back token is
/// yielded first. `#word` with a directive for `word` yields the
/// replacement; any other `#` is yielded as it is and the token after it
/// held back. A token that does not start with `#` is held back, and an
/// error token yielded in its place.
pub open spec fn preprocess_step(
    dirs: Seq<DirectiveView>,
    peeked: Option<Option<TokenView>>,
    ts: Seq<TokenView>,
) -> (Option<TokenView>, Option<Option<TokenView>>, Seq<TokenView>) {
    match peeked {
        Some(item) => (item, None, ts),
        None => if ts.len() == 0 {
            (None, None, ts)
        } else if ts[0] == TokenView::Mark(Token::Hash) {
            let rest = ts.drop_first();
            if rest.len() == 0 {
                (Some(TokenView::Mark(Token::Hash)), None, rest)
            } else {
                match rest[0] {
                    TokenView::Word(w) => match replacement(dirs, w) {
                        Some(t) => (Some(t), None, rest.drop_first()),
                        None => (Some(TokenView::Mark(Token::Hash)), Some(Some(rest[0])), rest.drop_first()),
                    },
                    _ => (Some(TokenView::Mark(Token::Hash)), Some(Some(rest[0])), rest.drop_first()),
                }
            }
        } else {
            (Some(TokenView::Mark(Token::Error)), Some(Some(ts[0])), ts.drop_first())
        },
    }
}

/// A token stream with the directives of a preprocessor applied.
pub struct PreprocessorIterator {
    preprocessor: Preprocessor,
    peeked: Option<Option<Token>>,
    token: TokenStream,
}

pub open spec fn option_view(t: Option<Token>) -> Option<TokenView> {
    match t {
        Some(x) => Some(x@),
        None => None,
    }
}

impl PreprocessorIterator {
    pub closed spec fn directives(&self) -> Seq<DirectiveView> {
        self.preprocessor@
    }

    pub closed spec fn held(&self) -> Option<Option<TokenView>> {
        match self.peeked {
            Some(p) => Some(option_view(p)),
            None => None,
        }
    }

    pub closed spec fn input(&self) -> Seq<TokenView> {
        self.token@
    }

    pub fn new(preprocessor: Preprocessor, token_stream: TokenStream) -> (r: PreprocessorIterator)
        ensures
            r.directives() == preprocessor@,
            r.held() is None,
            r.input() == token_stream@,
    {
        PreprocessorIterator { preprocessor, token: token_stream, peeked: None }
    }

    fn replacement_of(&self, word: &String) -> (r: Option<Token>)
        ensures
            option_view(r) == replacement(self.directives(), word@),
    {
        let ghost all = self.directives();
        let mut i: usize = 0;
        assert(all.subrange(0, all.len() as int) =~= all);
        while i < self.preprocessor.directives.len()
            invariant
                i <= self.preprocessor.directives.len(),
                all == self.directives(),
                replacement(all, word@) == replacement(all.subrange(i as int, all.len() as int), word@),
            decreases self.preprocessor.directives.len() - i,
        {
            let ghost sub = all.subrange(i as int, all.len() as int);
            assert(sub.drop_first() =~= all.subrange(i + 1, all.len() as int));
            assert(sub[0] == self.preprocessor.directives@[i as int]@);
            match &self.preprocessor.directives[i] {
                Directive::Replace(from, to) => {
                    if *from == *word {
                        return Some(to.duplicate());
                    }
                },
            }
            i = i + 1;
        }
        None
    }

    /// The next token of the rewritten stream.
    pub fn next(&mut self) -> (r: Option<Token>)
        ensures
            final(self).directives() == old(self).directives(),
            ({
                let (t, p, rest) = preprocess_step(
                    old(self).directives(),
                    old(self).held(),
                    old(self).input(),
                );
                &&& option_view(r) == t
                &&& final(self).held() == p
                &&& final(self).input() == rest
            }),
    {
        if self.peeked.is_some() {
            let item = self.peeked.take().unwrap();
            return item;
        }
        match self.token.advance() {
            None => None,
            Some(Token::Hash) => {
                match self.token.advance() {
                    None => {},
                    Some(next) => {
                        match &next {
                            Token::Word(w) => {
                                match self.replacement_of(w) {
                                    Some(t) => {
                                        return Some(t);
                                    },
                                    None => {},
                                }
                            },
                            _ => {},
                        }
                        self.peeked = Some(Some(next));
                    },
                }
                Some(Token::Hash)
            },
            Some(token) => {
                self.peeked = Some(Some(token));
                Some(Token::Error)
            },
        }
    }
}

impl Preprocessor {
    pub fn new() -> (r: Preprocessor)
        ensures
            r@ == Seq::<DirectiveView>::empty(),
    {
        let r = Preprocessor { directives: Vec::new() };
        assert(r@ =~= Seq::<DirectiveView>::empty());
        r
    }

    /// Appends a directive after the ones already held.
    pub fn add_directie(&mut self, directive: Directive) -> (r: &mut Self)
        ensures
            r@ == old(self)@.push(directive@),
            final(self)@ == final(r)@,
    {
        let ghost d = directive@;
        self.directives.push(directive);
        assert(self@ =~= old(self)@.push(d));
        self
    }

    /// The stream with this preprocessor's directives applied.
    pub fn preprocess(self, token_stream: TokenStream) -> (r: PreprocessorIterator)
        ensures
            r.directives() == self@,
            r.held() is None,
            r.input() == token_stream@,
    {
        PreprocessorIterator::new(self, token_stream)
    }
}

} // verus!
