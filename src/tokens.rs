use vstd::prelude::*;

verus! {

/// A lexical token. Text-bearing variants own the characters they cover.
#[derive(Clone, Debug, PartialEq, Eq, Hash)]
pub enum Token {
    Error,
    Whitespace(String),
    Comment(String),
    LineBreak,
    Word(String),
    Number(String),
    String(String),
    ParenOpen,
    ParenClose,
    BracketOpen,
    BracketClose,
    BraceOpen,
    BraceClose,
    Dot,
    Comma,
    Colon,
    ColonColon,
    ArrowRight,
    ArrowLeft,
    HeavyArrowRight,
    Hash,
    Equal,
    Plus,
    Minus,
    Asterisk,
    Slash,
    Percent,
    Question,
    Exclamation,
    Ampersand,
    VerticalBar,
    Circumflex,
    Tilde,
    Grave,
    At,
    DoubleAmpersand,
    DoubleVerticalBar,
    DoubleEqual,
    ExclamationEqual,
    LessThan,
    DoubleLessThan,
    TripleLessThan,
    LessThanEqual,
    GreaterThan,
    DoubleGreaterThan,
    TripleGreaterThan,
    GreaterThanEqual,
}

/// Mathematical model of a token: text payloads become character sequences,
/// payload-free tokens stand for themselves.
pub enum TokenView {
    Whitespace(Seq<char>),
    Comment(Seq<char>),
    Word(Seq<char>),
    Number(Seq<char>),
    Str(Seq<char>),
    Mark(Token),
}

impl View for Token {
    type V = TokenView;

    open spec fn view(&self) -> TokenView {
        match self {
            Token::Whitespace(s) => TokenView::Whitespace(s@),
            Token::Comment(s) => TokenView::Comment(s@),
            Token::Word(s) => TokenView::Word(s@),
            Token::Number(s) => TokenView::Number(s@),
            Token::String(s) => TokenView::Str(s@),
            _ => TokenView::Mark(*self),
        }
    }
}

pub open spec fn is_blank(t: TokenView) -> bool {
    t is Whitespace || t is Comment
}

impl Token {
    /// An independent copy of the token with the same model.
    pub fn duplicate(&self) -> (r: Token)
        ensures
            r@ == self@,
    {
        match self {
            Token::Error => Token::Error,
            Token::Whitespace(s) => Token::Whitespace(s.clone()),
            Token::Comment(s) => Token::Comment(s.clone()),
            Token::LineBreak => Token::LineBreak,
            Token::Word(s) => Token::Word(s.clone()),
            Token::Number(s) => Token::Number(s.clone()),
            Token::String(s) => Token::String(s.clone()),
            Token::ParenOpen => Token::ParenOpen,
            Token::ParenClose => Token::ParenClose,
            Token::BracketOpen => Token::BracketOpen,
            Token::BracketClose => Token::BracketClose,
            Token::BraceOpen => Token::BraceOpen,
            Token::BraceClose => Token::BraceClose,
            Token::Dot => Token::Dot,
            Token::Comma => Token::Comma,
            Token::Colon => Token::Colon,
            Token::ColonColon => Token::ColonColon,
            Token::ArrowRight => Token::ArrowRight,
            Token::ArrowLeft => Token::ArrowLeft,
            Token::HeavyArrowRight => Token::HeavyArrowRight,
            Token::Hash => Token::Hash,
            Token::Equal => Token::Equal,
            Token::Plus => Token::Plus,
            Token::Minus => Token::Minus,
            Token::Asterisk => Token::Asterisk,
            Token::Slash => Token::Slash,
            Token::Percent => Token::Percent,
            Token::Question => Token::Question,
            Token::Exclamation => Token::Exclamation,
            Token::Ampersand => Token::Ampersand,
            Token::VerticalBar => Token::VerticalBar,
            Token::Circumflex => Token::Circumflex,
            Token::Tilde => Token::Tilde,
            Token::Grave => Token::Grave,
            Token::At => Token::At,
            Token::DoubleAmpersand => Token::DoubleAmpersand,
            Token::DoubleVerticalBar => Token::DoubleVerticalBar,
            Token::DoubleEqual => Token::DoubleEqual,
            Token::ExclamationEqual => Token::ExclamationEqual,
            Token::LessThan => Token::LessThan,
            Token::DoubleLessThan => Token::DoubleLessThan,
            Token::TripleLessThan => Token::TripleLessThan,
            Token::LessThanEqual => Token::LessThanEqual,
            Token::GreaterThan => Token::GreaterThan,
            Token::DoubleGreaterThan => Token::DoubleGreaterThan,
            Token::TripleGreaterThan => Token::TripleGreaterThan,
            Token::GreaterThanEqual => Token::GreaterThanEqual,
        }
    }
}

} // verus!
