use vstd::prelude::*;

use crate::text::{
    alphanumeric, chars_of, is_alphanumeric, matches_number_pattern, number_like, string_from,
};
pub use crate::tokens::{Token, TokenView};

verus! {

/// First index at or after `i` that does not hold `c`.
pub open spec fn run_end(s: Seq<char>, i: int, c: char) -> int
    decreases s.len() - i,
{
    if 0 <= i < s.len() && s[i] == c {
        run_end(s, i + 1, c)
    } else {
        i
    }
}

/// First index at or after `i` that holds a line break (`\n` or `\r`), or
/// the end.
pub open spec fn line_end(s: Seq<char>, i: int) -> int
    decreases s.len() - i,
{
    if 0 <= i < s.len() && s[i] != '\n' && s[i] != '\r' {
        line_end(s, i + 1)
    } else {
        i
    }
}

pub open spec fn ident_char(c: char) -> bool {
    alphanumeric(c) || c == '_' || c == '.'
}

/// First index at or after `i` that does not hold an identifier character.
pub open spec fn ident_end(s: Seq<char>, i: int) -> int
    decreases s.len() - i,
{
    if 0 <= i < s.len() && ident_char(s[i]) {
        ident_end(s, i + 1)
    } else {
        i
    }
}

/// Index of the quote `q` that closes a quoted string whose content starts at
/// `i`; a backslash escapes the character after it.
pub open spec fn quote_close(s: Seq<char>, i: int, q: char) -> Option<int>
    decreases s.len() - i,
{
    if !(0 <= i < s.len()) {
        None
    } else if s[i] == '\\' {
        if i + 2 <= s.len() {
            quote_close(s, i + 2, q)
        } else {
            None
        }
    } else if s[i] == q {
        Some(i)
    } else {
        quote_close(s, i + 1, q)
    }
}

pub open spec fn char_at(s: Seq<char>, i: int, c: char) -> bool {
    0 <= i < s.len() && s[i] == c
}

/// Tokens made of exactly one character.
pub open spec fn single_char_token(c: char) -> Option<Token> {
    if c == '\n' || c == '\r' {
        Some(Token::LineBreak)
    } else if c == ',' {
        Some(Token::Comma)
    } else if c == '.' {
        Some(Token::Dot)
    } else if c == '#' {
        Some(Token::Hash)
    } else if c == '(' {
        Some(Token::ParenOpen)
    } else if c == ')' {
        Some(Token::ParenClose)
    } else if c == '[' {
        Some(Token::BracketOpen)
    } else if c == ']' {
        Some(Token::BracketClose)
    } else if c == '{' {
        Some(Token::BraceOpen)
    } else if c == '}' {
        Some(Token::BraceClose)
    } else if c == '+' {
        Some(Token::Plus)
    } else if c == '*' {
        Some(Token::Asterisk)
    } else if c == '/' {
        Some(Token::Slash)
    } else if c == '%' {
        Some(Token::Percent)
    } else if c == '?' {
        Some(Token::Question)
    } else if c == '!' {
        Some(Token::Exclamation)
    } else if c == '^' {
        Some(Token::Circumflex)
    } else if c == '~' {
        Some(Token::Tilde)
    } else if c == '`' {
        Some(Token::Grave)
    } else if c == '@' {
        Some(Token::At)
    } else {
        None
    }
}

/// The token that starts at index `p` of `s`, and the index where the next
/// one starts.
pub open spec fn scan(s: Seq<char>, p: int) -> (TokenView, int) {
    let c = s[p];
    if c == ' ' {
        let e = run_end(s, p + 1, ' ');
        (TokenView::Whitespace(s.subrange(p, e)), e)
    } else if c == '\t' {
        let e = run_end(s, p + 1, '\t');
        (TokenView::Whitespace(s.subrange(p + 1, e)), e)
    } else if c == ';' {
        let e = line_end(s, p + 1);
        (TokenView::Comment(s.subrange(p, e)), e)
    } else if c == '"' {
        match quote_close(s, p + 1, '"') {
            Some(q) => (TokenView::Str(s.subrange(p + 1, q)), q + 1),
            None => (TokenView::Mark(Token::Error), s.len() as int),
        }
    } else if c == '\'' {
        match quote_close(s, p + 1, '\'') {
            Some(q) => (TokenView::Str(s.subrange(p + 1, q)), q + 1),
            None => (TokenView::Str(s.subrange(p + 1, s.len() as int)), s.len() as int),
        }
    } else if c == ':' {
        if char_at(s, p + 1, ':') {
            (TokenView::Mark(Token::ColonColon), p + 2)
        } else {
            (TokenView::Mark(Token::Colon), p + 1)
        }
    } else if c == '=' {
        if char_at(s, p + 1, '>') {
            (TokenView::Mark(Token::HeavyArrowRight), p + 2)
        } else if char_at(s, p + 1, '=') {
            (TokenView::Mark(Token::DoubleEqual), p + 2)
        } else {
            (TokenView::Mark(Token::Equal), p + 1)
        }
    } else if c == '-' {
        if char_at(s, p + 1, '>') {
            (TokenView::Mark(Token::ArrowRight), p + 2)
        } else {
            (TokenView::Mark(Token::Minus), p + 1)
        }
    } else if c == '&' {
        if char_at(s, p + 1, '&') {
            (TokenView::Mark(Token::DoubleAmpersand), p + 2)
        } else {
            (TokenView::Mark(Token::Ampersand), p + 1)
        }
    } else if c == '|' {
        if char_at(s, p + 1, '|') {
            (TokenView::Mark(Token::DoubleVerticalBar), p + 2)
        } else {
            (TokenView::Mark(Token::VerticalBar), p + 1)
        }
    } else if c == '<' {
        if char_at(s, p + 1, '<') {
            if char_at(s, p + 2, '<') {
                (TokenView::Mark(Token::TripleLessThan), p + 3)
            } else {
                (TokenView::Mark(Token::DoubleLessThan), p + 2)
            }
        } else if char_at(s, p + 1, '-') {
            (TokenView::Mark(Token::ArrowLeft), p + 2)
        } else if char_at(s, p + 1, '=') {
            (TokenView::Mark(Token::LessThan), p + 2)
        } else {
            (TokenView::Mark(Token::LessThan), p + 1)
        }
    } else if c == '>' {
        if char_at(s, p + 1, '>') {
            if char_at(s, p + 2, '>') {
                (TokenView::Mark(Token::TripleLessThan), p + 3)
            } else {
                (TokenView::Mark(Token::DoubleGreaterThan), p + 2)
            }
        } else {
            (TokenView::Mark(Token::GreaterThan), p + 1)
        }
    } else if single_char_token(c) is Some {
        (TokenView::Mark(single_char_token(c)->0), p + 1)
    } else {
        let e = ident_end(s, p + 1);
        let w = s.subrange(p, e);
        if number_like(w) {
            (TokenView::Number(w), e)
        } else {
            (TokenView::Word(w), e)
        }
    }
}

/// Every token that the scanner yields from index `p` to the end of `s`.
pub open spec fn tokens_from(s: Seq<char>, p: int) -> Seq<TokenView>
    decreases s.len() - p,
{
    if 0 <= p < s.len() {
        let e = scan(s, p).1;
        if p < e <= s.len() {
            seq![scan(s, p).0] + tokens_from(s, e)
        } else {
            seq![scan(s, p).0]
        }
    } else {
        Seq::empty()
    }
}

/// The stretch of source that each token scanned from index `p` covers.
pub open spec fn spans_from(s: Seq<char>, p: int) -> Seq<Seq<char>>
    decreases s.len() - p,
{
    if 0 <= p < s.len() {
        let e = scan(s, p).1;
        if p < e <= s.len() {
            seq![s.subrange(p, e)] + spans_from(s, e)
        } else {
            seq![s.subrange(p, s.len() as int)]
        }
    } else {
        Seq::empty()
    }
}

proof fn lemma_run_end_bounds(s: Seq<char>, i: int, c: char)
    requires
        0 <= i <= s.len(),
    ensures
        i <= run_end(s, i, c) <= s.len(),
    decreases s.len() - i,
{
    if i < s.len() && s[i] == c {
        lemma_run_end_bounds(s, i + 1, c);
    }
}

proof fn lemma_line_end_bounds(s: Seq<char>, i: int)
    requires
        0 <= i <= s.len(),
    ensures
        i <= line_end(s, i) <= s.len(),
    decreases s.len() - i,
{
    if i < s.len() && s[i] != '\n' && s[i] != '\r' {
        lemma_line_end_bounds(s, i + 1);
    }
}

proof fn lemma_ident_end_bounds(s: Seq<char>, i: int)
    requires
        0 <= i <= s.len(),
    ensures
        i <= ident_end(s, i) <= s.len(),
    decreases s.len() - i,
{
    if i < s.len() && ident_char(s[i]) {
        lemma_ident_end_bounds(s, i + 1);
    }
}

proof fn lemma_quote_close_bounds(s: Seq<char>, i: int, q: char)
    requires
        0 <= i,
    ensures
        quote_close(s, i, q) matches Some(k) ==> i <= k < s.len() && s[k] == q,
    decreases s.len() - i,
{
    if 0 <= i < s.len() {
        if s[i] == '\\' {
            if i + 2 <= s.len() {
                lemma_quote_close_bounds(s, i + 2, q);
            }
        } else if s[i] != q {
            lemma_quote_close_bounds(s, i + 1, q);
        }
    }
}

/// Every scan consumes at least one character and stays within the source.
pub proof fn lemma_scan_advances(s: Seq<char>, p: int)
    requires
        0 <= p < s.len(),
    ensures
        p < scan(s, p).1 <= s.len(),
{
    lemma_run_end_bounds(s, p + 1, ' ');
    lemma_run_end_bounds(s, p + 1, '\t');
    lemma_line_end_bounds(s, p + 1);
    lemma_ident_end_bounds(s, p + 1);
    lemma_quote_close_bounds(s, p + 1, '"');
    lemma_quote_close_bounds(s, p + 1, '\'');
}

/// Scanning drops and repeats no character: the stretches of source that the
/// tokens cover, joined in order, give back the source from `p` on; and there
/// is one stretch per token.
pub proof fn lemma_spans_rebuild_source(s: Seq<char>, p: int)
    requires
        0 <= p <= s.len(),
    ensures
        spans_from(s, p).flatten() == s.subrange(p, s.len() as int),
        spans_from(s, p).len() == tokens_from(s, p).len(),
    decreases s.len() - p,
{
    if p < s.len() {
        lemma_scan_advances(s, p);
        let e = scan(s, p).1;
        lemma_spans_rebuild_source(s, e);
        let sp = spans_from(s, p);
        assert(sp.drop_first() =~= spans_from(s, e));
        assert(sp.flatten() == sp.first() + sp.drop_first().flatten());
        assert(s.subrange(p, e) + s.subrange(e, s.len() as int) =~= s.subrange(p, s.len() as int));
    } else {
        assert(s.subrange(p, s.len() as int) =~= Seq::<char>::empty());
    }
}

/// How the text a token carries sits in the stretch of source it covers:
/// words, numbers, comments and runs of spaces carry the whole stretch; a run
/// of tabs carries it without its first tab; a closed string carries what
/// lies between its quotes, and a single-quoted string left open at the end
/// of the input carries all after its quote.
pub open spec fn text_fits(t: TokenView, span: Seq<char>) -> bool {
    match t {
        TokenView::Word(w) => w == span,
        TokenView::Number(w) => w == span,
        TokenView::Comment(w) => w == span && span[0] == ';',
        TokenView::Whitespace(w) => (span[0] == ' ' && w == span) || (span[0] == '\t' && w
            == span.drop_first()),
        TokenView::Str(w) => (span[0] == '"' || span[0] == '\'') && ((span.len() >= 2
            && span.last() == span[0] && w == span.subrange(1, span.len() - 1)) || (span[0]
            == '\'' && w == span.drop_first())),
        TokenView::Mark(_) => true,
    }
}

/// The token scanned at `p` fits the stretch it covers.
pub proof fn lemma_token_text(s: Seq<char>, p: int)
    requires
        0 <= p < s.len(),
    ensures
        text_fits(scan(s, p).0, s.subrange(p, scan(s, p).1)),
{
    lemma_scan_advances(s, p);
    lemma_quote_close_bounds(s, p + 1, '"');
    lemma_quote_close_bounds(s, p + 1, '\'');
    let (t, e) = scan(s, p);
    let span = s.subrange(p, e);
    assert(span.drop_first() =~= s.subrange(p + 1, e));
    if e >= p + 2 {
        assert(span.subrange(1, span.len() - 1) =~= s.subrange(p + 1, e - 1));
    }
}

/// Every token scanned from `p` fits the stretch of source it covers.
pub proof fn lemma_tokens_fit_spans(s: Seq<char>, p: int)
    requires
        0 <= p <= s.len(),
    ensures
        spans_from(s, p).len() == tokens_from(s, p).len(),
        forall|i: int|
            0 <= i < tokens_from(s, p).len() ==> text_fits(
                #[trigger] tokens_from(s, p)[i],
                spans_from(s, p)[i],
            ),
    decreases s.len() - p,
{
    if p < s.len() {
        lemma_scan_advances(s, p);
        lemma_token_text(s, p);
        let e = scan(s, p).1;
        lemma_tokens_fit_spans(s, e);
        let ts = tokens_from(s, p);
        let sp = spans_from(s, p);
        assert forall|i: int| 0 <= i < ts.len() implies text_fits(#[trigger] ts[i], sp[i]) by {
            if i > 0 {
                assert(ts[i] == tokens_from(s, e)[i - 1]);
                assert(sp[i] == spans_from(s, e)[i - 1]);
            }
        }
    }
}

/// The characters a payload-free token stands for.
pub open spec fn mark_spelling(m: Token) -> Seq<char> {
    match m {
        Token::LineBreak => seq!['\n'],
        Token::ParenOpen => seq!['('],
        Token::ParenClose => seq![')'],
        Token::BracketOpen => seq!['['],
        Token::BracketClose => seq![']'],
        Token::BraceOpen => seq!['{'],
        Token::BraceClose => seq!['}'],
        Token::Dot => seq!['.'],
        Token::Comma => seq![','],
        Token::Colon => seq![':'],
        Token::ColonColon => seq![':', ':'],
        Token::ArrowRight => seq!['-', '>'],
        Token::ArrowLeft => seq!['<', '-'],
        Token::HeavyArrowRight => seq!['=', '>'],
        Token::Hash => seq!['#'],
        Token::Equal => seq!['='],
        Token::Plus => seq!['+'],
        Token::Minus => seq!['-'],
        Token::Asterisk => seq!['*'],
        Token::Slash => seq!['/'],
        Token::Percent => seq!['%'],
        Token::Question => seq!['?'],
        Token::Exclamation => seq!['!'],
        Token::Ampersand => seq!['&'],
        Token::VerticalBar => seq!['|'],
        Token::Circumflex => seq!['^'],
        Token::Tilde => seq!['~'],
        Token::Grave => seq!['`'],
        Token::At => seq!['@'],
        Token::DoubleAmpersand => seq!['&', '&'],
        Token::DoubleVerticalBar => seq!['|', '|'],
        Token::DoubleEqual => seq!['=', '='],
        Token::ExclamationEqual => seq!['!', '='],
        Token::LessThan => seq!['<'],
        Token::DoubleLessThan => seq!['<', '<'],
        Token::TripleLessThan => seq!['<', '<', '<'],
        Token::LessThanEqual => seq!['<', '='],
        Token::GreaterThan => seq!['>'],
        Token::DoubleGreaterThan => seq!['>', '>'],
        Token::TripleGreaterThan => seq!['>', '>', '>'],
        Token::GreaterThanEqual => seq!['>', '='],
        _ => Seq::empty(),
    }
}

/// The characters a token stands for when written back: a word, number,
/// comment or whitespace its text, any other token its symbol (a line break
/// `\n`).
pub open spec fn spelling(t: TokenView) -> Seq<char> {
    match t {
        TokenView::Whitespace(w) => w,
        TokenView::Comment(w) => w,
        TokenView::Word(w) => w,
        TokenView::Number(w) => w,
        TokenView::Str(w) => seq!['"'] + w + seq!['"'],
        TokenView::Mark(m) => mark_spelling(m),
    }
}

/// Source text on which every token spells its own stretch: no tab, carriage
/// return or quote, and neither `<=` (scanned as `<`) nor `>>>` (scanned as
/// `<<<`).
pub open spec fn plain_source(s: Seq<char>) -> bool {
    &&& forall|i: int|
        0 <= i < s.len() ==> #[trigger] s[i] != '\t' && s[i] != '\r' && s[i] != '"' && s[i]
            != '\''
    &&& forall|i: int| 0 <= i < s.len() - 1 ==> #[trigger] s[i] == '<' ==> s[i + 1] != '='
    &&& forall|i: int|
        0 <= i < s.len() - 2 ==> #[trigger] s[i] == '>' ==> !(s[i + 1] == '>' && s[i + 2] == '>')
}

proof fn lemma_scan_spelling(s: Seq<char>, p: int)
    requires
        0 <= p < s.len(),
        plain_source(s),
    ensures
        spelling(scan(s, p).0) == s.subrange(p, scan(s, p).1),
{
    lemma_scan_advances(s, p);
    assert(s.subrange(p, p + 1) =~= seq![s[p]]);
    if p + 2 <= s.len() {
        assert(s.subrange(p, p + 2) =~= seq![s[p], s[p + 1]]);
    }
    if p + 3 <= s.len() {
        assert(s.subrange(p, p + 3) =~= seq![s[p], s[p + 1], s[p + 2]]);
    }
    assert(s[p] != '\t' && s[p] != '\r' && s[p] != '"' && s[p] != '\'');
    if p + 1 < s.len() {
        assert(s[p] == '<' ==> s[p + 1] != '=');
    }
    if p + 2 < s.len() {
        assert(s[p] == '>' ==> !(s[p + 1] == '>' && s[p + 2] == '>'));
    }
}

/// On plain source text, writing back the tokens scanned from `p`, each as
/// the characters it stands for, gives the source from `p` on: no character
/// is dropped or repeated.
pub proof fn lemma_tokens_spell_source(s: Seq<char>, p: int)
    requires
        0 <= p <= s.len(),
        plain_source(s),
    ensures
        tokens_from(s, p).map_values(|t: TokenView| spelling(t)).flatten() == s.subrange(
            p,
            s.len() as int,
        ),
    decreases s.len() - p,
{
    let sp = tokens_from(s, p).map_values(|t: TokenView| spelling(t));
    if p < s.len() {
        lemma_scan_advances(s, p);
        lemma_scan_spelling(s, p);
        let e = scan(s, p).1;
        lemma_tokens_spell_source(s, e);
        assert(sp.drop_first() =~= tokens_from(s, e).map_values(|t: TokenView| spelling(t)));
        assert(sp.flatten() == sp.first() + sp.drop_first().flatten());
        assert(s.subrange(p, e) + s.subrange(e, s.len() as int) =~= s.subrange(p, s.len() as int));
    } else {
        assert(sp =~= Seq::<Seq<char>>::empty());
        assert(s.subrange(p, s.len() as int) =~= Seq::<char>::empty());
    }
}

/// Scans characters into tokens, one token per call of `next`.
#[derive(Clone)]
pub struct Tokenizer {
    src: Vec<char>,
    cursor_position: usize,
}

impl Tokenizer {
    /// The characters being scanned.
    pub closed spec fn source(&self) -> Seq<char> {
        self.src@
    }

    /// Index of the next character to scan.
    pub closed spec fn cursor(&self) -> int {
        self.cursor_position as int
    }

    pub closed spec fn wf(&self) -> bool {
        self.cursor_position <= self.src.len()
    }

    /// A tokenizer positioned at the start of `src`.
    pub fn new(src: &str) -> (r: Tokenizer)
        ensures
            r.wf(),
            r.source() == src@,
            r.cursor() == 0,
    {
        Tokenizer { src: chars_of(src), cursor_position: 0 }
    }

    fn run_end_exec(&self, i: usize, c: char) -> (r: usize)
        requires
            i <= self.src.len(),
        ensures
            r as int == run_end(self.src@, i as int, c),
            i <= r <= self.src.len(),
    {
        let mut j = i;
        while j < self.src.len() && self.src[j] == c
            invariant
                i <= j <= self.src.len(),
                run_end(self.src@, j as int, c) == run_end(self.src@, i as int, c),
            decreases self.src.len() - j,
        {
            j = j + 1;
        }
        j
    }

    fn line_end_exec(&self, i: usize) -> (r: usize)
        requires
            i <= self.src.len(),
        ensures
            r as int == line_end(self.src@, i as int),
            i <= r <= self.src.len(),
    {
        let mut j = i;
        while j < self.src.len() && self.src[j] != '\n' && self.src[j] != '\r'
            invariant
                i <= j <= self.src.len(),
                line_end(self.src@, j as int) == line_end(self.src@, i as int),
            decreases self.src.len() - j,
        {
            j = j + 1;
        }
        j
    }

    fn is_ident_char(c: char) -> (r: bool)
        ensures
            r == ident_char(c),
    {
        is_alphanumeric(c) || c == '_' || c == '.'
    }

    fn ident_end_exec(&self, i: usize) -> (r: usize)
        requires
            i <= self.src.len(),
        ensures
            r as int == ident_end(self.src@, i as int),
            i <= r <= self.src.len(),
    {
        let mut j = i;
        while j < self.src.len() && Self::is_ident_char(self.src[j])
            invariant
                i <= j <= self.src.len(),
                ident_end(self.src@, j as int) == ident_end(self.src@, i as int),
            decreases self.src.len() - j,
        {
            j = j + 1;
        }
        j
    }

    fn quote_close_exec(&self, i: usize, q: char) -> (r: Option<usize>)
        requires
            i <= self.src.len(),
        ensures
            r matches Some(k) ==> quote_close(self.src@, i as int, q) == Some(k as int) && i <= k
                < self.src.len(),
            r is None ==> quote_close(self.src@, i as int, q) is None,
    {
        let mut j = i;
        while j < self.src.len()
            invariant
                j <= self.src.len(),
                i <= j,
                quote_close(self.src@, j as int, q) == quote_close(self.src@, i as int, q),
            decreases self.src.len() - j,
        {
            let c = self.src[j];
            if c == '\\' {
                if j + 1 >= self.src.len() {
                    return None;
                }
                j = j + 2;
            } else if c == q {
                return Some(j);
            } else {
                j = j + 1;
            }
        }
        None
    }

    fn char_at_exec(&self, i: usize, c: char) -> (r: bool)
        ensures
            r == char_at(self.src@, i as int, c),
    {
        i < self.src.len() && self.src[i] == c
    }

    /// Scans the next token; `None` once the whole source has been scanned.
    pub fn next(&mut self) -> (r: Option<Token>)
        requires
            old(self).wf(),
        ensures
            final(self).wf(),
            final(self).source() == old(self).source(),
            old(self).cursor() == old(self).source().len() ==> r is None && final(self).cursor()
                == old(self).cursor(),
            old(self).cursor() < old(self).source().len() ==> r is Some && r->0@ == scan(
                old(self).source(),
                old(self).cursor(),
            ).0 && final(self).cursor() == scan(old(self).source(), old(self).cursor()).1
                && final(self).cursor() > old(self).cursor(),
    {
        let p = self.cursor_position;
        if p >= self.src.len() {
            return None;
        }
        let c = self.src[p];
        let (tok, e) = if c == ' ' {
            let e = self.run_end_exec(p + 1, ' ');
            (Token::Whitespace(string_from(&self.src, p, e)), e)
        } else if c == '\t' {
            let e = self.run_end_exec(p + 1, '\t');
            (Token::Whitespace(string_from(&self.src, p + 1, e)), e)
        } else if c == ';' {
            let e = self.line_end_exec(p + 1);
            (Token::Comment(string_from(&self.src, p, e)), e)
        } else if c == '"' {
            match self.quote_close_exec(p + 1, '"') {
                Some(q) => (Token::String(string_from(&self.src, p + 1, q)), q + 1),
                None => (Token::Error, self.src.len()),
            }
        } else if c == '\'' {
            match self.quote_close_exec(p + 1, '\'') {
                Some(q) => (Token::String(string_from(&self.src, p + 1, q)), q + 1),
                None => (Token::String(string_from(&self.src, p + 1, self.src.len())), self.src.len()),
            }
        } else if c == ':' {
            if self.char_at_exec(p + 1, ':') {
                (Token::ColonColon, p + 2)
            } else {
                (Token::Colon, p + 1)
            }
        } else if c == '=' {
            if self.char_at_exec(p + 1, '>') {
                (Token::HeavyArrowRight, p + 2)
            } else if self.char_at_exec(p + 1, '=') {
                (Token::DoubleEqual, p + 2)
            } else {
                (Token::Equal, p + 1)
            }
        } else if c == '-' {
            if self.char_at_exec(p + 1, '>') {
                (Token::ArrowRight, p + 2)
            } else {
                (Token::Minus, p + 1)
            }
        } else if c == '&' {
            if self.char_at_exec(p + 1, '&') {
                (Token::DoubleAmpersand, p + 2)
            } else {
                (Token::Ampersand, p + 1)
            }
        } else if c == '|' {
            if self.char_at_exec(p + 1, '|') {
                (Token::DoubleVerticalBar, p + 2)
            } else {
                (Token::VerticalBar, p + 1)
            }
        } else if c == '<' {
            if self.char_at_exec(p + 1, '<') {
                if self.char_at_exec(p + 2, '<') {
                    (Token::TripleLessThan, p + 3)
                } else {
                    (Token::DoubleLessThan, p + 2)
                }
            } else if self.char_at_exec(p + 1, '-') {
                (Token::ArrowLeft, p + 2)
            } else if self.char_at_exec(p + 1, '=') {
                (Token::LessThan, p + 2)
            } else {
                (Token::LessThan, p + 1)
            }
        } else if c == '>' {
            if self.char_at_exec(p + 1, '>') {
                if self.char_at_exec(p + 2, '>') {
                    (Token::TripleLessThan, p + 3)
                } else {
                    (Token::DoubleGreaterThan, p + 2)
                }
            } else {
                (Token::GreaterThan, p + 1)
            }
        } else if c == '\n' || c == '\r' {
            (Token::LineBreak, p + 1)
        } else if c == ',' {
            (Token::Comma, p + 1)
        } else if c == '.' {
            (Token::Dot, p + 1)
        } else if c == '#' {
            (Token::Hash, p + 1)
        } else if c == '(' {
            (Token::ParenOpen, p + 1)
        } else if c == ')' {
            (Token::ParenClose, p + 1)
        } else if c == '[' {
            (Token::BracketOpen, p + 1)
        } else if c == ']' {
            (Token::BracketClose, p + 1)
        } else if c == '{' {
            (Token::BraceOpen, p + 1)
        } else if c == '}' {
            (Token::BraceClose, p + 1)
        } else if c == '+' {
            (Token::Plus, p + 1)
        } else if c == '*' {
            (Token::Asterisk, p + 1)
        } else if c == '/' {
            (Token::Slash, p + 1)
        } else if c == '%' {
            (Token::Percent, p + 1)
        } else if c == '?' {
            (Token::Question, p + 1)
        } else if c == '!' {
            (Token::Exclamation, p + 1)
        } else if c == '^' {
            (Token::Circumflex, p + 1)
        } else if c == '~' {
            (Token::Tilde, p + 1)
        } else if c == '`' {
            (Token::Grave, p + 1)
        } else if c == '@' {
            (Token::At, p + 1)
        } else {
            let e = self.ident_end_exec(p + 1);
            let text = string_from(&self.src, p, e);
            if matches_number_pattern(text.as_str()) {
                (Token::Number(text), e)
            } else {
                (Token::Word(text), e)
            }
        };
        self.cursor_position = e;
        Some(tok)
    }

    /// Scans every remaining token, in order.
    pub fn collect_tokens(&mut self) -> (r: Vec<Token>)
        requires
            old(self).wf(),
        ensures
            final(self).wf(),
            final(self).source() == old(self).source(),
            final(self).cursor() == old(self).source().len(),
            r@.map_values(|t: Token| t@) == tokens_from(old(self).source(), old(self).cursor()),
    {
        let mut out: Vec<Token> = Vec::new();
        while self.cursor_position < self.src.len()
            invariant
                self.wf(),
                self.source() == old(self).source(),
                old(self).cursor() <= self.cursor(),
                tokens_from(self.source(), old(self).cursor()) == out@.map_values(|t: Token| t@)
                    + tokens_from(self.source(), self.cursor()),
            decreases self.src.len() - self.cursor_position,
        {
            let ghost before = self.cursor();
            let t = self.next();
            let t = t.unwrap();
            proof {
                assert(tokens_from(self.source(), before) =~= seq![t@] + tokens_from(
                    self.source(),
                    self.cursor(),
                ));
            }
            let ghost prev = out@;
            out.push(t);
            assert(out@.map_values(|t: Token| t@) =~= prev.map_values(|t: Token| t@).push(t@));
        }
        assert(tokens_from(self.source(), self.cursor()) =~= Seq::<TokenView>::empty());
        assert(out@.map_values(|t: Token| t@) + Seq::<TokenView>::empty() =~= out@.map_values(
            |t: Token| t@,
        ));
        out
    }
}

} // verus!
