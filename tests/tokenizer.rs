use topaz::tokenize;
use topaz::tokenizer::{Token, Tokenizer};

fn word(s: &str) -> Token {
    Token::Word(s.to_string())
}

fn number(s: &str) -> Token {
    Token::Number(s.to_string())
}

fn space(s: &str) -> Token {
    Token::Whitespace(s.to_string())
}

fn all_tokens(src: &str) -> Vec<Token> {
    let mut t = Tokenizer::new(src);
    let mut out = Vec::new();
    while let Some(tok) = t.next() {
        out.push(tok);
    }
    out
}

#[test]
fn tokenizer_new() {
    let _tokenizer = Tokenizer::new("test");
    let _tokenizer = Tokenizer::new(String::from("test").as_str());
}

#[test]
fn tokenizer_numbers_dec() {
    let src = "3 3.7";
    let mut tokenizer = Tokenizer::new(src);
    assert_eq!(tokenizer.next().unwrap(), number("3"));
    assert_eq!(tokenizer.next().unwrap(), space(" "));
    assert_eq!(tokenizer.next().unwrap(), number("3.7"));
}

#[test]
fn tokenizer_numbers_hex() {
    let src = "0xff";
    let mut tokenizer = Tokenizer::new(src);
    assert_eq!(tokenizer.next().unwrap(), number("0xff"));
}

#[test]
fn tokenizer_idents() {
    let src = "a b cde";
    let mut tokenizer = Tokenizer::new(src);
    assert_eq!(tokenizer.next().unwrap(), word("a"));
    assert_eq!(tokenizer.next().unwrap(), space(" "));
    assert_eq!(tokenizer.next().unwrap(), word("b"));
    assert_eq!(tokenizer.next().unwrap(), space(" "));
    assert_eq!(tokenizer.next().unwrap(), word("cde"));
}

#[test]
fn tokenizer_idents_and_numbers() {
    let src = "a 3 c 1.7";
    let mut tokenizer = Tokenizer::new(src);
    assert_eq!(tokenizer.next().unwrap(), word("a"));
    assert_eq!(tokenizer.next().unwrap(), space(" "));
    assert_eq!(tokenizer.next().unwrap(), number("3"));
    assert_eq!(tokenizer.next().unwrap(), space(" "));
    assert_eq!(tokenizer.next().unwrap(), word("c"));
    assert_eq!(tokenizer.next().unwrap(), space(" "));
    assert_eq!(tokenizer.next().unwrap(), number("1.7"));
}

#[test]
fn tokenizer_comments() {
    let src = "a ; 1.7\nb ";
    let mut tokenizer = Tokenizer::new(src);
    assert_eq!(tokenizer.next().unwrap(), word("a"));
    assert_eq!(tokenizer.next().unwrap(), space(" "));
    assert_eq!(tokenizer.next().unwrap(), Token::Comment("; 1.7".to_string()));
    assert_eq!(tokenizer.next().unwrap(), Token::LineBreak);
    assert_eq!(tokenizer.next().unwrap(), word("b"));
}

#[test]
fn tokenizer_error_on_not_closed_string() {
    let src = r#""string""string"#;
    let mut tokenizer = Tokenizer::new(src);
    assert_eq!(tokenizer.next().unwrap(), Token::String("string".to_string()));
    assert_eq!(tokenizer.next().unwrap(), Token::Error);
}

#[test]
fn tokenize_constant_api() {
    let input = String::from("");
    let mut t = tokenize(&input);
    assert_eq!(t.next(), None);
    let mut t = tokenize("input");
    assert_eq!(t.next(), Some(word("input")));
    let raw_data = std::str::from_utf8(&[0]).unwrap();
    let mut t = tokenize(raw_data);
    assert_eq!(t.next(), Some(word("\0")));
    assert_eq!(t.next(), None);
}

#[test]
fn tokenizer_space_run_keeps_every_space() {
    assert_eq!(all_tokens("  a"), vec![space("  "), word("a")]);
}

#[test]
fn tokenizer_tab_run_drops_first_tab() {
    assert_eq!(all_tokens("\t\t\tx"), vec![space("\t\t"), word("x")]);
    assert_eq!(all_tokens("\tx"), vec![space(""), word("x")]);
}

#[test]
fn tokenizer_line_breaks_are_single() {
    assert_eq!(all_tokens("\r\n"), vec![Token::LineBreak, Token::LineBreak]);
}

#[test]
fn tokenizer_operators() {
    assert_eq!(
        all_tokens(":: -> <- => == && || << >> <<< >>> <= :"),
        vec![
            Token::ColonColon,
            space(" "),
            Token::ArrowRight,
            space(" "),
            Token::ArrowLeft,
            space(" "),
            Token::HeavyArrowRight,
            space(" "),
            Token::DoubleEqual,
            space(" "),
            Token::DoubleAmpersand,
            space(" "),
            Token::DoubleVerticalBar,
            space(" "),
            Token::DoubleLessThan,
            space(" "),
            Token::DoubleGreaterThan,
            space(" "),
            Token::TripleLessThan,
            space(" "),
            Token::TripleLessThan,
            space(" "),
            Token::LessThan,
            space(" "),
            Token::Colon,
        ]
    );
}

#[test]
fn tokenizer_operator_at_end_of_input() {
    assert_eq!(all_tokens("a="), vec![word("a"), Token::Equal]);
    assert_eq!(all_tokens("<"), vec![Token::LessThan]);
    assert_eq!(all_tokens(">"), vec![Token::GreaterThan]);
}

#[test]
fn tokenizer_string_escapes() {
    assert_eq!(all_tokens("\"a\\\"b\" c"), vec![Token::String("a\\\"b".to_string()), space(" "), word("c")]);
}

#[test]
fn tokenizer_escape_at_end_is_error() {
    assert_eq!(all_tokens("\"ab\\"), vec![Token::Error]);
}

#[test]
fn tokenizer_single_quote_strings() {
    assert_eq!(all_tokens("'ab' c"), vec![Token::String("ab".to_string()), space(" "), word("c")]);
    assert_eq!(all_tokens("'abc"), vec![Token::String("abc".to_string())]);
}

#[test]
fn tokenizer_number_pattern_whole_word() {
    assert_eq!(all_tokens("1st"), vec![word("1st")]);
    assert_eq!(all_tokens("1_"), vec![word("1_")]);
    assert_eq!(all_tokens("1."), vec![word("1.")]);
    assert_eq!(all_tokens("1..2"), vec![word("1..2")]);
    assert_eq!(all_tokens("r0x1f"), vec![word("r0x1f")]);
    assert_eq!(all_tokens("add1"), vec![word("add1")]);
    assert_eq!(all_tokens("0xFF"), vec![word("0xFF")]);
    assert_eq!(all_tokens("0x"), vec![word("0x")]);
    assert_eq!(all_tokens("x_y.z"), vec![word("x_y.z")]);
    assert_eq!(all_tokens("12.5.7"), vec![number("12.5.7")]);
    assert_eq!(all_tokens("0x1f"), vec![number("0x1f")]);
    assert_eq!(all_tokens("007"), vec![number("007")]);
}

#[test]
fn tokenizer_comment_stops_at_carriage_return() {
    assert_eq!(all_tokens("; c\rx"), vec![Token::Comment("; c".to_string()), Token::LineBreak, word("x")]);
}

#[test]
fn tokenizer_unicode_letters_continue_words() {
    assert_eq!(all_tokens("aé1 b"), vec![word("aé1"), space(" "), word("b")]);
}

#[test]
fn tokenizer_spans_rebuild_source() {
    let src = "add 6 8 ; c\nmov 0x1";
    let toks = all_tokens(src);
    let mut rebuilt = String::new();
    for t in toks {
        match t {
            Token::Word(s) | Token::Number(s) | Token::Comment(s) | Token::Whitespace(s) => rebuilt.push_str(&s),
            Token::LineBreak => rebuilt.push('\n'),
            other => panic!("unexpected token {:?}", other),
        }
    }
    assert_eq!(rebuilt, src);
}
