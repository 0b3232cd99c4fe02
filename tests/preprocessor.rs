use topaz::preprocessor::{Directive, Preprocessor};
use topaz::stream::TokenStream;
use topaz::tokens::Token;

#[test]
fn test_preprocessor() {
    let code = vec![Token::Hash, Token::Word("var".to_string())];
    let mut preprocessor = Preprocessor::new();
    preprocessor.add_directie(Directive::Replace(String::from("var"), Token::Number("5".to_string())));
    let mut p = preprocessor.preprocess(TokenStream::new(code));
    assert_eq!(Some(Token::Number("5".to_string())), p.next());
    assert_eq!(None, p.next())
}

#[test]
fn test_preprocessor_ignore() {
    let code = vec![Token::Hash, Token::Word("var".to_string())];
    let preprocessor = Preprocessor::new();
    let mut p = preprocessor.preprocess(TokenStream::new(code));
    assert_eq!(Some(Token::Hash), p.next());
    assert_eq!(Some(Token::Word("var".to_string())), p.next());
    assert_eq!(None, p.next())
}

#[test]
fn preprocessor_plain_token_yields_error_then_token() {
    let code = vec![Token::Word("x".to_string())];
    let mut p = Preprocessor::new().preprocess(TokenStream::new(code));
    assert_eq!(Some(Token::Error), p.next());
    assert_eq!(Some(Token::Word("x".to_string())), p.next());
    assert_eq!(None, p.next());
}

#[test]
fn preprocessor_first_directive_wins() {
    let code = vec![Token::Hash, Token::Word("v".to_string())];
    let mut pre = Preprocessor::new();
    pre.add_directie(Directive::Replace("v".to_string(), Token::Number("1".to_string())));
    pre.add_directie(Directive::Replace("v".to_string(), Token::Number("2".to_string())));
    let mut p = pre.preprocess(TokenStream::new(code));
    assert_eq!(Some(Token::Number("1".to_string())), p.next());
}
