use topaz::ast::variable_type::VariableType;
use topaz::ast::{AstNode, AstNodeBuildError};
use topaz::stream::TokenStream;
use topaz::tokens::Token;

fn stream(tokens: Vec<Token>) -> TokenStream {
    TokenStream::new(tokens)
}

#[test]
fn test_variable_type_u8() {
    let u8_t = vec![Token::Word("u8".to_string())];
    let variable_type = VariableType::build_from_tokens(&mut stream(u8_t)).unwrap();
    assert_eq!(VariableType::U8, variable_type);
}

#[test]
fn test_variable_type_u16() {
    let u16_t = vec![Token::Word("u16".to_string())];
    let variable_type = VariableType::build_from_tokens(&mut stream(u16_t)).unwrap();
    assert_eq!(VariableType::U16, variable_type);
}

#[test]
fn test_variable_type_u32() {
    let u32_t = vec![Token::Word("u32".to_string())];
    let variable_type = VariableType::build_from_tokens(&mut stream(u32_t)).unwrap();
    assert_eq!(VariableType::U32, variable_type);
}

#[test]
fn test_variable_type_u64() {
    let u64_t = vec![Token::Word("u64".to_string())];
    let variable_type = VariableType::build_from_tokens(&mut stream(u64_t)).unwrap();
    assert_eq!(VariableType::U64, variable_type);
}

#[test]
fn test_variable_type_invalid() {
    let f8_t = vec![Token::Word("f8".to_string())];
    let variable_error = VariableType::build_from_tokens(&mut stream(f8_t)).unwrap_err();
    assert!(matches!(variable_error, AstNodeBuildError::UnexpectedToken(_placeholder)))
}

#[test]
fn test_leave_space() {
    let mut u8_t = stream(vec![Token::Word("u8".to_string()), Token::Whitespace(" ".to_string())]);
    let _variable_type = VariableType::build_from_tokens(&mut u8_t).unwrap();
    assert_eq!(Token::Whitespace(" ".to_string()), u8_t.advance().unwrap())
}

#[test]
fn variable_type_skips_leading_whitespace() {
    let mut s = stream(vec![Token::Whitespace(" ".to_string()), Token::Word("u16".to_string())]);
    assert_eq!(VariableType::build_from_tokens(&mut s).unwrap(), VariableType::U16);
    assert_eq!(s.len(), 0);
}

#[test]
fn variable_type_end_of_input() {
    let err = VariableType::build_from_tokens(&mut stream(vec![])).unwrap_err();
    assert!(matches!(err, AstNodeBuildError::UnexpectedEOS));
}

#[test]
fn variable_type_other_token() {
    let err = VariableType::build_from_tokens(&mut stream(vec![Token::Colon])).unwrap_err();
    assert!(matches!(err, AstNodeBuildError::UnexpectedToken(_)));
}
