use topaz::ast::instruction::AsmInstruction;
use topaz::ast::rule::{Rule, RuleLeftItem, RuleNumber, RuleRightItem};
use topaz::ast::ruledef::RuleDef;
use topaz::ast::statement::Statement;
use topaz::ast::variable::Variable;
use topaz::ast::variable_type::VariableType;
use topaz::ast::AstNodeBuildError;
use topaz::stream::TokenStream;
use topaz::tokens::Token;

fn parse(src: &str) -> Result<Statement, AstNodeBuildError> {
    Statement::build_from_tokens(&mut TokenStream::from_source(src))
}

#[test]
fn simple_instruction() {
    let stmt = parse("add 6 8\n").unwrap();
    assert_eq!(
        stmt,
        Statement::Instruction(AsmInstruction {
            instructions: vec![
                Token::Word("add".to_string()),
                Token::Number("6".to_string()),
                Token::Number("8".to_string())
            ]
        })
    )
}

#[test]
fn ruledef_empty() {
    let stmt = parse("#ruledef{\n}").unwrap();
    assert_eq!(stmt, Statement::RuleDef(RuleDef { rules: vec![] }))
}

#[test]
fn ruledef_spaces() {
    let stmt = parse("#ruledef{\n \n}").unwrap();
    assert_eq!(stmt, Statement::RuleDef(RuleDef { rules: vec![] }))
}

#[test]
fn ruledef_simple_rule() {
    let stmt = parse("#ruledef{\nadd {n1: u8} {n2: u8} => 11 {n1} {n2}\n}").unwrap();
    assert_eq!(
        stmt,
        Statement::RuleDef(RuleDef {
            rules: vec![Rule {
                left_items: vec![
                    RuleLeftItem::Word("add".to_string()),
                    RuleLeftItem::Variable(Variable { name: "n1".to_string(), v_type: VariableType::U8 }),
                    RuleLeftItem::Variable(Variable { name: "n2".to_string(), v_type: VariableType::U8 })
                ],
                right_items: vec![
                    RuleRightItem::Number(RuleNumber { value: "11".to_string() }),
                    RuleRightItem::Variable(Variable { v_type: VariableType::U8, name: "n1".to_string() }),
                    RuleRightItem::Variable(Variable { v_type: VariableType::U8, name: "n2".to_string() })
                ]
            }]
        })
    )
}

#[test]
fn instruction_at_end_of_input_without_line_break() {
    let stmt = parse("nop").unwrap();
    assert_eq!(stmt, Statement::Instruction(AsmInstruction { instructions: vec![Token::Word("nop".to_string())] }));
}

#[test]
fn instruction_drops_comments_and_keeps_punctuation() {
    let stmt = parse("  ld r1, 4 ; load\n").unwrap();
    assert_eq!(
        stmt,
        Statement::Instruction(AsmInstruction {
            instructions: vec![
                Token::Word("ld".to_string()),
                Token::Word("r1".to_string()),
                Token::Comma,
                Token::Number("4".to_string())
            ]
        })
    );
}

#[test]
fn statement_end_of_input() {
    assert!(matches!(parse(" \n ; only a comment\n"), Err(AstNodeBuildError::UnexpectedEOS)));
}

#[test]
fn statement_hash_needs_ruledef() {
    assert!(matches!(parse("#define x"), Err(AstNodeBuildError::UnexpectedToken(_))));
}

#[test]
fn statement_refuses_leading_number() {
    assert!(matches!(parse("5 add"), Err(AstNodeBuildError::UnexpectedToken(_))));
}

#[test]
fn statement_error_token_in_instruction() {
    assert!(matches!(parse("add \"oops"), Err(AstNodeBuildError::TokenError(_))));
}

#[test]
fn ruledef_unterminated_block() {
    assert!(matches!(parse("#ruledef{\nadd => 0x01\n"), Err(AstNodeBuildError::UnexpectedEOS)));
}

#[test]
fn rule_unresolved_reference() {
    assert!(matches!(
        parse("#ruledef{\nadd {a: u8} => 0x01 {b}\n}"),
        Err(AstNodeBuildError::UnresolvedVariable(_))
    ));
}

#[test]
fn rule_unknown_type() {
    assert!(matches!(parse("#ruledef{\nadd {a: f8} => 0x01 {a}\n}"), Err(AstNodeBuildError::UnexpectedToken(_))));
}

#[test]
fn rule_word_on_right_side() {
    assert!(matches!(parse("#ruledef{\nadd => 0x01 foo\n}"), Err(AstNodeBuildError::UnexpectedToken(_))));
}

#[test]
fn rule_number_on_left_side() {
    assert!(matches!(parse("#ruledef{\nadd 3 => 0x01\n}"), Err(AstNodeBuildError::UnexpectedToken(_))));
}

#[test]
fn rule_two_names_in_one_reference() {
    assert!(matches!(
        parse("#ruledef{\nadd {a: u8} {b: u8} => {a b}\n}"),
        Err(AstNodeBuildError::UnexpectedToken(_))
    ));
}

#[test]
fn rule_later_declaration_gives_reference_type() {
    let stmt = parse("#ruledef{\nmv {a: u8} {a: u16} => {a}\n}").unwrap();
    match stmt {
        Statement::RuleDef(d) => {
            assert_eq!(
                d.rules[0].right_items,
                vec![RuleRightItem::Variable(Variable { v_type: VariableType::U16, name: "a".to_string() })]
            );
        }
        _ => panic!("expected a rule block"),
    }
}

#[test]
fn variable_build_reads_name_and_type() {
    let mut s = TokenStream::from_source(" n1 : u32}");
    let v = Variable::build_from_tokens(&mut s).unwrap();
    assert_eq!(v, Variable { name: "n1".to_string(), v_type: VariableType::U32 });
    assert_eq!(s.advance(), Some(Token::BraceClose));
}

#[test]
fn variable_build_needs_colon() {
    let mut s = TokenStream::from_source("n1 u32");
    assert!(matches!(Variable::build_from_tokens(&mut s), Err(AstNodeBuildError::UnexpectedToken(_))));
}

#[test]
fn rule_leaves_line_break() {
    let mut s = TokenStream::from_source("nop => 0x00\nnext");
    let r = Rule::build_from_tokens(&mut s).unwrap();
    assert_eq!(r.left_items, vec![RuleLeftItem::Word("nop".to_string())]);
    assert_eq!(s.advance(), Some(Token::LineBreak));
}
