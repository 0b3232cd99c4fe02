use topaz::assembly::AssembleFailure;
use topaz::ast::instruction::AsmInstruction;
use topaz::ast::rule::Rule;
use topaz::ast::statement::Statement;
use topaz::context::{Context, ContextError};
use topaz::run_topaz;
use topaz::stream::TokenStream;
use topaz::tokens::Token;

fn rules(src: &str) -> Vec<Rule> {
    match Statement::build_from_tokens(&mut TokenStream::from_source(src)).unwrap() {
        Statement::RuleDef(d) => d.rules,
        _ => panic!("expected a rule block"),
    }
}

fn context(src: &str) -> Context {
    let mut c = Context::new();
    for r in rules(src) {
        c.add_rule(r);
    }
    c
}

fn instruction(src: &str) -> AsmInstruction {
    match Statement::build_from_tokens(&mut TokenStream::from_source(src)).unwrap() {
        Statement::Instruction(i) => i,
        _ => panic!("expected an instruction"),
    }
}

#[test]
fn assemble_add_rule() {
    let c = context("#ruledef{\nadd {n1:u8} {n2:u8} => 0x11 {n1} {n2}\n}");
    assert_eq!(c.try_assemble(&instruction("add 6 8")).unwrap(), vec![0x11, 0x06, 0x08]);
}

#[test]
fn run_whole_source() {
    let src = "#ruledef{\nadd {n1:u8} {n2:u8} => 0x11 {n1} {n2}\nnop => 0x00\n}\nadd 6 8\nnop\nadd 1 2\n";
    assert_eq!(run_topaz(src).unwrap(), vec![0x11, 6, 8, 0x00, 0x11, 1, 2]);
}

#[test]
fn run_stops_at_unparsable_statement() {
    let src = "#ruledef{\nnop => 0x00\n}\nnop\n5\nnop\n";
    assert_eq!(run_topaz(src).unwrap(), vec![0x00]);
}

#[test]
fn run_reports_unassemblable_instruction() {
    let src = "#ruledef{\nnop => 0x00\n}\nnop\nhalt\n";
    assert_eq!(run_topaz(src), Err(ContextError::NoMatchingRule("nop".to_string())));
}

#[test]
fn earlier_rule_wins() {
    let c = context("#ruledef{\nadd {a: u8} => 0x01 {a}\nadd {b: u8} => 0x02 {b}\n}");
    assert_eq!(c.try_assemble(&instruction("add 7")).unwrap(), vec![0x01, 0x07]);
}

#[test]
fn later_rule_used_when_earlier_misses() {
    let c = context("#ruledef{\nsub {a: u8} => 0x01 {a}\nadd {b: u8} => 0x02 {b}\n}");
    assert_eq!(c.try_assemble(&instruction("add 7")).unwrap(), vec![0x02, 0x07]);
}

#[test]
fn hex_operand_ignores_declared_width() {
    let c = context("#ruledef{\nld {v: u8} => 0x20 {v}\n}");
    assert_eq!(c.try_assemble(&instruction("ld 0xaabb")).unwrap(), vec![0x20, 0xAA, 0xBB]);
}

#[test]
fn hex_operand_bound_by_hand_ignores_declared_width() {
    let c = context("#ruledef{\nld {v: u8} => 0x20 {v}\n}");
    let i = AsmInstruction { instructions: vec![Token::Word("ld".to_string()), Token::Number("0xAABB".to_string())] };
    assert_eq!(c.try_assemble(&i).unwrap(), vec![0x20, 0xAA, 0xBB]);
}

#[test]
fn decimal_operand_is_big_endian() {
    let c = context("#ruledef{\nld {v: u16} => 0x20 {v}\nst {v: u32} => 0x21 {v}\nmv {v: u64} => 0x22 {v}\n}");
    assert_eq!(c.try_assemble(&instruction("ld 258")).unwrap(), vec![0x20, 0x01, 0x02]);
    assert_eq!(c.try_assemble(&instruction("st 16909060")).unwrap(), vec![0x21, 1, 2, 3, 4]);
    assert_eq!(
        c.try_assemble(&instruction("mv 18446744073709551615")).unwrap(),
        vec![0x22, 0xff, 0xff, 0xff, 0xff, 0xff, 0xff, 0xff, 0xff]
    );
}

#[test]
fn decimal_operand_too_large() {
    let c = context("#ruledef{\nld {v: u8} => 0x20 {v}\n}");
    assert_eq!(c.try_assemble(&instruction("ld 256")), Err(ContextError::UnsupportedLiteral));
    assert_eq!(c.try_assemble(&instruction("ld 255")).unwrap(), vec![0x20, 0xff]);
}

#[test]
fn decimal_template_literal_unsupported() {
    let c = context("#ruledef{\nadd {n1: u8} {n2: u8} => 11 {n1} {n2}\n}");
    assert_eq!(c.try_assemble(&instruction("add 6 8")), Err(ContextError::UnsupportedLiteral));
}

#[test]
fn odd_hex_operand_unsupported() {
    let c = context("#ruledef{\nld {v: u8} => 0x20 {v}\n}");
    assert_eq!(c.try_assemble(&instruction("ld 0xabc")), Err(ContextError::UnsupportedLiteral));
}

#[test]
fn no_rules() {
    let c = Context::new();
    assert_eq!(c.try_assemble(&instruction("add 1")), Err(ContextError::NoRules));
}

#[test]
fn hint_of_closest_rule() {
    let c = context("#ruledef{\nld {a: u8} => 0x01 {a}\nadd {a: u8} => 0x02 {a}\n}");
    assert_eq!(c.try_assemble(&instruction("sub 1")), Err(ContextError::NoMatchingRule("add {a}".to_string())));
}

#[test]
fn hint_tie_keeps_first() {
    let c = context("#ruledef{\nmov {a: u8} => 0x01 {a}\nadd {a: u8} => 0x02 {a}\n}");
    assert_eq!(c.try_assemble(&instruction("sub 1")), Err(ContextError::NoMatchingRule("mov {a}".to_string())));
}

#[test]
fn rule_scores() {
    let r = &rules("#ruledef{\nadd {n1: u8} {n2: u8} => 0x11 {n1} {n2}\n}")[0];
    assert_eq!(r.try_assemble(&instruction("sub 1 2")), Err(AssembleFailure::Mismatch(3)));
    assert_eq!(r.try_assemble(&instruction("add x 2")), Err(AssembleFailure::Mismatch(10)));
    assert_eq!(r.try_assemble(&instruction("add 1")), Err(AssembleFailure::Mismatch(20)));
    assert_eq!(r.try_assemble(&instruction("aadd 1 2")), Err(AssembleFailure::Mismatch(0)));
    assert_eq!(r.try_assemble(&instruction("add 1 2 3")).unwrap(), vec![0x11, 1, 2]);
}

#[test]
fn rule_hint() {
    let r = &rules("#ruledef{\nadd {n1: u8} {n2: u8} => 0x11 {n1} {n2}\n}")[0];
    assert_eq!(r.get_hint(), "add {n1} {n2}");
}

#[test]
fn disassemble_simple() {
    let c = context("#ruledef{\nadd {n1:u8} {n2:u8} => 0x11 {n1} {n2}\n}");
    assert_eq!(c.try_disassemble(&vec![0x11, 0x06, 0xab]).unwrap(), "add 0x06 0xab ");
    assert_eq!(c.try_disassemble(&vec![0x12, 0x06, 0x08]), Err(ContextError::UnableToDisassemble));
    assert_eq!(c.try_disassemble(&vec![0x11, 0x06]), Err(ContextError::UnableToDisassemble));
}

#[test]
fn disassemble_wide_variables() {
    let c = context("#ruledef{\nld {v: u16} {w: u32} => 0x20 {v} {w}\n}");
    assert_eq!(c.try_disassemble(&vec![0x20, 1, 2, 3, 4, 5, 6]).unwrap(), "ld 0x0102 0x03040506 ");
}

#[test]
fn disassemble_repeated_variable_consistency() {
    let r = &rules("#ruledef{\nmov {a: u8} => 0x10 {a} {a}\n}")[0];
    assert_eq!(r.try_disassemble(&vec![0x10, 5, 5]), Some("mov 0x05 ".to_string()));
    assert_eq!(r.try_disassemble(&vec![0x10, 5, 6]), None);
}

#[test]
fn disassemble_first_fitting_rule_not_original() {
    let c = context("#ruledef{\ninc {r: u8} => 0x01 {r}\ndec {r: u8} => 0x01 {r}\n}");
    let bytes = c.try_assemble(&instruction("dec 5")).unwrap();
    assert_eq!(bytes, vec![0x01, 0x05]);
    assert_eq!(c.try_disassemble(&bytes).unwrap(), "inc 0x05 ");
}

#[test]
fn disassemble_unused_variable_renders_nothing() {
    let c = context("#ruledef{\nset {a: u8} {b: u8} => 0x30 {a}\n}");
    assert_eq!(c.try_disassemble(&vec![0x30, 9]).unwrap(), "set 0x09  ");
}
