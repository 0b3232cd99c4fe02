pub mod text;
pub mod tokens;
pub mod tokenizer;
pub mod stream;
pub mod ast;
pub mod encoding;
pub mod assembly;
pub mod disassembly;
pub mod context;
pub mod preprocessor;

use vstd::prelude::*;

use crate::ast::rule::RuleView;
use crate::ast::statement::{parse_statement, Statement, StatementView};
use crate::context::{context_assemble, Context, ContextError, ContextErrorView};
use crate::stream::TokenStream;
use crate::tokenizer::tokens_from;
use crate::tokens::TokenView;

verus! {

/// A tokenizer over `input`, positioned at its start.
pub fn tokenize(input: &str) -> (r: tokenizer::Tokenizer)
    ensures
        r.wf(),
        r.source() == input@,
        r.cursor() == 0,
{
    tokenizer::Tokenizer::new(input)
}

/// Processes statements from `ts` with the rules learned so far and the
/// bytes produced so far: rule blocks add their rules in order, instruction
/// lines append their bytes. Processing stops quietly at the first statement
/// that does not parse (the end of the input among them); an instruction that
/// no rule assembles stops it with that error.
pub open spec fn run_statements(ts: Seq<TokenView>, rules: Seq<RuleView>, out: Seq<u8>) -> Result<
    Seq<u8>,
    ContextErrorView,
>
    decreases ts.len(),
{
    let (st, rest) = parse_statement(ts);
    match st {
        Err(_) => Ok(out),
        Ok(StatementView::RuleDef(rs)) => if rest.len() < ts.len() {
            run_statements(rest, rules + rs, out)
        } else {
            Ok(out)
        },
        Ok(StatementView::Instruction(toks)) => match context_assemble(rules, toks) {
            Err(e) => Err(e),
            Ok(b) => if rest.len() < ts.len() {
                run_statements(rest, rules, out + b)
            } else {
                Ok(out + b)
            },
        },
    }
}

/// Assembles a whole source text: the concatenated bytes of its instruction
/// lines, each assembled with the rules declared before it.
pub fn run_topaz(src: &str) -> (r: Result<Vec<u8>, ContextError>)
    ensures
        match r {
            Ok(b) => run_statements(tokens_from(src@, 0), Seq::empty(), Seq::empty()) == Ok::<
                Seq<u8>,
                ContextErrorView,
            >(b@),
            Err(e) => run_statements(tokens_from(src@, 0), Seq::empty(), Seq::empty()) == Err::<
                Seq<u8>,
                ContextErrorView,
            >(e@),
        },
{
    let mut s = TokenStream::from_source(src);
    let mut context = Context::new();
    let mut out: Vec<u8> = Vec::new();
    loop
        invariant
            run_statements(tokens_from(src@, 0), Seq::empty(), Seq::empty()) == run_statements(
                s@,
                context@,
                out@,
            ),
        decreases s@.len(),
    {
        let n0 = s.len();
        let ghost ts = s@;
        match Statement::build_from_tokens(&mut s) {
            Err(_) => {
                return Ok(out);
            },
            Ok(Statement::RuleDef(d)) => {
                let mut rules = d.rules;
                let ghost start = context@;
                let ghost rs = rules@.map_values(|r: ast::rule::Rule| r@);
                assert(start + rs =~= context@ + rules@.map_values(|r: ast::rule::Rule| r@));
                while rules.len() > 0
                    invariant
                        context@ + rules@.map_values(|r: ast::rule::Rule| r@) == start + rs,
                    decreases rules.len(),
                {
                    let ghost before = rules@;
                    let r = rules.remove(0);
                    context.add_rule(r);
                    assert(before.map_values(|r: ast::rule::Rule| r@) =~= seq![r@]
                        + rules@.map_values(|r: ast::rule::Rule| r@));
                    assert(context@ + rules@.map_values(|r: ast::rule::Rule| r@) =~= start + rs);
                }
                assert(context@ =~= start + rs);
                if s.len() >= n0 {
                    return Ok(out);
                }
            },
            Ok(Statement::Instruction(i)) => {
                match context.try_assemble(&i) {
                    Err(e) => {
                        return Err(e);
                    },
                    Ok(b) => {
                        let ghost before = out@;
                        let mut k: usize = 0;
                        while k < b.len()
                            invariant
                                k <= b.len(),
                                out@ == before + b@.subrange(0, k as int),
                            decreases b.len() - k,
                        {
                            out.push(b[k]);
                            assert(b@.subrange(0, k + 1) =~= b@.subrange(0, k as int).push(b@[k as int]));
                            k = k + 1;
                        }
                        assert(b@.subrange(0, k as int) =~= b@);
                        if s.len() >= n0 {
                            return Ok(out);
                        }
                    },
                }
            },
        }
    }
}

} // verus!
