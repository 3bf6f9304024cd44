use vstd::prelude::*;

pub mod ast;
pub mod error;
pub mod laws;
pub mod number;
pub mod parser;
pub mod token;
pub mod tokenizer;

verus! {

use crate::ast::spec_eval;
use crate::error::{CalcResult, ErrView};
use crate::number::Number;
use crate::parser::{Parser, sp_parse_expr, sp_pull_failed};
use crate::token::OperatorPrecedence;
use crate::tokenizer::lex_all;

/// What `calculate` returns on the characters `s`: the input is lexed and
/// parsed by precedence climbing, and the tree is folded with exact decimal
/// arithmetic. Any fuel above the token count gives the parse's one value;
/// one above is enough.
pub open spec fn spec_calculate(s: Seq<char>) -> Result<Number, ErrView> {
    let toks = lex_all(s, 0).0;
    let lerr = lex_all(s, 0).1;
    if toks.len() == 0 {
        match sp_pull_failed(lerr) {
            Ok(_) => arbitrary(),
            Err(e) => Err(e),
        }
    } else {
        match sp_parse_expr(toks, lerr, OperatorPrecedence::Default, (toks.len() + 1) as nat) {
            Ok((node, _)) => spec_eval(node),
            Err(e) => Err(e),
        }
    }
}

/// Evaluates an arithmetic expression given as text, with exact decimal
/// (base-10) arithmetic.
pub fn calculate(expression: &str) -> (r: CalcResult<Number>)
    ensures
        match r {
            Ok(v) => spec_calculate(expression@) == Ok::<Number, ErrView>(v) && v.wf(),
            Err(e) => spec_calculate(expression@) == Err::<Number, ErrView>(e@),
        },
{
    let mut parser = match Parser::new(expression) {
        Ok(p) => p,
        Err(e) => {
            return Err(e);
        },
    };
    let ast = match parser.parse() {
        Ok(node) => node,
        Err(e) => {
            return Err(e);
        },
    };
    ast.eval()
}

} // verus!
