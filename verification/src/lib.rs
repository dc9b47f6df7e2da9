use vstd::prelude::*;

pub mod ast;
pub mod env;
pub mod evaluator;
pub mod lexer;
pub mod object;
pub mod parser;
pub mod render;
pub mod token;

pub use ast::{BlockStatement, Expression, Identifier, Program, Statement, Sticky};
pub use env::Env;
pub use evaluator::Evaluator;
pub use lexer::{Lexer, ScanError};
pub use object::{EvalError, Object, ReturnValue};
pub use parser::Parser;
pub use render::unwrap_object;
pub use token::Token;

use crate::env::FrameV;
use crate::evaluator::{spec_eval_stmts, EvalSt};
use crate::parser::{pmeasure, spec_program_loop, spec_scan, PState};
use crate::render::obj_text;
use vstd::utf8::encode_utf8;

verus! {

/// How one source text fails to produce a value: a non-empty ordered list of
/// syntax errors, or a fatal evaluation condition.
#[derive(Debug)]
pub enum MonkeyError {
    Parse(Vec<String>),
    Eval(EvalError),
}

/// The parser state over a freshly scanned source text.
pub open spec fn initial_parse_state(input: Seq<char>) -> PState {
    let sc = spec_scan(encode_utf8(input), 0);
    PState { toks: sc.0, pos: 0, errors: sc.1 }
}

/// The evaluator state of a fresh session: one empty root frame, active.
pub open spec fn initial_eval_state() -> EvalSt {
    EvalSt { frames: seq![FrameV { map: Map::empty(), outer: None }], cur: 0 }
}

/// Scans, parses and evaluates one source text in a fresh session, rendering
/// the final value as display text; a source with syntax errors reports the
/// full error list, and a fatal evaluation condition is reported as such.
/// `fuel` bounds the nesting depth of function calls.
pub fn eval_monkey_program(input: String, fuel: u64) -> (r: Result<String, MonkeyError>)
    ensures
        forall|f: nat|
            f > pmeasure(initial_parse_state(input@)) ==> {
                let (ss, stf) = #[trigger] spec_program_loop(initial_parse_state(input@), f);
                if stf.errors.len() > 0 {
                    match r {
                        Err(MonkeyError::Parse(es)) => es@.map_values(|s: String| s@)
                            == stf.errors,
                        _ => false,
                    }
                } else {
                    match spec_eval_stmts(initial_eval_state(), ss, fuel as nat).1 {
                        Ok(v) => match r {
                            Ok(text) => text@ == obj_text(v),
                            _ => false,
                        },
                        Err(e) => match r {
                            Err(MonkeyError::Eval(e2)) => e2 == e,
                            _ => false,
                        },
                    }
                }
            },
{
    let mut evaluator = Evaluator::new();
    proof {
        assert(evaluator@.frames =~= initial_eval_state().frames);
        assert(evaluator@ == initial_eval_state());
    }
    let lexer = Lexer::new(input.as_str());
    let mut p = Parser::new(lexer);
    proof {
        assert(p@ == initial_parse_state(input@));
    }
    match p.parse_program() {
        Ok(program) => {
            match evaluator.eval_statements(&program.statements, fuel) {
                Ok(obj) => Ok(unwrap_object(&obj)),
                Err(e) => Err(MonkeyError::Eval(e)),
            }
        },
        Err(errs) => Err(MonkeyError::Parse(errs)),
    }
}

} // verus!
