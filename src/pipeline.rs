use vstd::prelude::*;

use crate::ast::ProgramV;
use crate::error::Error;
use crate::interpret::{
    eval_program, fault, pieces_view, program_result, stdlib_result, EvalError, EvalFault, Piece, PieceV,
};
use crate::lexer::{lex, lexed, LexerError, TokenV};
use crate::parser::{parse_program, parsed, pfault, PErr, ParseError};

verus! {

/// The first error of a compilation, from the stage that gave it.
#[derive(Debug, Clone, PartialEq)]
pub enum CompileFailure {
    Lex(LexerError),
    Parse(ParseError),
    Eval(EvalError),
}

/// Compiles a source text to an `svg` document: lexes it, parses the tokens
/// and evaluates the program, stopping at the first error.
pub fn compile(input: &String) -> (r: Result<Vec<Piece>, CompileFailure>)
    requires
        input@.len() <= u32::MAX,
    ensures
        match r {
            Ok(ps) => lexed(input@) matches Ok(ts) && parsed(ts) matches Ok(p)
                && program_result(stdlib_result(), p) == Ok::<Seq<PieceV>, Error<EvalFault>>(pieces_view(ps@)),
            Err(CompileFailure::Lex(e)) => lexed(input@) == Err::<Seq<TokenV>, LexerError>(e),
            Err(CompileFailure::Parse(e)) => lexed(input@) matches Ok(ts)
                && parsed(ts) == Err::<ProgramV, PErr>(pfault(e)),
            Err(CompileFailure::Eval(e)) => lexed(input@) matches Ok(ts) && parsed(ts) matches Ok(p)
                && program_result(stdlib_result(), p) == Err::<Seq<PieceV>, Error<EvalFault>>(fault(e)),
        },
{
    let tokens = match lex(input) {
        Ok(t) => t,
        Err(e) => {
            return Err(CompileFailure::Lex(e));
        },
    };
    let program = match parse_program(tokens) {
        Ok(p) => p,
        Err(e) => {
            return Err(CompileFailure::Parse(e));
        },
    };
    match eval_program(&program) {
        Ok(ps) => Ok(ps),
        Err(e) => Err(CompileFailure::Eval(e)),
    }
}

} // verus!
