//! From source text to a runnable script: lexing, parsing and compiling in
//! turn, stopping at the first error.

use vstd::prelude::*;
use crate::ast::{Program, StmtView, stmts_view};
use crate::bytecode::{CompiledFunction, FunctionView};
use crate::compiler::{compile, spec_compile};
use crate::error::{ErrorView, GupError};
use crate::lexer::{lemma_lex_output_well_formed, lex, spec_lex};
use crate::parser::{parse, spec_parse, syn_error_view};

verus! {

/// The program a source text holds, or the first lexing or parsing error.
pub open spec fn spec_parse_source(s: Seq<char>) -> Result<Seq<StmtView>, ErrorView> {
    match spec_lex(s) {
        Ok(tokens) => match spec_parse(tokens) {
            Ok(program) => Ok(program),
            Err(e) => Err(syn_error_view(e)),
        },
        Err(e) => Err(e),
    }
}

/// The script a source text compiles to, or the first error on the way.
pub open spec fn spec_compile_source(s: Seq<char>) -> Result<FunctionView, ErrorView> {
    match spec_parse_source(s) {
        Ok(program) => spec_compile(program),
        Err(e) => Err(e),
    }
}

/// Lexes and parses a source text.
pub fn parse_source(source: &str) -> (r: Result<Program, GupError>)
    requires
        source@.len() + 1 < usize::MAX,
    ensures
        match spec_parse_source(source@) {
            Ok(program) => r matches Ok(p) && stmts_view(p@) == program,
            Err(e) => r matches Err(err) && err@ == e,
        },
{
    proof { lemma_lex_output_well_formed(source@); }
    let tokens = lex(source)?;
    parse(tokens)
}

/// Lexes, parses and compiles a source text into its script.
pub fn compile_source(source: &str) -> (r: Result<CompiledFunction, GupError>)
    requires
        source@.len() + 1 < usize::MAX,
    ensures
        match spec_compile_source(source@) {
            Ok(f) => r matches Ok(script) && script@ == f,
            Err(e) => r matches Err(err) && err@ == e,
        },
{
    let program = parse_source(source)?;
    compile(&program)
}

} // verus!
