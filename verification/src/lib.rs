//! Front end of a small straight-line declaration compiler.
//!
//! Source text is scanned into tokens, parsed into an arena-indexed
//! syntax tree while lexical scopes assign stack offsets to the
//! declared variables, and finally rendered as fixed-format
//! pseudo-assembly lines. The whole pipeline is fail-fast: the first
//! malformed construct aborts the run with its named condition.

pub mod assembly;
pub mod declarations;
pub mod errors;
pub mod misc;
pub mod parser;
pub mod symbols;
pub mod text;
pub mod tokenizer;

use vstd::prelude::*;

verus! {

use crate::assembly::Assembler;
use crate::assembly::emit_from;
use crate::assembly::preamble_text;
use crate::errors::CompileError;
use crate::parser::Parser;
use crate::parser::init_state;
use crate::parser::run;
use crate::symbols::CodeScope;
use crate::symbols::ScopeTableV;
use crate::symbols::global_scope_v;
use crate::tokenizer::Tokenizer;
use crate::tokenizer::tokens_from;

/// What the whole pipeline makes of a source text: scan, parse from a
/// fresh global scope, then render the preamble and the tree.
pub open spec fn compile_spec(text: Seq<char>) -> Result<Seq<char>, CompileError> {
    let toks = tokens_from(text, 0);
    let st0 = init_state(ScopeTableV { scopes: seq![global_scope_v()], active: 0 });
    match run(toks, st0) {
        Ok(st) => Ok(preamble_text() + emit_from(st.nodes, st.top_level, 0)),
        Err(e) => Err(e),
    }
}

/// Runs the whole pipeline on one source text, per [`compile_spec`].
pub fn compile(source: &str) -> (r: Result<String, CompileError>)
    ensures
        match r {
            Ok(out) => compile_spec(source@) == Ok::<Seq<char>, CompileError>(out@),
            Err(e) => compile_spec(source@) == Err::<Seq<char>, CompileError>(e),
        },
{
    let global_scope = CodeScope::global();
    let tokenizer = Tokenizer::new(source);
    let mut parser = Parser::new(global_scope);
    match parser.parse(tokenizer) {
        Ok(ast) => {
            let mut assembly = Assembler::new("out");
            assembly.from_ast(&ast);
            Ok(assembly.output_text().clone())
        },
        Err(e) => Err(e),
    }
}

/// Idempotence of the pipeline: on identical input texts the pipeline
/// settles identical outcomes, byte for byte. [`compile`] returns
/// exactly [`compile_spec`] of its input, so two runs cannot differ.
pub proof fn lemma_pipeline_idempotent(first: Seq<char>, second: Seq<char>)
    requires
        first == second,
    ensures
        compile_spec(first) == compile_spec(second),
{
}

/// An input composed only of whitespace and comments yields zero
/// tokens, so the whole pipeline settles exactly the preamble.
pub proof fn lemma_blank_input_compiles_to_preamble(text: Seq<char>)
    requires
        crate::tokenizer::blank_from(text, 0, false),
    ensures
        compile_spec(text) == Ok::<Seq<char>, CompileError>(preamble_text()),
{
    crate::tokenizer::lemma_blank_input_yields_no_tokens(text);
    let st0 = init_state(ScopeTableV { scopes: seq![global_scope_v()], active: 0 });
    assert(run(tokens_from(text, 0), st0) == Ok::<crate::parser::PStateV, CompileError>(st0));
    assert(emit_from(st0.nodes, st0.top_level, 0) =~= Seq::<char>::empty());
    assert(preamble_text() + emit_from(st0.nodes, st0.top_level, 0) =~= preamble_text());
}

} // verus!
