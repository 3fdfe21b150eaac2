use vstd::prelude::*;

use crate::ast::{program_view, Program, ProgramV};
use crate::error::{ErrorView, PastelError};
use crate::ir::view::{doc_view, DocV};
use crate::ir::IrDocument;
use crate::lexer::{tokenize_spec, Lexer};
use crate::parser::grammar::parse_spec;
use crate::parser::Parser;
use crate::semantic::analyze::{analyze_spec, SemanticAnalyzer};

verus! {

/// The program that a source text spells, or its first lexical or syntax
/// error.
pub open spec fn parse_source_spec(src: Seq<char>) -> Result<ProgramV, ErrorView> {
    match tokenize_spec(src) {
        Err(e) => Err(e),
        Ok(toks) => parse_spec(toks),
    }
}

/// The design document of a source text without includes, or its first
/// error.
pub open spec fn compile_spec(src: Seq<char>) -> Result<DocV, ErrorView> {
    match parse_source_spec(src) {
        Err(e) => Err(e),
        Ok(p) => analyze_spec(p),
    }
}

/// Lex and parse a source text.
pub fn parse_source(source: &str) -> (r: Result<Program, PastelError>)
    requires
        source@.len() < usize::MAX,
    ensures
        match r {
            Ok(p) => parse_source_spec(source@) == Ok::<ProgramV, ErrorView>(program_view(p)),
            Err(e) => parse_source_spec(source@) == Err::<ProgramV, ErrorView>(e@),
        },
{
    let mut lexer = Lexer::new(source);
    let tokens = match lexer.tokenize() {
        Ok(t) => t,
        Err(e) => {
            return Err(e);
        },
    };
    let mut parser = Parser::new(tokens);
    parser.parse()
}

/// Compile a .pastel source string into IR.
pub fn compile(source: &str) -> (r: Result<IrDocument, PastelError>)
    requires
        source@.len() < usize::MAX,
    ensures
        match r {
            Ok(d) => compile_spec(source@) == Ok::<DocV, ErrorView>(doc_view(d)),
            Err(e) => compile_spec(source@) == Err::<DocV, ErrorView>(e@),
        },
{
    let program = match parse_source(source) {
        Ok(p) => p,
        Err(e) => {
            return Err(e);
        },
    };
    let analyzer = SemanticAnalyzer::new();
    analyzer.analyze(&program)
}

} // verus!
