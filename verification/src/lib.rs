use vstd::prelude::*;

pub mod text;
pub mod number;
pub mod token;
pub mod error;
pub mod lexer;
pub mod ast;
pub mod expr;
pub mod parser;
pub mod semantic;
pub mod formatter;
pub mod pipeline;
pub mod summary;
pub mod laws;
pub mod ir;
pub mod codegen;
pub mod lint;
pub mod export;
pub mod readback;

verus! {

} // verus!
