//! A compiler from a small shape language to SVG documents.
//!
//! Source text names parameterised shapes whose bodies are calls of other
//! shapes or of the `svg` primitive. The pipeline is [`lexer::lex`], then
//! [`parser::parse_program`], then [`interpret::eval_program`];
//! [`pipeline::compile`] runs the three. Each stage states what it returns
//! as spec functions over the text, the tokens and the syntax tree.
//!
//! Numbers are IEEE-754 binary64 values. The library carries each as the
//! arithmetic that produces it ([`interpret::Num`]); a document comes back
//! as text pieces and numbers to be shown in their shortest decimal form.
use vstd::prelude::*;

pub mod ast;
pub mod error;
pub mod interpret;
pub mod lexer;
pub mod parser;
pub mod pipeline;
pub mod pos;
pub mod stdlib;
pub mod text;

verus! {

} // verus!
