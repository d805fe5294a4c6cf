//! Front end of a small ahead-of-time compiler for a minimal
//! statement-oriented language: a lexical scanner that turns source text into
//! positioned tokens, a recursive-descent parser that turns tokens into a tree
//! of nested scopes and statements, and a minimal code generator that walks
//! that tree and emits assembly-section text.  A diagnostic-reporting facility
//! is shared by every stage; each stage returns its diagnostic to the caller,
//! which decides whether to render it and stop.

pub mod cli;
pub mod codegen;
pub mod err;
pub mod laws;
pub mod structure;
pub mod strutil;
pub mod tokenizer;
pub mod typing;
