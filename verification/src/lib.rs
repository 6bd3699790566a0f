//! A verified compiler backend for a 16-bit educational stack-machine
//! architecture.
//!
//! Two pipelines share one assembly mnemonic language:
//!
//! - the assembler (`assembler`, `symbols`) lowers mnemonic lines to
//!   fixed-width 16-bit binary words, resolving labels and variables over
//!   two passes;
//! - the translator (`parser`, `codegen`, `translator`) lowers stack-machine
//!   commands (arithmetic, segment access, branching, call/return) to that
//!   same mnemonic language.
//!
//! Every function's behaviour is pinned down by `ensures` clauses over
//! sequence models of the input and output text, and verified with Verus.

pub mod assembler;
pub mod codegen;
pub mod machine;
pub mod numerals;
pub mod parser;
pub mod symbols;
pub mod text;
pub mod translator;

pub use assembler::{assemble, build_symbol_table, comp_table, jump_table, preprocess};
pub use parser::Parser;
pub use symbols::SymbolTable;
pub use translator::VMTranslator;

