//! A small C compiler: source text to tokens, tokens to a typed syntax tree,
//! and the tree to x86-64 assembly in AT&T syntax.
pub mod errors;
pub mod tokenizer;
pub mod parser;
pub mod code_generator;
pub mod laws;

pub use errors::{ErrorKind, MyError};
pub use tokenizer::{Lexeme, Token, TokenQueue};
pub use parser::{Ast, Node, Parser, Type, VarTableItem};
pub use code_generator::CodeGenerator;
