//! Lexer and parser for Unify build files: a compiler and the arguments it is
//! run with, written as `COMP:` and `ARGS:` sections of string literals.
use vstd::prelude::*;

pub mod chars;
pub mod token;
pub mod lexer;
pub mod parser;
pub mod template;
pub mod laws;

pub use lexer::{tokenize, LexError};
pub use parser::{UnifyError, UnifySetup};
pub use template::create_unify_file_content;
pub use token::{Token, TokenKind};

verus! {

} // verus!
