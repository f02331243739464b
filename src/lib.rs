//! Tokenizer, parser and word-expansion engine of a small interactive shell.

pub mod abbreviation;
pub mod ast;
pub mod copy;
pub mod error;
pub mod expand;
pub mod highlight;
pub mod parser;
pub mod render;
pub mod text;
pub mod token;

pub use abbreviation::{expand_abbreviation, has_abbreviation};
pub use ast::{Command, CommandType, Expansion, Meta, Redirect, SyntaxTree, Word};
pub use error::{Error, ExpansionKind, Feature, SyntaxError};
pub use expand::{expand_meta, expand_word, Bindings, Expand};
pub use highlight::{should_highlight_assignment, should_highlight_command};
pub use parser::{parse, MAX_NESTING_DEPTH};
pub use token::{lex, Token};
