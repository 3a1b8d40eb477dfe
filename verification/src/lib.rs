//! Front-end core of a small indentation-sensitive scripting language:
//! a lexer with string-interpolation modes and unbounded lookahead, the
//! AST node definitions the parser produces, and the runtime's compact
//! value and tuple types.
//!
//! The lexer is specified by the step model in [`lexer_spec`] and proved
//! to follow it; the laws at the end of that module state that the byte
//! ranges of a successful lex tile the source exactly, and that lookahead
//! through [`lexer::KotoLexer::peek`] agrees with iteration.

pub mod span;
pub mod token;
pub mod unicode;
pub mod lexer_spec;
pub mod lexer;
pub mod node;
pub mod value;
pub mod tuple;
