// An interpreter for a small line-oriented scripting language: `lexer`
// turns source text into tokens, `parser` builds statements with expression
// trees by precedence climbing, `interpreter` runs them against an
// environment and reports what they print and which of them failed.
pub mod ast;
pub mod flotante;
pub mod interpreter;
pub mod leyes;
pub mod lexer;
pub mod parser;
pub mod texto;
