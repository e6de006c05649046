pub mod laws;
pub mod lexer;
pub mod repl;
pub mod token;
