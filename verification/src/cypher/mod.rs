pub mod lexer;
pub mod parser;
