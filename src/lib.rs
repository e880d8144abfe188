pub mod evaluator;
pub mod expr;
pub mod lexer;
pub mod parser;
