pub mod ast;
pub mod environment;
pub mod errors;
pub mod evaluate;
pub mod evaluator;
pub mod execute;
pub mod laws;
pub mod lexer;
pub mod operator_laws;
pub mod operators;
pub mod parse_expr;
pub mod parse_laws;
pub mod parse_stmt;
pub mod parser;
pub mod span;
pub mod suggest;
pub mod text;
pub mod text_laws;
pub mod tokens;
pub mod value;
