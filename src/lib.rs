// A small imperative scripting language: a verified front end that turns
// source text into statements, and a verified step machine that runs them
// against one flat set of variables, handing number work and output to its
// host.

pub mod agreement;
pub mod bi_operator;
pub mod compiler;
pub mod expression;
pub mod grammar;
pub mod lexer;
pub mod machine;
mod parser;
pub mod runtime;
pub mod statement;
pub mod value;
