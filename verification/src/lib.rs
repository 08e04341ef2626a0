//! A tree-walking interpreter for the Lox language, in verified parts: a
//! scanner and a parser, each held to a grammar; a resolver that finds, for
//! each site that names a local binding, how many scopes up the binding lies;
//! and an evaluator that runs as a machine of small steps over scopes and
//! objects named by index, and asks its host for what it cannot do itself:
//! writing lines, arithmetic on numbers, and native functions.
pub mod environment;
pub mod error;
pub mod expr;
pub mod grammar;
pub mod interpreter;
pub mod lookahead;
pub mod lox_callable;
pub mod numbering;
pub mod parser;
pub mod resolver;
pub mod scanner;
pub mod stmt;
pub mod text;
