//! From source text to a tree: tokens, the scanner that makes them, the
//! nodes of the tree and the parser that builds it.

pub mod tokens;
pub mod expressions;
pub mod visitor;
pub mod statements;
pub mod keywords;
pub mod scanner;
pub mod parser;
pub mod respelling;
pub mod semantics;
pub mod reading;
