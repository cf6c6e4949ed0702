//! Translator from a bracketed interactive-fiction authoring language to
//! JavaScript: lexing, tree building, lowering and emission, each verified.

pub mod diagnostic;
pub mod writer;
pub mod token;
pub mod lexer;
pub mod tree;
pub mod inter;
pub mod emit;
pub mod tell;
pub mod object;
pub mod pipeline;
pub mod traversal;
pub mod file_table;
