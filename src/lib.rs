//! Front end of the FTL language: a tokenizer, a recursive-descent parser
//! producing a left-flat syntax tree, and the passes that reassociate infix
//! chains by declared precedence and merge declarations into definitions.

pub mod source;
pub mod string;
pub mod text;
pub mod token;
pub mod helpers;
pub mod lexer;
pub mod ast;
pub mod errors;
pub mod parser;
pub mod epr;
pub mod dm;
pub mod visitor;
pub mod visitor_mut;
pub mod utf8;
pub mod error;
pub mod gn;
