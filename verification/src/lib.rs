//! A minimal compiler front end for a toy block-structured language:
//! a maximal-munch lexer with a mutable reserved-word table, a chained
//! scoped symbol table with shadowing, and a recursive-descent parser
//! for nested declaration/use blocks.

pub mod assoc;
pub mod defparser;
pub mod infix2suffix;
pub mod laws;
pub mod lexer;
pub mod mtype;
pub mod symbol;
pub mod token;
