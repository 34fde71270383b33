//! Front end of a self-hosting parser generator: the algebraic rule
//! intermediate representation (IR) for grammar productions, the block
//! compiler that lowers a concrete syntax tree of grammar source into
//! named blocks of commands, and the assembly of a flat rule table that
//! a backtracking matching engine can execute.

pub mod block;
pub mod bootstrap;
pub mod compiler;
pub mod cst;
pub mod rule;
pub mod text;
