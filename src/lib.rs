//! Expression trees for a compiler front end: an arena of nodes addressed by
//! handle, structural equality through the arena, and a precedence-climbing
//! parser over a token cursor.

pub mod ast;
pub mod parser;
pub mod span;
pub mod token;
