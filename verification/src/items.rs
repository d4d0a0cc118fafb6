//! The values of the language and the two kinds of nodes of a program.

pub mod command;
pub mod expression;
pub mod typing;
pub mod variable;
