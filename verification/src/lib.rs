//! An engine for a language whose programs are directory trees.
//!
//! A program is a tree of folders. What a folder means is decided by how
//! many sub-folders it holds, and its operands are its sub-folders, read in
//! natural order without regard to case. The engine decodes such a tree,
//! runs it, and turns it into the text of an equivalent program.
//!
//! The tree is handed over as a plain value, [`utils::Folder`]: reading it
//! from a disk is the caller's business. So are the console and
//! arithmetic on single-precision numbers, which the engine holds by their
//! bits:
//! - [`machine::Machine`] runs a program one step at a time. Each step says
//!   what is to be done for the program (a text to be written, a line to be
//!   read, a piece of arithmetic) and the caller brings the result to the
//!   next step.
//! - [`transpile::translate`] turns a program into text, in which a
//!   single-precision number stands as a token of its own for the caller to
//!   write in decimal.
//!
//! The modules, from the leaves up:
//! - [`order`] and [`collate`]: the natural order of names;
//! - [`utils`]: folders, their sub-folders in order, bits and bytes;
//! - [`text`]: integers as text and text as integers;
//! - [`items::variable`]: values, their arithmetic and their order;
//! - [`scope`]: frames of variables;
//! - [`items::expression`] and [`items::command`]: the two kinds of nodes;
//! - [`items::typing`]: what running and translating have in common;
//! - [`machine`] and [`transpile`]: whole programs.

pub mod collate;
pub mod items;
pub mod machine;
pub mod order;
pub mod scope;
pub mod text;
pub mod transpile;
pub mod utils;
