//! Commands from a Markdown document.
//!
//! A document is compiled into a tree of commands, one for each heading;
//! the tree is offered as a command-line interface, and an invocation of
//! that interface is resolved to the command it names.

pub mod arena;
pub mod cli;
pub mod compile;
pub mod eval;
pub mod parser;
pub mod routing;
pub mod runtfile;
pub mod shape;
pub mod text;
