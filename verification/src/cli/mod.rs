//! The command line: what it asks for, and what is written in answer.
pub mod actions;
pub mod command;
pub mod invocation;
pub mod laws;
pub mod tokens;
