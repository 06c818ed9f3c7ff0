//! A per-user service manager.
use vstd::prelude::*;

pub mod attach;
pub mod cli;
pub mod client;
pub mod config;
pub mod editor;
pub mod env;
pub mod form;
pub mod ipc;
pub mod logs;
pub mod manager;
pub mod paths;
pub mod process;
pub mod protocol;
pub mod quote;
pub mod runner;
pub mod runner_protocol;
pub mod text;
pub mod tui;
pub mod worker;

verus! {

} // verus!
