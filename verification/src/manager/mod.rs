//! The manager: the services that it looks after, and what it does when it is asked to.
pub mod daemon;
pub mod definition;
pub mod jobs;
pub mod laws;
pub mod reaper;
pub mod requests;
pub mod retire;
pub mod shell;
pub mod table;
pub mod takeover;
pub mod watcher;
