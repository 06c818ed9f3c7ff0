//! Editing a configuration file through a form.
pub mod document;
pub mod edits;
pub mod filling;
pub mod grammar;
pub mod help;
pub mod input;
pub mod laws;
pub mod locality;
pub mod model;
pub mod readback;
pub mod restart;
pub mod saving;
pub mod screen;
pub mod session;
pub mod source;
pub mod state;
