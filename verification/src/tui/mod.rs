//! The terminal interface: what is shown, and what keys do.
pub mod cells;
pub mod classic;
pub mod history;
pub mod keys;
pub mod laws;
pub mod layout;
pub mod model;
pub mod plain;
pub mod screens;
pub mod view;
pub mod widget;
