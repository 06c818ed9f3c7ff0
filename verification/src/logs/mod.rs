//! The output of a service: kept in memory, kept on disk, and read back.
pub mod codes;
pub mod display;
pub mod keeping;
pub mod laws;
pub mod store;
