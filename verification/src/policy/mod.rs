//! Policies and their application.
pub mod merge;
pub mod types;
