//! `cage` runs a command inside a sandbox built from a named policy: which
//! paths are writable, which are hidden, how far the network reaches, and which
//! environment variables pass.
pub mod text;
pub mod glob;
pub mod env_map;
pub mod policy;
pub mod config;
pub mod paths;
pub mod cli;
pub mod platform;
pub mod session;
