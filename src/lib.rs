//! Lifecycle engine for a resource whose behaviour is given by shell commands.

pub mod apply;
pub mod connection;
pub mod diagnostics;
pub mod resource;
pub mod schedule;
pub mod state;
pub mod value;
