//! Process management: command execution, supervised services, signals.

pub mod error;
pub mod executor;
pub mod launcher;
pub mod process_laws;
pub mod runner;
pub mod service;
pub mod signal;
