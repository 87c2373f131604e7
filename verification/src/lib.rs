//! The verified core of zaz, a file-watching task runner and process manager.

pub mod config;
pub mod daemon;
pub mod graph;
pub mod mcp;
pub mod message_laws;
pub mod paths;
pub mod process;
pub mod strmap;
pub mod text;
pub mod text_laws;
pub mod xtask;
