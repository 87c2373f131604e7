//! What the tool server asks of the daemon and shows of its answers.

pub mod client;
pub mod error;
pub mod report_laws;
pub mod types;
