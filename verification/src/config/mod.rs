//! Configuration: its schema and its validation.

pub mod byte_size;
pub mod discovery;
pub mod error;
pub mod fault_laws;
pub mod schema;
pub mod toml_spanned;
pub mod user;
pub mod validate;
pub mod validate_laws;
