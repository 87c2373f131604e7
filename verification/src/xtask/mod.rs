//! Generating the reference tables of the command line.


pub mod docs_cli;
pub mod docs_laws;
pub mod splicer;
