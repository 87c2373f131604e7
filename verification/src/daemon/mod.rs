//! The daemon: group orchestration, its API, and log storage.

pub mod api;
pub mod cascade_laws;
pub mod change_laws;
pub mod completion_laws;
pub mod dependency;
pub mod dependency_laws;
pub mod engine;
pub mod engine_laws;
pub mod engine_model;
pub mod error;
pub mod group_run;
pub mod liveness_laws;
pub mod log_laws;
pub mod log_layer;
pub mod log_model;
pub mod log_storage;
pub mod log_store;
pub mod notify;
pub mod place_laws;
pub mod planning;
pub mod query_laws;
pub mod reload_laws;
pub mod request_laws;
pub mod requests;
pub mod resolver_laws;
pub mod run_laws;
pub mod server;
pub mod service_laws;
pub mod service_round;
pub mod shutdown;
pub mod sqlite;
pub mod start_laws;
pub mod state;
pub mod tasks;
pub mod trigger;
