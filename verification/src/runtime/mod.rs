//! The flow runtime: graph construction and validation, control-step
//! decisions, statistics and error history.

pub mod kahn;
pub mod node;
pub mod graph;
pub mod record;
pub mod control;
pub mod buffers;
pub mod observe;
pub mod persist;
pub mod stats;
pub mod serve;
pub mod pause;
pub mod executor;
pub mod history;
pub mod admin;
pub mod warnings;
pub mod walker;
pub mod stdio_extensions;
pub mod routes;
