//! The control plane: declarations, reconciliation, registry and relay.

pub mod agent;
pub mod types;
pub mod gateway;
pub mod manager;
pub mod reconcile;
pub mod relay;
pub mod registry;
