//! Coordination core of a federated, prefix-partitioned authenticated directory:
//! topology resolution, the per-epoch transaction pool, signatures, and the
//! prepare/commit state machine of one server.

pub mod args;
pub mod config;
pub mod error;
pub mod grpc_handler;
pub mod metaconfig;
pub mod server;
pub mod utils;
