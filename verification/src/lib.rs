//! Resilient JSON-RPC failover pool: endpoint configuration, health tracking,
//! load-aware dispatch, and the JSON-RPC proxy surface, with every rule stated
//! as a contract and proved.
//!
//! The library decides and keeps count. It holds no socket, no clock and no
//! lock: callers send requests, read the clock, and hand back what came of it.

pub mod config;
pub mod env;
pub mod error;
pub mod health;
pub mod json;
pub mod metrics;
pub mod pool;
pub mod presets;
pub mod proxy;
pub mod rollup;
pub mod starter;
pub mod text;
pub mod time;
pub mod transport;

pub use config::{Auth, RpcCapability, RpcEndpoint, RpcPoolConfig, DEFAULT_LISTEN};
pub use env::expand_env;
pub use error::RpcError;
pub use health::{BackoffPolicy, EndpointHealth, EndpointStatus};
pub use json::Json;
pub use metrics::{Metrics, NoopMetrics};
pub use pool::{ForwardResult, PoolEntryStatus, RpcPool};
