//! Decision core of the Tachyon HTTP load balancer.
//!
//! Everything the balancer decides stands here and is verified: which backend a request goes to
//! ([`registry`], [`selection`]), when a backend is taken out of rotation and when it returns
//! ([`upkeep`]), the way of a request from its arrival to its answer ([`exchange`], [`upstream`]),
//! what is counted and shown ([`metrics`], [`stats`]), which configuration is in force ([`config`]),
//! and the balancer as a whole, whose backends are those of that configuration ([`state`]). Sockets,
//! timers, Redis and the response cache belong to the program around it, which performs the steps
//! that are decided here.

pub mod config;
pub mod counter;
pub mod exchange;
pub mod length;
pub mod logger;
pub mod metrics;
pub mod rate;
pub mod registry;
pub mod reply;
pub mod selection;
pub mod state;
pub mod stats;
pub mod text;
pub mod upkeep;
pub mod upstream;

pub use config::{BackendConfig, Config, ConfigManager, FeatureFlags};
pub use exchange::{Exchange, Step};
pub use logger::Logger;
pub use registry::{Backend, BackendRegistry};
pub use state::LbState;
pub use upstream::{Delivery, Dispatch, Failure, Forward, ForwardError};
