//! Core of a path-prefix reverse proxy: rule matching, URL rewriting, upstream
//! selection, a TTL response cache and the health classifier that moves
//! upstreams between a healthy and a quarantined list.

pub mod cache;
pub mod config;
pub mod health;
pub mod health_monitor;
pub mod listener;
pub mod load_balancer;
pub mod partition;
pub mod selector;
pub mod target;
pub mod text;

pub use cache::{CachedResponse, RequestCache, UpstreamResponse};
pub use config::{
    ListenerRuleConfiguration, LoadBalancingAlgorithm, TargetGroupConfiguration,
    TargetGroupHealthCheckConfiguration,
};
pub use health::HealthCheckStats;
pub use health_monitor::{HealthCheckTarget, PoolPosition, ProbeOutcome, TargetGroupHealthCheck};
pub use listener::ListenerRule;
pub use load_balancer::{ForwardOutcome, ListenerRuleHandler, LoadBalancer, Routing};
pub use selector::RoundRobin;
pub use target::{Target, TargetGroup, TargetGroupCreationError};
