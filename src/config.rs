use vstd::prelude::*;

verus! {

/// Default TCP port of the listener.
pub fn default_listener_port() -> (r: u16)
    ensures
        r == 8080,
{
    8080
}

/// Default per-forward deadline, in milliseconds.
pub fn default_connection_timeout() -> (r: u64)
    ensures
        r == 60000,
{
    60000
}

/// Default upstream selection strategy.
pub fn default_load_balancing_algorithm() -> (r: LoadBalancingAlgorithm)
    ensures
        r == LoadBalancingAlgorithm::RoundRobin,
{
    LoadBalancingAlgorithm::RoundRobin
}

/// Default bound on the connections kept per upstream.
pub fn default_connection_pool_size() -> (r: u32)
    ensures
        r == 1024,
{
    1024
}

/// The response cache is off unless asked for.
pub fn default_cache_enabled() -> (r: bool)
    ensures
        r == false,
{
    false
}

/// Default cache time-to-live, in milliseconds.
pub fn default_cache_ttl() -> (r: u64)
    ensures
        r == 10000,
{
    10000
}

/// A rule rewrites nothing unless told otherwise.
pub fn default_path_rewrite() -> (r: String)
    ensures
        r@ == Seq::<char>::empty(),
{
    String::new()
}

/// Health checking of a group is off unless asked for.
pub fn default_enable() -> (r: bool)
    ensures
        r == false,
{
    false
}

/// Default per-probe deadline, in milliseconds.
pub fn default_timeout() -> (r: u64)
    ensures
        r == 10000,
{
    10000
}

/// Default pause between the starts of two probe cycles, in milliseconds.
pub fn default_interval() -> (r: u64)
    ensures
        r == 60000,
{
    60000
}

/// Default number of successes above which an unhealthy upstream is promoted.
pub fn default_success_threshold() -> (r: usize)
    ensures
        r == 5,
{
    5
}

/// Default number of failures above which a healthy upstream is demoted.
pub fn default_failure_threshold() -> (r: usize)
    ensures
        r == 3,
{
    3
}

/// Default health-check settings of a group.
pub fn default_health_check() -> (r: TargetGroupHealthCheckConfiguration)
    ensures
        r.is_default(),
{
    TargetGroupHealthCheckConfiguration::default()
}

/// How an upstream is picked from a group's healthy list.
#[derive(Clone, Copy, Debug, PartialEq, Eq, Structural)]
pub enum LoadBalancingAlgorithm {
    RoundRobin,
}

/// One listener rule as configured: requests whose path starts with
/// `path_prefix` go to `target_group`, with `path_rewrite` taken off the path.
#[derive(Clone, Debug)]
pub struct ListenerRuleConfiguration {
    pub target_group: String,
    pub path_prefix: String,
    pub path_rewrite: String,
}

/// One target group as configured: a comma-separated list of
/// `host:port[/uri]` targets and its health-check settings.
#[derive(Clone, Debug)]
pub struct TargetGroupConfiguration {
    pub targets: String,
    pub health_check: TargetGroupHealthCheckConfiguration,
}

/// Health-check settings of a target group; durations in milliseconds.
#[derive(Clone, Debug)]
pub struct TargetGroupHealthCheckConfiguration {
    pub path: String,
    pub enabled: bool,
    pub timeout: u64,
    pub interval: u64,
    pub success_threshold: usize,
    pub failure_threshold: usize,
}

impl TargetGroupHealthCheckConfiguration {
    /// The settings that apply when a group configures none.
    pub open spec fn is_default(self) -> bool {
        &&& self.path@ == Seq::<char>::empty()
        &&& !self.enabled
        &&& self.timeout == 10000
        &&& self.interval == 60000
        &&& self.success_threshold == 5
        &&& self.failure_threshold == 3
    }
}

impl Default for TargetGroupHealthCheckConfiguration {
    fn default() -> (r: Self)
        ensures
            r.is_default(),
    {
        TargetGroupHealthCheckConfiguration {
            path: String::new(),
            enabled: default_enable(),
            timeout: default_timeout(),
            interval: default_interval(),
            success_threshold: default_success_threshold(),
            failure_threshold: default_failure_threshold(),
        }
    }
}

} // verus!
