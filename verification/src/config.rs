//! The plugin's configuration and its defaults.

use crate::number::binary64::Binary64;
use crate::number::datum::Datum;
use vstd::prelude::*;
use vstd::string::*;

verus! {

/// The settings of the plugin.
#[derive(Clone, Copy, Debug)]
pub struct PluginConfig {
    /// Starting limit of a new host.
    pub initial_concurrency_limit: u32,
    /// Floor of the limit.
    pub min_concurrency_limit: u32,
    /// Ceiling of the limit.
    pub max_concurrency_limit: u32,
    /// Latency samples before a recalculation.
    pub sample_window_size: usize,
    /// Windows between two minRTT probes.
    pub min_rtt_recalc_windows: u32,
    /// Buffer added to the minRTT, as a fraction of it.
    pub min_rtt_buffer_pct: Binary64,
    /// Percentile of the samples that stands for a window.
    pub sample_percentile: Binary64,
    /// Upper bound of the gradient.
    pub max_gradient: Binary64,
    /// Interval of the periodic recalculation.
    pub tick_period_ms: u64,
    /// Seconds after which a host that is no longer seen is forgotten.
    pub host_expiry_secs: u64,
    /// HTTP status code to return when shedding load.
    pub overload_response_code: u32,
    /// Annotate, but never reject.
    pub dry_run: bool,
    /// Gradient threshold below which a host is considered overloaded.
    pub overload_gradient_threshold: Binary64,
    /// Gradient threshold above which an overloaded host is considered recovered.
    pub recovery_gradient_threshold: Binary64,
    /// Minimum number of probe samples before computing the minRTT.
    pub min_rtt_probe_count: usize,
    /// Seconds after which an overloaded host with no new samples gets reset; zero for never.
    pub recovery_timeout_secs: u64,
}

pub fn default_initial_limit() -> (r: u32)
    ensures
        r == 100,
{
    100
}

pub fn default_min_limit() -> (r: u32)
    ensures
        r == 3,
{
    3
}

pub fn default_max_limit() -> (r: u32)
    ensures
        r == 1000,
{
    1000
}

pub fn default_sample_window_size() -> (r: usize)
    ensures
        r == 250,
{
    250
}

pub fn default_min_rtt_recalc_windows() -> (r: u32)
    ensures
        r == 5,
{
    5
}

/// 0.25
pub fn default_min_rtt_buffer_pct() -> (r: Binary64)
    ensures
        r@ == Datum::of_ratio(25, 100),
{
    Binary64::from_ratio(25, 100)
}

/// 0.9
pub fn default_sample_percentile() -> (r: Binary64)
    ensures
        r@ == Datum::of_ratio(9, 10),
{
    Binary64::from_ratio(9, 10)
}

/// 2.0
pub fn default_max_gradient() -> (r: Binary64)
    ensures
        r@ == Datum::of_ratio(2, 1),
{
    Binary64::from_ratio(2, 1)
}

pub fn default_tick_period_ms() -> (r: u64)
    ensures
        r == 1000,
{
    1000
}

pub fn default_host_expiry_secs() -> (r: u64)
    ensures
        r == 300,
{
    300
}

pub fn default_overload_response_code() -> (r: u32)
    ensures
        r == 503,
{
    503
}

/// 0.7
pub fn default_overload_gradient_threshold() -> (r: Binary64)
    ensures
        r@ == Datum::of_ratio(7, 10),
{
    Binary64::from_ratio(7, 10)
}

/// 0.95
pub fn default_recovery_gradient_threshold() -> (r: Binary64)
    ensures
        r@ == Datum::of_ratio(95, 100),
{
    Binary64::from_ratio(95, 100)
}

pub fn default_min_rtt_probe_count() -> (r: usize)
    ensures
        r == 25,
{
    25
}

pub fn default_recovery_timeout_secs() -> (r: u64)
    ensures
        r == 10,
{
    10
}

impl PluginConfig {
    /// The configuration in which every setting has its default.
    pub open spec fn is_default(self) -> bool {
        &&& self.initial_concurrency_limit == 100
        &&& self.min_concurrency_limit == 3
        &&& self.max_concurrency_limit == 1000
        &&& self.sample_window_size == 250
        &&& self.min_rtt_recalc_windows == 5
        &&& self.min_rtt_buffer_pct@ == Datum::of_ratio(25, 100)
        &&& self.sample_percentile@ == Datum::of_ratio(9, 10)
        &&& self.max_gradient@ == Datum::of_ratio(2, 1)
        &&& self.tick_period_ms == 1000
        &&& self.host_expiry_secs == 300
        &&& self.overload_response_code == 503
        &&& !self.dry_run
        &&& self.overload_gradient_threshold@ == Datum::of_ratio(7, 10)
        &&& self.recovery_gradient_threshold@ == Datum::of_ratio(95, 100)
        &&& self.min_rtt_probe_count == 25
        &&& self.recovery_timeout_secs == 10
    }

    /// The two ranges that limits and gradients are clamped to are not empty.
    pub open spec fn has_ranges(self) -> bool {
        &&& self.min_concurrency_limit <= self.max_concurrency_limit
        &&& Datum::of_ratio(1, 2).at_most(self.max_gradient@)
    }

    /// The timeouts, which are given in seconds, can be counted in nanoseconds.
    pub open spec fn has_timeouts(self) -> bool {
        &&& self.recovery_timeout_secs * 1_000_000_000 <= u64::MAX
        &&& self.host_expiry_secs * 1_000_000_000 <= u64::MAX
    }

    /// Whether the ranges that limits and gradients are clamped to are not empty.
    pub fn check_ranges(&self) -> (r: bool)
        ensures
            r == self.has_ranges(),
    {
        self.min_concurrency_limit <= self.max_concurrency_limit && Binary64::from_ratio(
            1,
            2,
        ).at_most(self.max_gradient)
    }

    /// Whether the timeouts can be counted in nanoseconds.
    pub fn check_timeouts(&self) -> (r: bool)
        ensures
            r == self.has_timeouts(),
    {
        let most: u64 = u64::MAX / 1_000_000_000;
        self.recovery_timeout_secs <= most && self.host_expiry_secs <= most
    }

    /// The outcome of reading a configuration from its JSON text: what was read, or a message
    /// that says why it could not be read.
    pub fn from_json(parsed: Result<PluginConfig, String>) -> (r: Result<PluginConfig, String>)
        ensures
            parsed matches Ok(config) ==> r == Ok::<PluginConfig, String>(config),
            parsed matches Err(reason) ==> {
                &&& r matches Err(message)
                &&& message@ == "failed to parse config: "@ + reason@
            },
    {
        match parsed {
            Ok(config) => Ok(config),
            Err(reason) => {
                let mut message = "failed to parse config: ".to_owned();
                message.append(reason.as_str());
                Err(message)
            },
        }
    }
}

impl Default for PluginConfig {
    fn default() -> (r: Self)
        ensures
            r.is_default(),
    {
        PluginConfig {
            initial_concurrency_limit: default_initial_limit(),
            min_concurrency_limit: default_min_limit(),
            max_concurrency_limit: default_max_limit(),
            sample_window_size: default_sample_window_size(),
            min_rtt_recalc_windows: default_min_rtt_recalc_windows(),
            min_rtt_buffer_pct: default_min_rtt_buffer_pct(),
            sample_percentile: default_sample_percentile(),
            max_gradient: default_max_gradient(),
            tick_period_ms: default_tick_period_ms(),
            host_expiry_secs: default_host_expiry_secs(),
            overload_response_code: default_overload_response_code(),
            dry_run: false,
            overload_gradient_threshold: default_overload_gradient_threshold(),
            recovery_gradient_threshold: default_recovery_gradient_threshold(),
            min_rtt_probe_count: default_min_rtt_probe_count(),
            recovery_timeout_secs: default_recovery_timeout_secs(),
        }
    }
}

} // verus!
