//! A per-host adaptive concurrency limiter for Envoy.
//!
//! The limiter keeps latency statistics and a concurrency limit for every
//! upstream host. The Gradient2 algorithm derives the limit from the ratio of
//! the ideal latency (minRTT) to the observed one (sampleRTT). A host whose
//! gradient falls below a threshold counts as overloaded: its responses are
//! answered with a local reply, which makes Envoy retry on another host.

pub mod clock;
pub mod config;
pub mod events;
pub mod gradient2;
pub mod host_state;
pub mod hosts;
pub mod http_context;
pub mod laws;
pub mod metrics;
pub mod number;
pub mod root_context;
pub mod samples;
pub mod shared_state;
pub mod stats;
