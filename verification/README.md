# Adaptive concurrency for Envoy

A per-host adaptive concurrency limiter for Envoy, as a library verified with
Verus and a thin WASM plugin around it.

Envoy's built-in adaptive concurrency filter works per cluster: one degraded
host out of a hundred throttles them all. This limiter keeps latency statistics
and a limit for every upstream host, so that only the degraded host is affected.

## How it works

1. A response is counted at the upstream host that it came from, and its latency
   is kept as a sample.
2. Periodically the Gradient2 algorithm turns each full window of samples into a
   new limit:

   ```
   buffered_min_rtt = min_rtt * (1 + buffer_pct)
   gradient = clamp(buffered_min_rtt / sample_rtt, 0.5, max_gradient)
   headroom = sqrt(current_limit)
   new_limit = clamp(current_limit * gradient + headroom, min, max)
   ```

3. A host whose gradient falls below a threshold is overloaded until its gradient
   rises above another one, or, without new samples, until a timeout. Its
   responses are replaced by a 503, which makes Envoy retry on another host.

## Layout

- `src/gradient2.rs`: the limit calculation and percentiles
- `src/host_state.rs`: the state of one host, with its model `HostView`
- `src/hosts.rs`, `src/shared_state.rs`: all hosts, with the model `SharedView`;
  overload, adaptive timeouts, expiry, load shedding
- `src/http_context.rs`, `src/root_context.rs`: what happens to one exchange, and
  configuration and periodic work
- `src/config.rs`, `src/metrics.rs`, `src/events.rs`, `src/stats.rs`,
  `src/clock.rs`: settings, metrics, the events and the summary to log, time
- `src/number/`: binary64 arithmetic in integer operations, proved against a model
  of rounding to nearest
- `src/laws/`: what holds of the limiter as a whole
- `tests/`: examples, and comparisons of `src/number/` with the hardware
- `app/`: the plugin, which reads the configuration, asks Envoy for time and
  properties, sends metrics and replies, and writes the log

The library trusts two functions of the standard library: the slice method
`sort_unstable` (`src/samples.rs`) and `String::from_utf8`
(`src/http_context.rs`). Everything else in `src/` is proved.
