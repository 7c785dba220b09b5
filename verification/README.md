# drm3-rpc-pool

A JSON-RPC failover pool and proxy for EVM chains, written in Verus. Give it an
ordered list of endpoints and point an app at the proxy: it does
first-success-wins dispatch with per-endpoint health tracking, exponential
backoff, capability routing, client-side throttling, load-aware ordering and
failover.

## Layout

- `src/` is the library. Its functions have contracts that Verus proves, but for
  the hooks of the `Metrics` trait, which promise nothing, and three trusted
  functions (below). It holds no socket, no clock and no lock: a call is a `Dispatch` that the pool
  takes forward step by step, and each step either asks for a request to be sent
  or ends the call.
- `app/` is the daemon around it: command line, TOML files, HTTP in and out, and
  the lock that lets concurrent calls share one pool.
- `tests/` run the library against scripted upstreams.

| Module | What it decides |
|--------|-----------------|
| `config`, `env` | endpoints, validation, `${VAR}` templating |
| `health` | cooldowns after failures |
| `pool::rate_limit` | token buckets |
| `pool::rank`, `pool::state`, `pool::dispatch` | who is asked, in which order, and what a reply means |
| `pool::laws`, `pool::traffic` | what holds of every call, and of any number of interleaved calls |
| `pool::wire`, `json` | request bytes and responses |
| `proxy` | single and batch requests, reply envelopes, health report |
| `rollup`, `metrics` | window statistics and hooks |
| `presets`, `starter` | endpoint lists and the starter configuration |

## What is proved

Contracts state results exactly, over mathematical models: `PoolState`,
`DispatchState`, `HealthState`, `LimiterState` and the views of the
configuration types. Functions named `law_*` state what holds across calls:
a call succeeds if any usable endpoint answers, the first in dispatch order
wins, no call tries more endpoints than its budget, every reply is counted once,
load is always the number of calls that wait, no two requests share a number, a
throttle never exceeds its burst and rate, every client id
is preserved, and every batch is answered in order.

Three calls are trusted rather than proved, each behind a small function with a
stated contract: string quoting with `serde_json`, `{:?}` of a string, and
`String::from_utf8_lossy`.
