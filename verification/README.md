# cliproxy_data_plane

The data plane of CLIProxyAPI as a verified library: routing of `/v1/responses` requests over
the auth pool of a runtime snapshot, auth health and cooldowns, the Codex request shape, SSE
framing and repair of the upstream stream, usage records and the Redis-like usage queue
protocol. The library's own functions in `src/` carry contracts that Verus proves; calls into
`serde_json`, `time`, `tokio`, `reqwest` and std's clocks go through small trusted wrappers,
whose contracts say what those calls do where that can be said, and nothing where the result
depends on time or on a channel's state.

- `src/` — the library (Verus). Laws that span several functions are public proof functions
  (`law_*`), next to the functions they speak of.
- `tests/` — tests of the library on concrete values.
- `app/` — the process around it: command line, HTTP routes (axum), the TCP listener that
  also speaks the usage protocol, upstream calls (reqwest) and the serde forms of the values.
