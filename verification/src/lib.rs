use vstd::prelude::*;

pub mod auth_state;
pub mod clock;
pub mod config;
pub mod error_events;
pub mod failure;
pub mod health;
pub mod http_api;
pub mod json;
pub mod keymap;
pub mod metadata;
pub mod protocol;
pub mod redis_protocol;
pub mod request_summary;
pub mod responses_handler;
pub mod responses_upstream;
pub mod router;
pub mod router_laws;
pub mod routing_policy;
pub mod runtime;
pub mod snapshot;
pub mod sse;
pub mod sse_framer;
pub mod telemetry;
pub mod text;
pub mod types;
pub mod upstream_runtime;
pub mod usage_queue;

verus! {

} // verus!
