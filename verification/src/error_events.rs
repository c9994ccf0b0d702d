//! The payload of the `errors` channel.
use vstd::prelude::*;

verus! {

/// Whether an error event blocks a whole auth or one model of it.
#[derive(Debug, Clone, Copy, PartialEq, Eq)]
pub enum ErrorScope {
    Auth,
    Model,
}

/// One record of the `errors` channel.
#[derive(Debug, Clone, PartialEq, Eq)]
pub struct ErrorEvent {
    pub timestamp: String,
    pub request_id: String,
    pub provider: String,
    pub model: String,
    pub auth_index: String,
    pub scope: ErrorScope,
    pub status_code: u16,
    pub error_code: String,
    pub message: String,
    pub retry_after_ms: u64,
    pub cooldown_until: String,
    pub quota_exceeded: bool,
    pub reason: String,
}

} // verus!
