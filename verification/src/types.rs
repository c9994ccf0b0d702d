//! The shared data model: service health, execution plans, the runtime snapshot that the
//! control plane exports, and upstream stream events.
//!
//! Keyed tables of the snapshot are lists of `(key, value)` pairs in ascending key order, as the
//! control plane writes them; lookups take the first entry whose key matches.
use vstd::prelude::*;
use vstd::string::*;

verus! {

/// Service health, shared by `/healthz`, `/readyz` and the runtime metadata.
#[derive(Debug, Clone, Copy, PartialEq, Eq, Default)]
pub enum ServiceState {
    #[default]
    Starting,
    Ready,
    Degraded,
    Failed,
}

/// Which stickiness rule produced a routing decision.
#[derive(Debug, Clone, Copy, PartialEq, Eq)]
pub enum StickinessSource {
    Strategy,
    SessionAffinity,
    ReboundSessionAffinity,
    PinnedAuth,
}

/// The routing decision made before a request is executed.
#[derive(Debug, Clone, PartialEq, Eq)]
pub struct ExecutionPlan {
    pub provider: ProviderKind,
    pub model: String,
    pub auth_id: String,
    pub retry_candidates: Vec<String>,
    pub stickiness_source: StickinessSource,
}

/// The runtime snapshot that the control plane exports to the data plane.
#[derive(Debug, Clone, PartialEq, Eq, Default)]
pub struct RuntimeSnapshot {
    pub version: String,
    pub generated_at: String,
    pub source_instance_id: String,
    pub listeners: ListenerConfig,
    pub routes: RouteConfig,
    pub routing: RoutingConfig,
    pub providers: Vec<(String, ProviderConfig)>,
    pub model_aliases: Vec<(String, Vec<(String, String)>)>,
    pub models: Vec<(String, Vec<String>)>,
    pub auth_pool: Vec<AuthRecord>,
    pub network: NetworkConfig,
    pub usage_queue: UsageQueueConfig,
    pub feature_flags: Vec<(String, bool)>,
}

/// Listener addresses published by the control plane.
#[derive(Debug, Clone, PartialEq, Eq, Default)]
pub struct ListenerConfig {
    pub public_http: String,
}

/// Which entry points the data plane serves.
#[derive(Debug, Clone, PartialEq, Eq, Default)]
pub struct RouteConfig {
    pub responses: bool,
    pub chat_completions: bool,
    pub messages: bool,
}

/// Scheduling strategy and session stickiness.
#[derive(Debug, Clone, PartialEq, Eq)]
pub struct RoutingConfig {
    pub strategy: RoutingStrategy,
    pub session_affinity: bool,
    pub session_ttl_seconds: u64,
}

/// The session TTL used when the snapshot gives none.
pub const DEFAULT_SESSION_TTL_SECONDS: u64 = 3600;

impl Default for RoutingConfig {
    fn default() -> (r: Self)
        ensures
            r.strategy == RoutingStrategy::FillFirst,
            r.session_affinity,
            r.session_ttl_seconds == DEFAULT_SESSION_TTL_SECONDS,
    {
        RoutingConfig {
            strategy: RoutingStrategy::FillFirst,
            session_affinity: true,
            session_ttl_seconds: DEFAULT_SESSION_TTL_SECONDS,
        }
    }
}

#[derive(Debug, Clone, Copy, PartialEq, Eq, Default)]
pub enum RoutingStrategy {
    #[default]
    FillFirst,
    RoundRobin,
}

/// Whether a provider is switched on.
#[derive(Debug, Clone, PartialEq, Eq, Default)]
pub struct ProviderConfig {
    pub enabled: bool,
}

/// One credential of the auth pool.
#[derive(Debug, Clone, PartialEq, Eq, Default)]
pub struct AuthRecord {
    pub id: String,
    pub auth_index: String,
    pub provider: String,
    pub auth_kind: String,
    pub usage_source: String,
    pub priority: i32,
    pub enabled: bool,
    pub supports_models: Vec<String>,
    pub labels: Vec<String>,
    pub execution: AuthExecution,
    pub cooldown_until: Option<String>,
}

/// Provider-specific execution data of an auth.
#[derive(Debug, Clone, PartialEq, Eq, Default)]
pub struct AuthExecution {
    pub codex: Option<CodexExecution>,
}

/// What a Codex OAuth credential needs at execution time.
#[derive(Debug, Clone, PartialEq, Eq, Default)]
pub struct CodexExecution {
    pub access_token: String,
    pub account_id: String,
    pub base_url: String,
    pub user_agent: String,
    pub openai_beta: String,
}

/// The usage queue switch.
#[derive(Debug, Clone, PartialEq, Eq, Default)]
pub struct UsageQueueConfig {
    pub enabled: bool,
    pub backend: String,
    pub external: Option<ExternalUsageQueueConfig>,
}

/// An external usage queue that records are pushed to.
#[derive(Debug, Clone, PartialEq, Eq)]
pub struct ExternalUsageQueueConfig {
    pub address: String,
    pub password: String,
    pub key: String,
    pub timeout_ms: u64,
}

/// The address of an external usage queue when the snapshot gives none: empty.
pub fn default_external_usage_address() -> (r: String)
    ensures
        r@ == Seq::<char>::empty(),
{
    String::new()
}

/// The key of an external usage queue when the snapshot gives none.
pub fn default_external_usage_key() -> (r: String)
    ensures
        r@ == "usage"@,
{
    String::from_str("usage")
}

/// The timeout of an external usage queue when the snapshot gives none, in milliseconds.
pub fn default_external_usage_timeout_ms() -> (r: u64)
    ensures
        r == 5000,
{
    5000
}

/// The session TTL when the snapshot gives none, in seconds.
pub fn default_session_ttl_seconds() -> (r: u64)
    ensures
        r == DEFAULT_SESSION_TTL_SECONDS,
{
    DEFAULT_SESSION_TTL_SECONDS
}

/// Whether an auth is enabled when the snapshot does not say.
pub fn default_true() -> (r: bool)
    ensures
        r,
{
    true
}

/// Network settings, at present the shared upstream proxy.
#[derive(Debug, Clone, PartialEq, Eq, Default)]
pub struct NetworkConfig {
    pub upstream_proxy: Option<String>,
}

/// Upstream provider kinds known to the data plane.
#[derive(Debug, Clone, Copy, PartialEq, Eq)]
pub enum ProviderKind {
    OpenAi,
    Codex,
    Mock,
}

/// Status and headers of an upstream response.
#[derive(Debug, Clone, PartialEq, Eq, Default)]
pub struct UpstreamResponseHead {
    pub status: u16,
    pub headers: Vec<(String, String)>,
}

/// The stream events of the upstream execution path.
#[derive(Debug, Clone, PartialEq, Eq)]
pub enum StreamEvent {
    Headers(UpstreamResponseHead),
    Data { bytes: Vec<u8> },
    Terminal { status: &'static str },
    Error { message: String },
}

/// Index of the first entry of `t` whose key is `k`.
pub open spec fn first_key_index<V>(t: Seq<(String, V)>, k: Seq<char>) -> int {
    choose|i: int|
        0 <= i < t.len() && t[i].0@ == k && forall|j: int| 0 <= j < i ==> t[j].0@ != k
}

/// Whether some entry of `t` has the key `k`.
pub open spec fn has_key<V>(t: Seq<(String, V)>, k: Seq<char>) -> bool {
    exists|i: int| 0 <= i < t.len() && #[trigger] t[i].0@ == k
}

/// The value of the first entry of `t` whose key is `k`.
pub open spec fn lookup<V>(t: Seq<(String, V)>, k: Seq<char>) -> Option<V> {
    if has_key(t, k) {
        Some(t[first_key_index(t, k)].1)
    } else {
        None
    }
}

/// Index of the first entry of `t` whose key is `k`.
pub fn find_key<V>(t: &Vec<(String, V)>, k: &[char]) -> (r: Option<usize>)
    ensures
        r matches Some(i) ==> i < t@.len() && t@[i as int].0@ == k@ && first_key_index(t@, k@)
            == i,
        r is Some <==> has_key(t@, k@),
{
    let mut i: usize = 0;
    while i < t.len()
        invariant
            i <= t@.len(),
            forall|j: int| 0 <= j < i ==> t@[j].0@ != k@,
        decreases t@.len() - i,
    {
        let key = crate::text::chars_of(t[i].0.as_str());
        if crate::text::chars_eq(key.as_slice(), k) {
            proof {
                let ii = i as int;
                assert(0 <= ii < t@.len() && t@[ii].0@ == k@ && forall|j: int|
                    0 <= j < ii ==> t@[j].0@ != k@);
                let c = first_key_index(t@, k@);
                if c < ii {
                } else if c > ii {
                }
                assert(c == ii);
            }
            return Some(i);
        }
        i = i + 1;
    }
    None
}

} // verus!
