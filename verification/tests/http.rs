use cliproxy_data_plane::auth_state::AuthStateOverlay;
use cliproxy_data_plane::config::Config;
use cliproxy_data_plane::http_api::{
    check_snapshot_notify, downstream_api_key, error_envelope, invalid_json, plain_error_body,
    snapshot_unavailable, usage_pop_count,
};
use cliproxy_data_plane::json::Json;
use cliproxy_data_plane::protocol::ResponsesRequest;
use cliproxy_data_plane::responses_handler::{
    error_response, forwarded_headers, request_metadata, response_status, screen_request_at,
    should_skip_upstream_header,
};
use cliproxy_data_plane::router::RouterCore;
use cliproxy_data_plane::runtime::RuntimeState;
use cliproxy_data_plane::snapshot::SnapshotSource;
use cliproxy_data_plane::types::{
    AuthExecution, AuthRecord, CodexExecution, ProviderConfig, RouteConfig, RoutingConfig,
    RoutingStrategy, RuntimeSnapshot, StickinessSource,
};
use cliproxy_data_plane::upstream_runtime::{CodexConfig, UpstreamRuntime, UpstreamRuntimeConfig};
use serde_json::Value;

fn v(json: &Json) -> Value {
    value_of(json)
}
fn json_of(value: Value) -> Json {
    match value {
        Value::Null => Json::Null,
        Value::Bool(b) => Json::Bool(b),
        Value::Number(n) => Json::Number(n.to_string()),
        Value::String(s) => Json::Str(s),
        Value::Array(a) => Json::Array(a.into_iter().map(json_of).collect()),
        Value::Object(o) => Json::Object(o.into_iter().map(|(k, x)| (k, json_of(x))).collect()),
    }
}

fn value_of(json: &Json) -> Value {
    match json {
        Json::Null => Value::Null,
        Json::Bool(b) => Value::Bool(*b),
        Json::Number(n) => Value::Number(serde_json::from_str(n).expect("number text")),
        Json::Str(s) => Value::String(s.clone()),
        Json::Array(a) => Value::Array(a.iter().map(value_of).collect()),
        Json::Object(o) => Value::Object(o.iter().map(|(k, x)| (k.clone(), value_of(x))).collect()),
    }
}


fn pairs(items: &[(&str, &str)]) -> Vec<(String, String)> {
    items.iter().map(|(k, x)| (k.to_string(), x.to_string())).collect()
}

fn lookup<'a>(headers: &'a [(String, String)], name: &str) -> Option<&'a str> {
    headers.iter().find(|(k, _)| k == name).map(|(_, x)| x.as_str())
}

#[test]
fn apply_upstream_headers_strips_hop_by_hop_headers() {
    let source = pairs(&[
        ("connection", "keep-alive"),
        ("content-type", "application/json"),
        ("keep-alive", "timeout=4"),
        ("proxy-connection", "keep-alive"),
        ("transfer-encoding", "chunked"),
    ]);

    let headers = forwarded_headers(&source, false);

    assert_eq!(lookup(&headers, "content-type"), Some("application/json"));
    assert!(lookup(&headers, "connection").is_none());
    assert!(lookup(&headers, "keep-alive").is_none());
    assert!(lookup(&headers, "proxy-connection").is_none());
    assert!(lookup(&headers, "transfer-encoding").is_none());
}

#[test]
fn apply_upstream_headers_drops_entity_headers_when_body_is_rewritten() {
    let source = pairs(&[
        ("content-encoding", "gzip"),
        ("content-length", "999"),
        ("content-range", "bytes 0-10/10"),
        ("x-request-id", "req_123"),
    ]);

    let headers = forwarded_headers(&source, true);

    assert!(lookup(&headers, "content-length").is_none());
    assert!(lookup(&headers, "content-encoding").is_none());
    assert!(lookup(&headers, "content-range").is_none());
    assert_eq!(lookup(&headers, "x-request-id"), Some("req_123"));
}

#[test]
fn upstream_headers_with_invalid_names_or_values_are_skipped() {
    let source = pairs(&[("bad name", "x"), ("x-ok", "fine"), ("x-bad", "a\u{7f}b")]);
    assert_eq!(forwarded_headers(&source, false), pairs(&[("x-ok", "fine")]));
    assert!(should_skip_upstream_header(" Content-Length ", true));
    assert!(!should_skip_upstream_header("content-length", false));
    assert!(should_skip_upstream_header("TE", false));
}

#[test]
fn downstream_status_keeps_valid_codes() {
    assert_eq!(response_status(201), 201);
    assert_eq!(response_status(99), 200);
    assert_eq!(response_status(1000), 200);
}

#[test]
fn downstream_api_key_follows_header_precedence() {
    assert_eq!(downstream_api_key(Some("Bearer  sk-1 "), Some("k2"), None).as_deref(), Some("sk-1"));
    assert_eq!(downstream_api_key(Some("bearer sk-1"), None, None).as_deref(), Some("sk-1"));
    assert_eq!(downstream_api_key(Some("Basic abc"), Some(" k2 "), None).as_deref(), Some("k2"));
    assert_eq!(downstream_api_key(Some("Bearer"), None, Some("g3")).as_deref(), Some("g3"));
    assert_eq!(downstream_api_key(Some("Bearer   "), Some("  "), None), None);
    assert_eq!(downstream_api_key(None, None, None), None);
}

#[test]
fn usage_pop_count_defaults_to_one_and_refuses_zero() {
    assert_eq!(usage_pop_count(None), Ok(1));
    assert_eq!(usage_pop_count(Some(5)), Ok(5));
    assert_eq!(usage_pop_count(Some(0)), Err("count must be a positive integer".to_string()));
    assert_eq!(
        v(&plain_error_body("count must be a positive integer")),
        serde_json::from_str::<Value>("{\"error\":\"count must be a positive integer\"}").unwrap()
    );
}

#[test]
fn snapshot_notify_needs_all_fields_and_a_client() {
    let err = check_snapshot_notify("v2", " ", "changed", true).expect_err("blank");
    assert_eq!(err.status, 400);
    assert_eq!(err.code, "invalid_request");
    let err = check_snapshot_notify("v2", "now", "changed", false).expect_err("no client");
    assert_eq!(err.status, 503);
    assert_eq!(err.message, "snapshot notify unavailable without runtime config client");
    assert!(check_snapshot_notify("v2", "now", "changed", true).is_ok());
}

#[test]
fn error_bodies_have_the_openai_shape() {
    let body = error_envelope("boom", "server_error", "x_code");
    assert_eq!(
        v(&body),
        serde_json::from_str::<Value>("{\"error\":{\"message\":\"boom\",\"type\":\"server_error\",\"code\":\"x_code\"}}").unwrap()
    );
    let e = error_response(429, "slow down", "model_cooldown");
    assert_eq!(e.kind, "invalid_request_error");
    assert_eq!(v(&e.body())["error"]["code"], "model_cooldown");
    assert_eq!(snapshot_unavailable().status, 503);
    assert_eq!(invalid_json("bad").code, "invalid_json");
}

fn config() -> Config {
    Config {
        bind_addr: "127.0.0.1:4100".to_string(),
        log_level: "info".to_string(),
        snapshot_file: None,
        snapshot_url: None,
        snapshot_poll_seconds: 0,
        openai_base_url: " https://api.openai.com/v1 ".to_string(),
        openai_api_key: None,
        codex_base_url: "https://chatgpt.com/backend-api/codex".to_string(),
        codex_token: None,
        codex_user_agent: " cliproxy-data-plane/0.1.0 ".to_string(),
        codex_openai_beta: Some("  ".to_string()),
    }
}

#[test]
fn snapshot_source_must_be_exactly_one() {
    let none = config();
    assert_eq!(
        none.snapshot_client_config().unwrap_err(),
        "snapshot source is required; set --snapshot-file or --snapshot-url"
    );
    let both = Config { snapshot_file: Some("a".into()), snapshot_url: Some("b".into()), ..config() };
    assert_eq!(
        both.snapshot_client_config().unwrap_err(),
        "snapshot source must use either --snapshot-file or --snapshot-url, not both"
    );
    let file = Config { snapshot_file: Some("s.json".into()), ..config() };
    let c = file.snapshot_client_config().expect("file");
    assert_eq!(c.source, SnapshotSource::File { path: "s.json".to_string() });
    assert_eq!(c.poll_interval_seconds, 1);
    let url = Config { snapshot_url: Some("http://x".into()), snapshot_poll_seconds: 7, ..config() };
    let c = url.snapshot_client_config().expect("url");
    assert_eq!(c.source, SnapshotSource::Http { url: "http://x".to_string(), bearer_token: None });
    assert_eq!(c.poll_interval_seconds, 7);
}

#[test]
fn upstream_config_takes_non_blank_secrets_trimmed() {
    let cfg = config().upstream_runtime_config();
    assert!(cfg.openai.is_none());
    assert!(cfg.codex.is_none());
    let cfg = Config {
        openai_api_key: Some(" sk ".into()),
        codex_token: Some(" tok ".into()),
        ..config()
    }
    .upstream_runtime_config();
    let openai = cfg.openai.expect("openai");
    assert_eq!(openai.base_url, "https://api.openai.com/v1");
    assert_eq!(openai.api_key, "sk");
    let codex = cfg.codex.expect("codex");
    assert_eq!(codex.token, "tok");
    assert_eq!(codex.user_agent, "cliproxy-data-plane/0.1.0");
    assert_eq!(codex.openai_beta, None);
    let blank = Config { openai_api_key: Some("  ".into()), ..config() }.upstream_runtime_config();
    assert!(blank.openai.is_none());
}

fn request(model: &str, metadata: Option<&str>) -> ResponsesRequest {
    ResponsesRequest {
        model: model.to_string(),
        stream: false,
        input: None,
        instructions: None,
        metadata: metadata.map(|m| json_of(serde_json::from_str(m).expect("json"))),
        store: None,
        extra: vec![],
    }
}

#[test]
fn request_metadata_reads_model_session_and_pin() {
    let meta = request_metadata(&request(
        " codex-latest ",
        Some("{\"session_id\":\"s1\",\"pinned_auth_id\":\" auth-b \"}"),
    ))
    .expect("meta");
    assert_eq!(meta.model, "codex-latest");
    assert_eq!(meta.session_id.as_deref(), Some("codex:s1"));
    assert_eq!(meta.pinned_auth_id.as_deref(), Some("auth-b"));
    assert_eq!(request_metadata(&request("  ", None)).err().as_deref(), Some("model is required"));
}

fn codex_auth(id: &str, token: &str) -> AuthRecord {
    AuthRecord {
        id: id.to_string(),
        provider: "codex".to_string(),
        auth_kind: "oauth".to_string(),
        priority: 100,
        enabled: true,
        supports_models: vec!["gpt-5-codex".to_string()],
        execution: AuthExecution {
            codex: Some(CodexExecution {
                access_token: token.to_string(),
                base_url: "http://127.0.0.1:9/codex".to_string(),
                ..CodexExecution::default()
            }),
        },
        ..AuthRecord::default()
    }
}

fn runtime(auths: Vec<AuthRecord>, responses: bool) -> RuntimeState {
    let mut state = RuntimeState::new();
    state.snapshot = Some(RuntimeSnapshot {
        version: "v1".to_string(),
        routes: RouteConfig { responses, chat_completions: false, messages: false },
        routing: RoutingConfig { strategy: RoutingStrategy::FillFirst, session_affinity: true, session_ttl_seconds: 60 },
        providers: vec![("codex".to_string(), ProviderConfig { enabled: true })],
        models: vec![("codex".to_string(), vec!["gpt-5-codex".to_string()])],
        auth_pool: auths,
        ..RuntimeSnapshot::default()
    });
    state
}

const NOW: i128 = 1_700_000_000_000_000_000;

#[test]
fn screening_refuses_disabled_route_and_unroutable_models() {
    let upstream = UpstreamRuntime::new(UpstreamRuntimeConfig::default());
    let mut router = RouterCore::new();
    let mut overlay = AuthStateOverlay::new();

    let off = runtime(vec![codex_auth("a", "t")], false);
    let meta = request_metadata(&request("gpt-5-codex", None)).unwrap();
    let err = screen_request_at(&off, &mut router, &upstream, &mut overlay, &meta, NOW, 0).unwrap_err();
    assert_eq!((err.status, err.code.as_str()), (404, "route_disabled"));

    let on = runtime(vec![codex_auth("a", "t")], true);
    let meta = request_metadata(&request("gpt-9", None)).unwrap();
    let err = screen_request_at(&on, &mut router, &upstream, &mut overlay, &meta, NOW, 0).unwrap_err();
    assert_eq!((err.status, err.code.as_str()), (503, "routing_unavailable"));
    assert_eq!(err.message, "requested model gpt-9 is not routable for provider codex");
}

#[test]
fn screening_accepts_an_auth_with_its_own_credential() {
    let upstream = UpstreamRuntime::new(UpstreamRuntimeConfig::default());
    let mut router = RouterCore::new();
    let mut overlay = AuthStateOverlay::new();
    let state = runtime(vec![codex_auth("a", "tok"), codex_auth("b", "tok")], true);
    let meta = request_metadata(&request("gpt-5-codex", None)).unwrap();
    let ok = screen_request_at(&state, &mut router, &upstream, &mut overlay, &meta, NOW, 0).expect("accepted");
    assert_eq!(ok.plan.auth_id, "a");
    assert_eq!(ok.plan.retry_candidates, vec!["b".to_string()]);
    assert_eq!(ok.selected, 0);
    assert_eq!(ok.routed.stickiness_source, StickinessSource::Strategy);
}

#[test]
fn screening_refuses_auth_without_upstream() {
    let upstream = UpstreamRuntime::new(UpstreamRuntimeConfig::default());
    let mut router = RouterCore::new();
    let mut overlay = AuthStateOverlay::new();
    let state = runtime(vec![codex_auth("a", "  ")], true);
    let meta = request_metadata(&request("gpt-5-codex", None)).unwrap();
    let err = screen_request_at(&state, &mut router, &upstream, &mut overlay, &meta, NOW, 0).unwrap_err();
    assert_eq!(err.status, 502);
    assert_eq!(err.message, "responses upstream is not configured for selected auth");

    let configured = UpstreamRuntime::new(UpstreamRuntimeConfig {
        openai: None,
        codex: Some(CodexConfig {
            base_url: "http://c".to_string(),
            token: "t".to_string(),
            user_agent: "ua".to_string(),
            openai_beta: None,
        }),
    });
    assert!(screen_request_at(&state, &mut router, &configured, &mut overlay, &meta, NOW, 0).is_ok());
}

#[test]
fn sessions_named_in_user_id_keep_their_auth_under_round_robin() {
    let upstream = UpstreamRuntime::new(UpstreamRuntimeConfig::default());
    let mut router = RouterCore::new();
    let mut overlay = AuthStateOverlay::new();
    let mut state = runtime(vec![codex_auth("auth-codex-a", "token-a"), codex_auth("auth-codex-b", "token-b")], true);
    if let Some(s) = state.snapshot.as_mut() {
        s.routing.strategy = RoutingStrategy::RoundRobin;
    }
    let session = |id: &str| {
        format!("{{\"user_id\":\"{{\\\"device_id\\\":\\\"d\\\",\\\"account_uuid\\\":\\\"\\\",\\\"session_id\\\":\\\"{id}\\\"}}\"}}")
    };
    let first_meta = request_metadata(&request("gpt-5-codex", Some(&session("session-1")))).unwrap();
    assert_eq!(first_meta.session_id.as_deref(), Some("codex:session-1"));
    let first = screen_request_at(&state, &mut router, &upstream, &mut overlay, &first_meta, NOW, 0).unwrap();
    let second = screen_request_at(&state, &mut router, &upstream, &mut overlay, &first_meta, NOW + 1, 1).unwrap();
    let third_meta = request_metadata(&request("gpt-5-codex", Some(&session("session-2")))).unwrap();
    let third = screen_request_at(&state, &mut router, &upstream, &mut overlay, &third_meta, NOW + 2, 2).unwrap();
    assert_eq!(first.plan.auth_id, "auth-codex-a");
    assert_eq!(second.plan.auth_id, "auth-codex-a");
    assert_eq!(second.routed.stickiness_source, StickinessSource::SessionAffinity);
    assert_eq!(third.plan.auth_id, "auth-codex-b");
}
