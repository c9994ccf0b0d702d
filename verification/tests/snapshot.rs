use cliproxy_data_plane::snapshot::{
    snapshot_authorization, snapshot_changed, validate_snapshot, RuntimeConfigClientConfig,
    SnapshotFault, SnapshotSource,
};
use cliproxy_data_plane::types::{
    AuthExecution, AuthRecord, CodexExecution, ListenerConfig, NetworkConfig, ProviderConfig,
    RouteConfig, RoutingConfig, RoutingStrategy, RuntimeSnapshot, UsageQueueConfig,
};

fn valid_snapshot() -> RuntimeSnapshot {
    RuntimeSnapshot {
        version: "v1".to_string(),
        generated_at: "2026-06-10T00:00:00Z".to_string(),
        source_instance_id: "go-main-01".to_string(),
        listeners: ListenerConfig { public_http: ":8317".to_string() },
        routes: RouteConfig { responses: true, chat_completions: false, messages: false },
        routing: RoutingConfig {
            strategy: RoutingStrategy::FillFirst,
            session_affinity: true,
            session_ttl_seconds: 3600,
        },
        providers: vec![("codex".to_string(), ProviderConfig { enabled: true })],
        model_aliases: vec![(
            "codex".to_string(),
            vec![("codex-latest".to_string(), "gpt-5-codex".to_string())],
        )],
        models: vec![("codex".to_string(), vec!["gpt-5-codex".to_string()])],
        auth_pool: vec![AuthRecord {
            id: "auth-1".to_string(),
            provider: "codex".to_string(),
            auth_kind: "oauth".to_string(),
            priority: 100,
            enabled: true,
            supports_models: vec!["gpt-5-codex".to_string()],
            labels: vec!["paid".to_string()],
            execution: AuthExecution {
                codex: Some(CodexExecution {
                    access_token: "codex-access-token".to_string(),
                    account_id: "acct_123".to_string(),
                    base_url: "https://chatgpt.com/backend-api/codex".to_string(),
                    user_agent: "codex-tui/0.135.0".to_string(),
                    openai_beta: "responses=v1".to_string(),
                }),
            },
            cooldown_until: None,
            ..AuthRecord::default()
        }],
        network: NetworkConfig { upstream_proxy: Some("socks5h://127.0.0.1:7897".to_string()) },
        usage_queue: UsageQueueConfig { enabled: true, backend: "redis".to_string(), external: None },
        feature_flags: vec![("enable_sse_repair".to_string(), true)],
    }
}

#[test]
fn validate_snapshot_rejects_empty_version() {
    let mut snapshot = valid_snapshot();
    snapshot.version.clear();
    let err = validate_snapshot(&snapshot).expect_err("validation should fail");
    assert!(err.message().contains("snapshot.version"));
}

#[test]
fn snapshot_changed_detects_same_and_new_versions() {
    assert!(!snapshot_changed(Some("v1"), "v1"));
    assert!(snapshot_changed(Some("v1"), "v2"));
    assert!(snapshot_changed(None, "v1"));
}

#[test]
fn validate_snapshot_accepts_network_upstream_proxy() {
    let snapshot = valid_snapshot();
    validate_snapshot(&snapshot).expect("validation should pass");
    assert_eq!(snapshot.network.upstream_proxy.as_deref(), Some("socks5h://127.0.0.1:7897"));
}

#[test]
fn snapshot_version_comparison_ignores_surrounding_whitespace() {
    assert!(!snapshot_changed(Some(" v1 "), "v1"));
}

#[test]
fn validate_snapshot_reports_each_defect() {
    let mut s = valid_snapshot();
    s.generated_at = " ".to_string();
    assert_eq!(validate_snapshot(&s), Err(SnapshotFault::EmptyGeneratedAt));

    let mut s = valid_snapshot();
    s.source_instance_id.clear();
    assert_eq!(validate_snapshot(&s), Err(SnapshotFault::EmptySourceInstanceId));

    let mut s = valid_snapshot();
    s.models.clear();
    assert_eq!(validate_snapshot(&s), Err(SnapshotFault::ProviderMissingModels("codex".to_string())));

    let mut s = valid_snapshot();
    s.providers = vec![(" ".to_string(), ProviderConfig { enabled: true })];
    assert_eq!(validate_snapshot(&s), Err(SnapshotFault::EmptyProviderKey));

    let mut s = valid_snapshot();
    s.model_aliases = vec![("codex".to_string(), vec![("codex-latest".to_string(), " ".to_string())])];
    assert_eq!(validate_snapshot(&s), Err(SnapshotFault::EmptyAliasTarget("codex".to_string())));

    let mut s = valid_snapshot();
    s.auth_pool[0].execution.codex.as_mut().unwrap().access_token = "  ".to_string();
    assert_eq!(
        validate_snapshot(&s),
        Err(SnapshotFault::CodexOauthMissingAccessToken("auth-1".to_string()))
    );
    assert_eq!(
        validate_snapshot(&s).unwrap_err().message(),
        "snapshot.auth_pool contains codex oauth auth auth-1 without execution.codex.access_token"
    );
}

#[test]
fn snapshot_endpoint_authorization_uses_trimmed_bearer_token() {
    assert_eq!(snapshot_authorization(Some("  tok ")), Ok(Some("Bearer tok".to_string())));
    assert_eq!(snapshot_authorization(Some("   ")), Ok(None));
    assert_eq!(snapshot_authorization(None), Ok(None));
    assert_eq!(
        snapshot_authorization(Some("bad\u{7f}token")),
        Err("invalid snapshot bearer token header value".to_string())
    );
}

#[test]
fn client_config_polls_at_least_every_second() {
    let config = RuntimeConfigClientConfig::new(SnapshotSource::File { path: "s.json".to_string() });
    assert_eq!(config.poll_interval_seconds, 30);
    let zero = RuntimeConfigClientConfig { poll_interval_seconds: 0, ..config };
    assert_eq!(zero.poll_interval(), 1);
}

#[test]
fn fetch_snapshot_rejects_codex_oauth_without_execution_access_token() {
    let mut snapshot = valid_snapshot();
    snapshot.auth_pool[0].execution.codex.as_mut().unwrap().access_token = String::new();
    let err = validate_snapshot(&snapshot).expect_err("expected invalid snapshot");
    assert!(err.message().contains("execution.codex.access_token"));
}

#[test]
fn rejects_invalid_snapshot_missing_version_fixture() {
    let mut snapshot = valid_snapshot();
    snapshot.version = String::new();
    let err = validate_snapshot(&snapshot).expect_err("fixture should fail validation");
    assert!(err.message().contains("snapshot.version"));
}

#[test]
fn rejects_invalid_snapshot_missing_generated_at() {
    let mut snapshot = valid_snapshot();
    snapshot.generated_at = String::new();
    let err = validate_snapshot(&snapshot).expect_err("fixture should fail validation");
    assert!(err.message().contains("snapshot.generated_at"));
}

#[test]
fn rejects_invalid_snapshot_missing_source_instance_id() {
    let mut snapshot = valid_snapshot();
    snapshot.source_instance_id = String::new();
    let err = validate_snapshot(&snapshot).expect_err("fixture should fail validation");
    assert!(err.message().contains("snapshot.source_instance_id"));
}

#[test]
fn rejects_invalid_snapshot_codex_missing_access_token() {
    let mut snapshot = valid_snapshot();
    snapshot.auth_pool[0].execution.codex.as_mut().unwrap().access_token = String::new();
    let err = validate_snapshot(&snapshot).expect_err("fixture should fail validation");
    assert!(err.message().contains("execution.codex.access_token"));
}

#[test]
fn rejects_invalid_snapshot_empty_model_alias_target() {
    let mut snapshot = valid_snapshot();
    snapshot.model_aliases = vec![("codex".to_string(), vec![("codex-latest".to_string(), String::new())])];
    let err = validate_snapshot(&snapshot).expect_err("fixture should fail validation");
    assert!(err.message().contains("model_aliases"));
}

#[test]
fn rejects_invalid_snapshot_provider_missing_model() {
    let mut snapshot = valid_snapshot();
    snapshot.models = Vec::new();
    let err = validate_snapshot(&snapshot).expect_err("fixture should fail validation");
    assert!(err.message().contains("models"));
}

#[test]
fn rejects_invalid_snapshot_empty_provider_key() {
    let mut snapshot = valid_snapshot();
    snapshot.providers = vec![(String::new(), ProviderConfig { enabled: true })];
    let err = validate_snapshot(&snapshot).expect_err("fixture should fail validation");
    assert!(err.message().contains("providers"));
}
