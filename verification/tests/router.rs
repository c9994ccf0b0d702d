use cliproxy_data_plane::json::Json;
use cliproxy_data_plane::metadata::{extract_codex_session_id, extract_pinned_auth_id, trim_to_owned};
use cliproxy_data_plane::router::{PlanError, PlanRequest, RouterCore};
use cliproxy_data_plane::types::{
    AuthRecord, ExecutionPlan, ProviderConfig, ProviderKind, RouteConfig, RoutingConfig,
    RoutingStrategy, RuntimeSnapshot, StickinessSource,
};

fn snapshot_with_auths(auth_pool: Vec<AuthRecord>) -> RuntimeSnapshot {
    RuntimeSnapshot {
        version: "test-v1".to_string(),
        generated_at: "2026-06-14T00:00:00Z".to_string(),
        source_instance_id: "test".to_string(),
        routes: RouteConfig { responses: true, chat_completions: false, messages: false },
        routing: RoutingConfig {
            strategy: RoutingStrategy::FillFirst,
            session_affinity: true,
            session_ttl_seconds: 3600,
        },
        providers: vec![("codex".to_string(), ProviderConfig { enabled: true })],
        model_aliases: vec![(
            "codex".to_string(),
            vec![("codex-latest".to_string(), "gpt-5-codex".to_string())],
        )],
        models: vec![("codex".to_string(), vec!["gpt-5-codex".to_string()])],
        auth_pool,
        ..RuntimeSnapshot::default()
    }
}

fn auth(id: &str, priority: i32, enabled: bool, cooldown_until: Option<&str>) -> AuthRecord {
    AuthRecord {
        id: id.to_string(),
        provider: "codex".to_string(),
        auth_kind: String::new(),
        priority,
        enabled,
        supports_models: vec!["gpt-5-codex".to_string()],
        labels: vec![],
        execution: Default::default(),
        cooldown_until: cooldown_until.map(ToOwned::to_owned),
        ..AuthRecord::default()
    }
}

fn request(model: &str, session: Option<&str>, pinned: Option<&str>) -> PlanRequest {
    PlanRequest {
        requested_model: model.to_string(),
        session_id: session.map(ToOwned::to_owned),
        pinned_auth_id: pinned.map(ToOwned::to_owned),
    }
}

fn obj(members: Vec<(&str, Json)>) -> Json {
    Json::Object(members.into_iter().map(|(k, v)| (k.to_string(), v)).collect())
}

fn s(text: &str) -> Json {
    Json::Str(text.to_string())
}

#[test]
fn fill_first_prefers_highest_priority_and_resolves_alias() {
    let snapshot = snapshot_with_auths(vec![
        auth("auth-low", 10, true, None),
        auth("auth-high-b", 100, true, None),
        auth("auth-high-a", 100, true, None),
    ]);
    let mut router = RouterCore::new();

    let plan = router.plan(&snapshot, request("codex-latest", None, None)).expect("plan");

    assert_eq!(
        plan,
        ExecutionPlan {
            provider: ProviderKind::Codex,
            model: "gpt-5-codex".to_string(),
            auth_id: "auth-high-a".to_string(),
            retry_candidates: vec!["auth-high-b".to_string(), "auth-low".to_string()],
            stickiness_source: StickinessSource::Strategy,
        }
    );
}

#[test]
fn round_robin_only_rotates_inside_highest_priority_layer() {
    let mut snapshot = snapshot_with_auths(vec![
        auth("auth-p100-a", 100, true, None),
        auth("auth-p100-b", 100, true, None),
        auth("auth-p050", 50, true, None),
    ]);
    snapshot.routing.strategy = RoutingStrategy::RoundRobin;
    let mut router = RouterCore::new();

    let first = router.plan(&snapshot, request("gpt-5-codex", None, None)).expect("first");
    let second = router.plan(&snapshot, request("gpt-5-codex", None, None)).expect("second");

    assert_eq!(first.auth_id, "auth-p100-a");
    assert_eq!(second.auth_id, "auth-p100-b");
    assert_eq!(first.retry_candidates, vec!["auth-p100-b".to_string(), "auth-p050".to_string()]);
    assert_eq!(second.retry_candidates, vec!["auth-p100-a".to_string(), "auth-p050".to_string()]);
}

#[test]
fn session_affinity_reuses_previous_auth_when_available() {
    let mut snapshot = snapshot_with_auths(vec![auth("auth-a", 100, true, None), auth("auth-b", 100, true, None)]);
    snapshot.routing.strategy = RoutingStrategy::RoundRobin;
    let mut router = RouterCore::new();

    let first = router.plan(&snapshot, request("gpt-5-codex", Some("session-1"), None)).expect("first");
    let second = router.plan(&snapshot, request("gpt-5-codex", Some("session-1"), None)).expect("second");

    assert_eq!(first.auth_id, "auth-a");
    assert_eq!(second.auth_id, "auth-a");
    assert_eq!(second.stickiness_source, StickinessSource::SessionAffinity);
}

#[test]
fn session_affinity_rebinds_when_cached_auth_is_unavailable() {
    let snapshot = snapshot_with_auths(vec![auth("auth-a", 100, true, None), auth("auth-b", 100, true, None)]);
    let mut router = RouterCore::new();

    let first = router.plan(&snapshot, request("gpt-5-codex", Some("session-1"), None)).expect("first");
    assert_eq!(first.auth_id, "auth-a");

    let degraded_snapshot = snapshot_with_auths(vec![
        auth("auth-a", 100, true, Some("2999-01-01T00:00:00Z")),
        auth("auth-b", 100, true, None),
    ]);

    let second = router
        .plan(&degraded_snapshot, request("gpt-5-codex", Some("session-1"), None))
        .expect("second");

    assert_eq!(second.auth_id, "auth-b");
    assert_eq!(second.stickiness_source, StickinessSource::ReboundSessionAffinity);
}

#[test]
fn pinned_auth_overrides_strategy_and_affinity() {
    let mut snapshot = snapshot_with_auths(vec![auth("auth-a", 100, true, None), auth("auth-b", 100, true, None)]);
    snapshot.routing.strategy = RoutingStrategy::RoundRobin;
    let mut router = RouterCore::new();

    let plan = router
        .plan(&snapshot, request("gpt-5-codex", Some("session-1"), Some("auth-b")))
        .expect("plan");

    assert_eq!(plan.auth_id, "auth-b");
    assert_eq!(plan.stickiness_source, StickinessSource::PinnedAuth);
}

#[test]
fn codex_metadata_extractors_follow_expected_fields() {
    let metadata = obj(vec![
        (
            "pinned_auth_id",
            s("auth-b"),
        ),
        (
            "user_id",
            s("{\"device_id\":\"device-a\",\"account_uuid\":\"\",\"session_id\":\"session-7\"}"),
        ),
    ]);

    assert_eq!(extract_codex_session_id(Some(&metadata)).as_deref(), Some("codex:session-7"));
    assert_eq!(extract_pinned_auth_id(Some(&metadata)).as_deref(), Some("auth-b"));
}

#[test]
fn session_id_falls_back_to_metadata_session_id() {
    let metadata = obj(vec![("session_id", s("  sess-9 ")), ("user_id", s("plain-user"))]);
    assert_eq!(extract_codex_session_id(Some(&metadata)).as_deref(), Some("codex:sess-9"));

    let unparsable = obj(vec![("session_id", s("sess-1")), ("user_id", s("  {not json"))]);
    assert_eq!(extract_codex_session_id(Some(&unparsable)).as_deref(), Some("codex:sess-1"));

    let without_inner = obj(vec![("session_id", s("sess-2")), ("user_id", s("{\"device_id\":\"d\"}"))]);
    assert_eq!(extract_codex_session_id(Some(&without_inner)).as_deref(), Some("codex:sess-2"));
}

#[test]
fn blank_session_in_user_id_wins_over_metadata_session_id() {
    let metadata = obj(vec![("session_id", s("sess-1")), ("user_id", s("{\"session_id\":\"   \"}"))]);
    assert_eq!(extract_codex_session_id(Some(&metadata)), None);
}

#[test]
fn missing_or_blank_metadata_gives_no_hints() {
    assert_eq!(extract_codex_session_id(None), None);
    assert_eq!(extract_pinned_auth_id(None), None);
    let blank = obj(vec![("pinned_auth_id", s("   ")), ("session_id", Json::Bool(true))]);
    assert_eq!(extract_pinned_auth_id(Some(&blank)), None);
    assert_eq!(extract_codex_session_id(Some(&blank)), None);
    assert_eq!(trim_to_owned(Some("  x  ")).as_deref(), Some("x"));
    assert_eq!(trim_to_owned(Some(" \t ")), None);
    assert_eq!(trim_to_owned(None), None);
}

#[test]
fn plan_errors_name_their_cause() {
    let mut router = RouterCore::new();
    let snapshot = snapshot_with_auths(vec![auth("auth-a", 100, true, None)]);

    let err = router.plan(&snapshot, request("  ", None, None)).expect_err("empty model");
    assert_eq!(err, PlanError::EmptyModel);
    assert_eq!(err.message(), "requested model must not be empty");

    let err = router.plan(&snapshot, request("gpt-4", None, None)).expect_err("unknown model");
    assert_eq!(err.message(), "requested model gpt-4 is not routable for provider codex");

    let err = router.plan(&snapshot, request("gpt-5-codex", None, Some("auth-z"))).expect_err("pin");
    assert_eq!(err.message(), "pinned auth auth-z is unavailable");

    let cooling = snapshot_with_auths(vec![auth("auth-a", 100, true, Some("2999-01-01T00:00:00Z"))]);
    let err = router.plan(&cooling, request("gpt-5-codex", None, None)).expect_err("no auth");
    assert_eq!(err.message(), "no available auth for provider codex and model gpt-5-codex");

    let mut disabled = snapshot_with_auths(vec![auth("auth-a", 100, true, None)]);
    disabled.routes.responses = false;
    let err = router.plan(&disabled, request("gpt-5-codex", None, None)).expect_err("route");
    assert_eq!(err, PlanError::RouteDisabled);

    let mut off = snapshot_with_auths(vec![auth("auth-a", 100, true, None)]);
    off.providers = vec![("codex".to_string(), ProviderConfig { enabled: false })];
    let err = router.plan(&off, request("gpt-5-codex", None, None)).expect_err("provider");
    assert_eq!(err.message(), "provider codex is disabled");
}

#[test]
fn disabled_and_expired_cooldown_auths_are_filtered() {
    let snapshot = snapshot_with_auths(vec![
        auth("auth-off", 200, false, None),
        auth("auth-cooled", 150, true, Some("2000-01-01T00:00:00Z")),
        auth("auth-on", 100, true, None),
    ]);
    let mut router = RouterCore::new();
    let plan = router.plan(&snapshot, request("gpt-5-codex", None, None)).expect("plan");
    assert_eq!(plan.auth_id, "auth-cooled");
    assert_eq!(plan.retry_candidates, vec!["auth-on".to_string()]);
}

#[test]
fn round_robin_cursor_wraps_within_the_layer() {
    let mut snapshot = snapshot_with_auths(vec![
        auth("auth-a", 100, true, None),
        auth("auth-b", 100, true, None),
        auth("auth-c", 10, true, None),
    ]);
    snapshot.routing.strategy = RoutingStrategy::RoundRobin;
    let mut router = RouterCore::new();
    let picks: Vec<String> = (0..4)
        .map(|_| router.plan(&snapshot, request("gpt-5-codex", None, None)).expect("plan").auth_id)
        .collect();
    assert_eq!(picks, vec!["auth-a", "auth-b", "auth-a", "auth-b"]);
}

#[test]
fn session_binding_is_ignored_when_affinity_is_off() {
    let mut snapshot = snapshot_with_auths(vec![auth("auth-a", 100, true, None), auth("auth-b", 100, true, None)]);
    snapshot.routing.strategy = RoutingStrategy::RoundRobin;
    snapshot.routing.session_affinity = false;
    let mut router = RouterCore::new();
    let first = router.plan(&snapshot, request("gpt-5-codex", Some("s"), None)).expect("first");
    let second = router.plan(&snapshot, request("gpt-5-codex", Some("s"), None)).expect("second");
    assert_eq!(first.auth_id, "auth-a");
    assert_eq!(second.auth_id, "auth-b");
    assert_eq!(second.stickiness_source, StickinessSource::Strategy);
}

#[test]
fn session_bindings_lapse_on_the_monotonic_clock_not_the_wall_clock() {
    let mut snapshot = snapshot_with_auths(vec![auth("auth-a", 100, true, None), auth("auth-b", 100, true, None)]);
    snapshot.routing.strategy = RoutingStrategy::RoundRobin;
    snapshot.routing.session_ttl_seconds = 10;
    let mut router = RouterCore::new();
    let wall: i128 = 1_800_000_000_000_000_000;
    let second: i128 = 1_000_000_000;

    let first = router.plan_at(&snapshot, &request("gpt-5-codex", Some("s"), None), wall, 0).expect("first");
    assert_eq!(first.auth_id, "auth-a");
    // The wall clock steps forward by an hour: the binding is still live on the monotonic clock.
    let kept = router
        .plan_at(&snapshot, &request("gpt-5-codex", Some("s"), None), wall + 3600 * second, 5 * second)
        .expect("kept");
    assert_eq!(kept.auth_id, "auth-a");
    assert_eq!(kept.stickiness_source, StickinessSource::SessionAffinity);
    // Ten monotonic seconds after binding it has lapsed, whatever the wall clock says.
    let lapsed = router
        .plan_at(&snapshot, &request("gpt-5-codex", Some("s"), None), wall, 10 * second)
        .expect("lapsed");
    assert_eq!(lapsed.stickiness_source, StickinessSource::ReboundSessionAffinity);

    let a = router.monotonic_now();
    let b = router.monotonic_now();
    assert!(a <= b);
}
