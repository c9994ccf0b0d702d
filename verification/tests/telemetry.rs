use cliproxy_data_plane::json::Json;
use serde_json::Value;
use cliproxy_data_plane::telemetry::RequestTelemetry;
use cliproxy_data_plane::types::{
    AuthRecord, ExecutionPlan, ProviderKind, RuntimeSnapshot, StickinessSource, UsageQueueConfig,
};

fn test_snapshot(enabled: bool, backend: &str) -> RuntimeSnapshot {
    RuntimeSnapshot {
        usage_queue: UsageQueueConfig { enabled, backend: backend.to_string(), external: None },
        ..RuntimeSnapshot::default()
    }
}

fn test_plan() -> ExecutionPlan {
    ExecutionPlan {
        provider: ProviderKind::Codex,
        model: "gpt-5-codex".to_string(),
        auth_id: "auth-codex-1".to_string(),
        retry_candidates: Vec::new(),
        stickiness_source: StickinessSource::Strategy,
    }
}

fn test_auth() -> AuthRecord {
    AuthRecord {
        id: "auth-codex-1".to_string(),
        auth_kind: "oauth".to_string(),
        usage_source: "auth-codex-a@example.test".to_string(),
        ..AuthRecord::default()
    }
}

fn observe_success(telemetry: &mut RequestTelemetry) {
    telemetry.observe_response_headers(&vec![("x-upstream-request-id".to_string(), "upstream-1".to_string())]);
    let value = json_of(
        serde_json::from_str("{\"id\":\"resp_1\",\"usage\":{\"input_tokens\":10,\"output_tokens\":20,\"total_tokens\":30}}")
            .expect("json"),
    );
    telemetry.observe_response_json_value(&value);
    telemetry.mark_first_byte(5);
}

#[test]
fn emits_cpa_shaped_usage_queue_payload_for_successful_request() {
    let snapshot = test_snapshot(true, "redis");
    let mut request = RequestTelemetry::new_request("codex-latest", false, Some(&snapshot), Some("req-1".into()), Some("sk-downstream".into()));
    request.bind_execution_plan(&test_plan(), Some(&test_auth()));
    observe_success(&mut request);

    let payload = request.finish(false, 200, "", 0, 12).expect("usage payload");
    assert_eq!(payload.provider, "codex");
    assert_eq!(payload.executor_type, "RustResponsesExecutor");
    assert_eq!(payload.model, "gpt-5-codex");
    assert_eq!(payload.alias, "codex-latest");
    assert_eq!(payload.endpoint, "POST /v1/responses");
    assert_eq!(payload.auth_type, "oauth");
    assert_eq!(payload.auth_index, "auth-codex-1");
    assert_eq!(payload.request_id, "req-1");
    assert_eq!(payload.source, "auth-codex-a@example.test");
    assert_eq!(payload.api_key, "sk-downstream");
    assert_eq!(payload.tokens.total_tokens, 30);
    assert_eq!(payload.fail.status_code, 200);
    assert!(!payload.failed);
    assert_eq!(payload.latency_ms, 12);
    assert_eq!(payload.ttft_ms, 5);
    assert_eq!(payload.timestamp, "1970-01-01T00:00:00Z");
    assert_eq!(
        payload.response_headers,
        vec![("x-upstream-request-id".to_string(), vec!["upstream-1".to_string()])]
    );
}

#[test]
fn does_not_emit_payload_when_usage_queue_backend_is_not_redis() {
    let snapshot = test_snapshot(true, "log");
    let mut request = RequestTelemetry::new_request("codex-latest", false, Some(&snapshot), None, None);
    request.bind_execution_plan(&test_plan(), Some(&test_auth()));
    observe_success(&mut request);
    assert!(request.finish(false, 200, "", 0, 1).is_none());
}

#[test]
fn usage_is_reported_once_and_failures_carry_status_and_body() {
    let snapshot = test_snapshot(true, " Redis ");
    let mut request = RequestTelemetry::new_request("m", true, Some(&snapshot), None, None);
    let payload = request.finish(true, 302, "  upstream broke  ", 0, 1).expect("payload");
    assert!(payload.failed);
    assert_eq!(payload.fail.status_code, 400);
    assert_eq!(payload.fail.body, "upstream broke");
    assert_eq!(payload.provider, "unknown");
    assert_eq!(payload.model, "m");
    assert!(request.finish(false, 200, "", 0, 1).is_none());

    let mut cancelled = RequestTelemetry::new_request("m", true, Some(&snapshot), None, None);
    cancelled.finish_cancelled();
    assert!(cancelled.finish(false, 200, "", 0, 1).is_none());
}

#[test]
fn total_tokens_default_to_input_plus_output_and_sse_frames_feed_usage() {
    let snapshot = test_snapshot(true, "redis");
    let mut request = RequestTelemetry::new_request("m", true, Some(&snapshot), None, None);
    request.observe_sse_frame(
        b"data: {\"type\":\"response.completed\",\"response\":{\"id\":\"resp-9\",\"usage\":{\"input_tokens\":3,\"output_tokens\":4}}}\n\n",
    );
    assert_eq!(request.tokens.total_tokens, 7);
    assert_eq!(request.effective_request_id(), "resp-9");
}

fn json_of(value: Value) -> Json {
    match value {
        Value::Null => Json::Null,
        Value::Bool(b) => Json::Bool(b),
        Value::Number(n) => Json::Number(n.to_string()),
        Value::String(s) => Json::Str(s),
        Value::Array(a) => Json::Array(a.into_iter().map(json_of).collect()),
        Value::Object(o) => Json::Object(o.into_iter().map(|(k, x)| (k, json_of(x))).collect()),
    }
}
