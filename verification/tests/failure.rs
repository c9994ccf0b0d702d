use cliproxy_data_plane::error_events::ErrorScope;
use cliproxy_data_plane::failure::{
    classify_auth_failure_reason, classify_error_code, classify_failure_kind,
    classify_precommit_retry, classify_status_code, classify_upstream_failure,
    extract_json_number, extract_retry_after_ms, is_model_support_error_message,
    should_retry_auth_bound_error, UpstreamFailureKind,
};

#[test]
fn should_retry_auth_bound_error_accepts_codex_quota_exhaustion() {
    let err = "upstream codex error 429: {\"error\":{\"type\":\"usage_limit_reached\",\"message\":\"The usage limit has been reached\"}}";
    assert!(should_retry_auth_bound_error(err));
    let classification = classify_precommit_retry(err);
    assert!(classification.should_retry());
    assert_eq!(classification.reason(), "usage_limit_reached");
}

#[test]
fn should_retry_auth_bound_error_rejects_generic_429() {
    let err = "upstream codex error 429: too many requests";
    assert!(!should_retry_auth_bound_error(err));
    let classification = classify_precommit_retry(err);
    assert!(!classification.should_retry());
    assert_eq!(classification.reason(), "auth_429");
}

#[test]
fn classify_precommit_retry_marks_auth_failures_and_quota_as_retryable() {
    let cases = [
        ("upstream codex error 401: {\"error\":{\"code\":\"invalid_api_key\"}}", "auth_401"),
        ("upstream codex error 403: {\"error\":{\"code\":\"account_deactivated\"}}", "auth_403"),
        (
            "upstream codex error 429: {\"error\":{\"type\":\"usage_limit_reached\",\"message\":\"The usage limit has been reached\"}}",
            "usage_limit_reached",
        ),
    ];

    for (message, reason) in cases {
        let classification = classify_precommit_retry(message);
        assert!(classification.should_retry(), "{message}");
        assert_eq!(classification.reason(), reason, "{message}");
    }
}

#[test]
fn classify_precommit_retry_marks_other_upstream_failures_as_non_retryable() {
    let cases = [
        ("upstream openai error 500: boom", "other"),
        ("upstream codex error 400: invalid_request", "other"),
    ];

    for (message, reason) in cases {
        let classification = classify_precommit_retry(message);
        assert!(!classification.should_retry(), "{message}");
        assert_eq!(classification.reason(), reason, "{message}");
    }
}

#[test]
fn status_code_is_read_from_the_error_prefix() {
    assert_eq!(classify_status_code("upstream codex error 403: nope"), 403);
    assert_eq!(classify_status_code("upstream codex error 502: bad gateway"), 502);
    assert_eq!(classify_status_code("upstream openai error 502: bad gateway"), 0);
    assert_eq!(classify_status_code("connection reset"), 0);
}

#[test]
fn failure_kinds_follow_status_and_body() {
    assert_eq!(
        classify_failure_kind("upstream codex error 404: missing", 404),
        UpstreamFailureKind::NotFound
    );
    assert_eq!(
        classify_failure_kind("upstream codex error 503: busy", 503),
        UpstreamFailureKind::TransientUpstream
    );
    assert_eq!(
        classify_failure_kind("upstream codex error 400: model_not_supported", 400),
        UpstreamFailureKind::ModelNotSupported
    );
    assert!(is_model_support_error_message("The requested model is not supported"));
    assert!(!is_model_support_error_message("plain failure"));
}

#[test]
fn classified_failure_carries_code_and_retry_hint() {
    let message = "upstream codex error 429: {\"error\":{\"type\":\"usage_limit_reached\",\"resets_in_seconds\":30}}";
    let classified = classify_upstream_failure(message);
    assert_eq!(classified.kind, UpstreamFailureKind::UsageLimitReached);
    assert_eq!(classified.status_code, 429);
    assert_eq!(classified.retry_after_ms, extract_retry_after_ms(message));
    assert_eq!(extract_json_number("{\"resets_in_seconds\":30}", "resets_in_seconds"), 30);
    assert_eq!(classify_error_code("upstream codex error 401: x", 401), classified_code(401));
    assert_eq!(classify_auth_failure_reason("upstream codex error 401: bad"), "auth_401");
}

fn classified_code(status: u16) -> String {
    classify_error_code("upstream codex error 401: x", status)
}

#[test]
fn not_found_model_support_and_transient_failures_switch_auth_before_commit() {
    for (message, reason) in [
        ("upstream codex error 404: {\"detail\":\"Not Found\"}", "not_found"),
        ("upstream codex error 400: {\"error\":{\"code\":\"model_not_supported\"}}", "model_not_supported"),
        ("upstream codex error 422: unsupported model", "model_not_supported"),
        ("upstream codex error 503: busy", "transient_upstream"),
        ("upstream codex error 408: timeout", "transient_upstream"),
    ] {
        let classification = classify_precommit_retry(message);
        assert!(classification.should_retry(), "{message}");
        assert_eq!(classification.reason(), reason, "{message}");
    }
}

#[test]
fn status_400_model_not_supported_cools_the_model_down() {
    let c = classify_upstream_failure("upstream codex error 400: {\"error\":{\"code\":\"model_not_supported\"}}");
    assert_eq!(c.status_code, 400);
    assert_eq!(c.kind, UpstreamFailureKind::ModelNotSupported);
    assert_eq!(c.error_code, "model_not_supported");
    assert_eq!(c.kind.scope(), ErrorScope::Model);
    assert_eq!(c.kind.cooldown_until(0, 0), Some(43_200_000_000_000));
}

#[test]
fn explicit_authentication_errors_are_auth_level() {
    for message in [
        "upstream codex error 400: {\"error\":{\"code\":\"invalid_api_key\"}}",
        "upstream codex error 400: Invalid or expired token",
        "upstream codex error 409: refresh_token_reused",
    ] {
        let c = classify_upstream_failure(message);
        assert_eq!(c.error_code, "authentication_error", "{message}");
        assert_eq!(c.kind, UpstreamFailureKind::Auth401, "{message}");
        assert_eq!(c.kind.scope(), ErrorScope::Auth, "{message}");
        assert_eq!(c.kind.cooldown_until(0, 0), Some(1_800_000_000_000), "{message}");
        assert!(classify_precommit_retry(message).should_retry(), "{message}");
    }
}
