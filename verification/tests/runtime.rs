use cliproxy_data_plane::runtime::{is_ready, timestamp_marker, RuntimeState};
use cliproxy_data_plane::types::{RouteConfig, RuntimeSnapshot, ServiceState};

fn snapshot(version: &str, responses: bool) -> RuntimeSnapshot {
    RuntimeSnapshot {
        version: version.to_string(),
        routes: RouteConfig { responses, chat_completions: false, messages: false },
        ..RuntimeSnapshot::default()
    }
}

#[test]
fn a_new_runtime_is_starting_without_a_snapshot() {
    let state = RuntimeState::new();
    assert!(state.snapshot.is_none());
    assert_eq!(state.metadata.state, ServiceState::Starting);
    assert!(!state.responses_route_enabled());
    let info = state.runtime_info("cliproxy-data-plane", "0.1.0", "127.0.0.1:4100");
    assert_eq!(info.service, "cliproxy-data-plane");
    assert_eq!(info.bind_addr, "127.0.0.1:4100");
    assert!(!is_ready(info.state));
}

#[test]
fn refresh_applies_new_versions_and_keeps_the_snapshot_on_failure() {
    let mut state = RuntimeState::new();
    state.refresh_with_at(Ok(snapshot("v1", true)), timestamp_marker(10));
    assert_eq!(state.metadata.state, ServiceState::Ready);
    assert_eq!(state.current_snapshot_version().as_deref(), Some("v1"));
    assert_eq!(state.metadata.last_refresh_at.as_deref(), Some("10s_since_epoch"));
    assert!(state.responses_route_enabled());

    state.refresh_with_at(Err("fetch failed".to_string()), timestamp_marker(20));
    assert_eq!(state.metadata.state, ServiceState::Degraded);
    assert_eq!(state.metadata.last_error.as_deref(), Some("fetch failed"));
    assert_eq!(state.current_snapshot_version().as_deref(), Some("v1"));

    state.refresh_with_at(Ok(snapshot(" v1 ", false)), timestamp_marker(30));
    assert_eq!(state.metadata.state, ServiceState::Ready);
    assert!(state.metadata.last_error.is_none());
    assert!(state.responses_route_enabled());

    state.refresh_with_at(Ok(snapshot("v2", false)), timestamp_marker(40));
    assert_eq!(state.current_snapshot_version().as_deref(), Some("v2"));
    assert!(!state.responses_route_enabled());
}

#[test]
fn marking_failed_keeps_the_snapshot() {
    let mut state = RuntimeState::new();
    state.apply_snapshot_at(snapshot("v1", true), timestamp_marker(1));
    state.mark_failed_at("boom".to_string(), timestamp_marker(2));
    assert_eq!(state.metadata.state, ServiceState::Failed);
    assert_eq!(state.current_snapshot_version().as_deref(), Some("v1"));
    assert!(is_ready(ServiceState::Ready));
    assert_eq!(timestamp_marker(0), "0s_since_epoch");
}

#[test]
fn refresh_records_the_version_of_the_snapshot_in_use() {
    let mut state = RuntimeState::new();
    state.refresh_with_at(Ok(snapshot("v1", true)), timestamp_marker(10));
    assert_eq!(state.metadata.snapshot_version.as_deref(), Some("v1"));
    state.refresh_with_at(Ok(snapshot(" v1 ", true)), timestamp_marker(20));
    assert_eq!(state.metadata.snapshot_version.as_deref(), Some("v1"));
    state.refresh_with_at(Err("down".to_string()), timestamp_marker(30));
    assert_eq!(state.metadata.snapshot_version.as_deref(), Some("v1"));
    state.refresh_with_at(Ok(snapshot("v2", true)), timestamp_marker(40));
    assert_eq!(state.metadata.snapshot_version.as_deref(), Some("v2"));
}
