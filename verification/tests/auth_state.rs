use cliproxy_data_plane::auth_state::{
    AuthKey, AuthStateOverlay, ModelKey, RuntimeBlockState, RuntimeCooldown,
};
use cliproxy_data_plane::types::AuthRecord;

const SECOND: i128 = 1_000_000_000;

fn cooling(until: i128) -> RuntimeBlockState {
    RuntimeBlockState::cooling_down(RuntimeCooldown {
        unavailable: true,
        next_retry_after: Some(until),
        ..RuntimeCooldown::default()
    })
}

#[test]
fn clears_expired_entries_on_lookup() {
    let mut overlay = AuthStateOverlay::new();
    let now = time::OffsetDateTime::now_utc().unix_timestamp_nanos();
    overlay.set_auth_failure(AuthKey::new("auth-1").expect("auth key"), cooling(now - SECOND));

    assert!(overlay.auth_blocked_until(&AuthKey::new("auth-1").expect("auth key"), now).is_none());
}

#[test]
fn auth_key_prefers_snapshot_auth_index() {
    let auth = AuthRecord {
        id: "auth-id".to_string(),
        auth_index: "auth-index".to_string(),
        ..AuthRecord::default()
    };

    assert_eq!(AuthKey::from_auth_record(&auth).as_str(), "auth-index");
}

#[test]
fn auth_key_falls_back_to_id_and_refuses_blank() {
    let auth = AuthRecord { id: " auth-id ".to_string(), ..AuthRecord::default() };
    assert_eq!(AuthKey::from_auth_record(&auth).as_str(), "auth-id");
    assert!(AuthKey::new("   ").is_none());
    assert!(AuthKey::try_from_auth_record(&AuthRecord::default()).is_none());
}

#[test]
fn recorded_block_holds_until_its_deadline_and_success_clears_it() {
    let mut overlay = AuthStateOverlay::new();
    let now: i128 = 1_700_000_000 * SECOND;
    let key = AuthKey::new("auth-1").expect("key");
    let model = ModelKey::new(AuthKey::new("auth-1").expect("key"), " gpt-5 ").expect("model key");
    assert_eq!(model.model(), "gpt-5");

    overlay.set_auth_failure(AuthKey::new("auth-1").expect("key"), cooling(now + 60 * SECOND));
    overlay.set_model_failure(model.clone(), cooling(now + 30 * SECOND));
    assert_eq!(overlay.auth_blocked_until(&key, now), Some(now + 60 * SECOND));
    assert_eq!(overlay.model_blocked_until(&model, now), Some(now + 30 * SECOND));
    assert_eq!(overlay.model_blocked_until(&model, now + 30 * SECOND), None);

    overlay.clear_success(&model);
    assert_eq!(overlay.auth_blocked_until(&key, now), None);
    assert_eq!(overlay.model_blocked_until(&model, now), None);
}

#[test]
fn block_without_unavailable_flag_is_not_in_force() {
    let state = RuntimeBlockState::cooling_down(RuntimeCooldown {
        unavailable: false,
        next_retry_after: Some(10 * SECOND),
        ..RuntimeCooldown::default()
    });
    assert!(!state.is_active_at(0));
    assert!(cooling(10 * SECOND).is_active_at(0));
    assert!(!cooling(10 * SECOND).is_active_at(10 * SECOND));
    assert_eq!(cooling(0).cooldown_until_rfc3339(), "1970-01-01T00:00:00Z");
}
