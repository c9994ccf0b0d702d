//! What a request outcome does to the overlay: a success clears the auth and its model, a
//! failure with a cooldown blocks the auth or the model, and every failure yields an `errors`
//! event.
use vstd::prelude::*;
use vstd::string::*;
use crate::auth_state::{
    spec_record_key, AuthKey, AuthStateOverlay, ModelKey, OverlayModel, RuntimeBlockState,
    RuntimeCooldown,
};
use crate::clock::{format_rfc3339, in_range, spec_rfc3339_text};
use crate::error_events::{ErrorEvent, ErrorScope};
use crate::failure::{ClassifiedUpstreamFailure, UpstreamFailureKind};
use crate::text::{blank, trim};
use crate::types::AuthRecord;

verus! {

/// A failure tied to the auth and model it happened on.
#[derive(Debug)]
pub struct RecordedFailure {
    pub auth_key: AuthKey,
    pub model_key: ModelKey,
    pub request_id: String,
    pub classification: ClassifiedUpstreamFailure,
    pub cooldown_until: Option<i128>,
}

/// `f` is the failure that `classification` makes of `auth` and `model` at `now`.
pub open spec fn made_failure(
    f: RecordedFailure,
    auth: AuthRecord,
    model: Seq<char>,
    request_id: String,
    classification: ClassifiedUpstreamFailure,
    now: i128,
) -> bool {
    &&& f.auth_key@ == spec_record_key(auth)->0
    &&& f.model_key@ == (spec_record_key(auth)->0, trim(model))
    &&& f.request_id == request_id
    &&& f.classification == classification
    &&& f.cooldown_until == match classification.kind.spec_cooldown_until(
        now as int,
        classification.retry_after_ms,
    ) {
        Some(t) => Some(t as i128),
        None => None,
    }
}

/// Whether a failure can be tied to the auth and model: the auth has a key and the model is not
/// blank.
pub open spec fn recordable(auth: AuthRecord, model: Seq<char>) -> bool {
    spec_record_key(auth) is Some && !blank(model)
}

impl RecordedFailure {
    /// Ties a classified failure to an auth and model seen at `now`; `None` when the auth has
    /// no key or the model is blank.
    pub fn new_at(
        auth: &AuthRecord,
        model: &str,
        request_id: String,
        classification: ClassifiedUpstreamFailure,
        now: i128,
    ) -> (r: Option<Self>)
        requires
            in_range(now as int),
        ensures
            r is Some <==> recordable(*auth, model@),
            r matches Some(f) ==> made_failure(f, *auth, model@, request_id, classification, now),
    {
        let auth_key = match AuthKey::try_from_auth_record(auth) {
            Some(k) => k,
            None => {
                return None;
            },
        };
        let model_key = match ModelKey::new(auth_key.duplicate(), model) {
            Some(k) => k,
            None => {
                return None;
            },
        };
        let cooldown_until = classification.kind.cooldown_until(
            now,
            classification.retry_after_ms,
        );
        Some(RecordedFailure { auth_key, model_key, request_id, classification, cooldown_until })
    }

    /// Ties a classified failure to an auth and model at the current instant.
    pub fn new(
        auth: &AuthRecord,
        model: &str,
        request_id: String,
        classification: ClassifiedUpstreamFailure,
    ) -> (r: Option<Self>)
        ensures
            r is Some <==> recordable(*auth, model@),
    {
        let now = crate::clock::now();
        Self::new_at(auth, model, request_id, classification, now)
    }
}

/// A success clears the block on the auth and on its model.
pub fn record_success(overlay: &mut AuthStateOverlay, auth: &AuthRecord, model: &str)
    requires
        old(overlay).wf(),
    ensures
        final(overlay).wf(),
        (spec_record_key(*auth) is None || blank(model@)) ==> final(overlay).model_view()
            == old(overlay).model_view(),
        (spec_record_key(*auth) is Some && !blank(model@)) ==> {
            &&& final(overlay).model_view().auth == old(overlay).model_view().auth.remove(
                spec_record_key(*auth)->0,
            )
            &&& final(overlay).model_view().model == old(overlay).model_view().model.remove(
                (spec_record_key(*auth)->0, trim(model@)),
            )
        },
{
    let auth_key = match AuthKey::try_from_auth_record(auth) {
        Some(k) => k,
        None => {
            return ;
        },
    };
    let model_key = match ModelKey::new(auth_key, model) {
        Some(k) => k,
        None => {
            return ;
        },
    };
    overlay.clear_success(&model_key);
}

/// The block that a failure puts in place, seen at `now`, with a retry deadline `until`.
pub open spec fn is_failure_block(c: RuntimeCooldown, f: RecordedFailure, until: i128, now: i128) -> bool {
    let kind = f.classification.kind;
    &&& c.unavailable
    &&& c.status_message@ == kind.spec_reason()
    &&& c.last_error_code@ == f.classification.error_code@
    &&& c.last_error_message@ == f.classification.message@
    &&& c.next_retry_after == Some(until)
    &&& c.quota_exceeded == (kind == UpstreamFailureKind::UsageLimitReached)
    &&& c.quota_reason@ == if kind == UpstreamFailureKind::UsageLimitReached {
        kind.spec_reason()
    } else {
        Seq::<char>::empty()
    }
    &&& c.updated_at == Some(now)
}

/// What recording `f` at `now` does to the overlay: with a cooldown, it blocks the auth (a
/// credential failure) or the model of the auth (any other), and changes nothing else.
pub open spec fn spec_failure_overlay(o: OverlayModel, n: OverlayModel, f: RecordedFailure, now: i128) -> bool {
    match f.cooldown_until {
        None => n == o,
        Some(until) => match f.classification.kind.spec_scope() {
            ErrorScope::Auth => {
                &&& n.model == o.model
                &&& n.auth == o.auth.insert(f.auth_key@, n.auth[f.auth_key@])
                &&& is_failure_block(n.auth[f.auth_key@].cooldown(), f, until, now)
            },
            ErrorScope::Model => {
                &&& n.auth == o.auth
                &&& n.model == o.model.insert(f.model_key@, n.model[f.model_key@])
                &&& is_failure_block(n.model[f.model_key@].cooldown(), f, until, now)
            },
        },
    }
}

/// The `errors` event that describes `f`, recorded at `now`.
pub open spec fn spec_failure_event(e: ErrorEvent, f: RecordedFailure, now: i128) -> bool {
    &&& e.request_id == f.request_id
    &&& e.provider@ == "codex"@
    &&& e.model@ == f.model_key@.1
    &&& e.auth_index@ == f.auth_key@
    &&& e.scope == f.classification.kind.spec_scope()
    &&& e.status_code == f.classification.status_code
    &&& e.error_code == f.classification.error_code
    &&& e.message == f.classification.message
    &&& e.retry_after_ms == f.classification.retry_after_ms
    &&& e.quota_exceeded == (f.classification.kind == UpstreamFailureKind::UsageLimitReached)
    &&& e.reason@ == f.classification.kind.spec_reason()
    &&& match spec_rfc3339_text(now) {
        Some(t) => e.timestamp@ == t,
        None => e.timestamp@ == "1970-01-01T00:00:00Z"@,
    }
    &&& match f.cooldown_until {
        Some(until) => match spec_rfc3339_text(until) {
            Some(t) => e.cooldown_until@ == t,
            None => e.cooldown_until@ == Seq::<char>::empty(),
        },
        None => e.cooldown_until@ == Seq::<char>::empty(),
    }
}

/// Records a failure: blocks the auth or the model when the failure has a cooldown, and returns
/// the `errors` event describing it.
pub fn record_failure(overlay: &mut AuthStateOverlay, failure: RecordedFailure, now: i128) -> (r:
    ErrorEvent)
    requires
        old(overlay).wf(),
    ensures
        final(overlay).wf(),
        spec_failure_overlay(old(overlay).model_view(), final(overlay).model_view(), failure, now),
        spec_failure_event(r, failure, now),
{
    let kind = failure.classification.kind;
    let quota = kind.quota_exceeded();
    if let Some(until) = failure.cooldown_until {
        let state = RuntimeBlockState::cooling_down(
            RuntimeCooldown {
                unavailable: true,
                status_message: String::from_str(kind.reason()),
                last_error_code: failure.classification.error_code.clone(),
                last_error_message: failure.classification.message.clone(),
                next_retry_after: Some(until),
                quota_exceeded: quota,
                quota_reason: if quota {
                    String::from_str(kind.reason())
                } else {
                    String::new()
                },
                updated_at: Some(now),
            },
        );
        match kind.scope() {
            ErrorScope::Auth => overlay.set_auth_failure(failure.auth_key.duplicate(), state),
            ErrorScope::Model => overlay.set_model_failure(failure.model_key.duplicate(), state),
        }
    }
    let timestamp = match format_rfc3339(now) {
        Some(t) => t,
        None => String::from_str("1970-01-01T00:00:00Z"),
    };
    let cooldown_until = match failure.cooldown_until {
        Some(until) => match format_rfc3339(until) {
            Some(t) => t,
            None => String::new(),
        },
        None => String::new(),
    };
    let reason = String::from_str(kind.reason());
    ErrorEvent {
        timestamp,
        request_id: failure.request_id,
        provider: String::from_str("codex"),
        model: String::from_str(failure.model_key.model()),
        auth_index: String::from_str(failure.auth_key.as_str()),
        scope: kind.scope(),
        status_code: failure.classification.status_code,
        error_code: failure.classification.error_code,
        message: failure.classification.message,
        retry_after_ms: failure.classification.retry_after_ms,
        cooldown_until,
        quota_exceeded: quota,
        reason,
    }
}

} // verus!
