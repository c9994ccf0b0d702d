//! The `/v1/responses` entry: what a request is routed by, the checks that may turn it away
//! before anything goes upstream, and the upstream headers that are passed on downstream.
use vstd::prelude::*;
use vstd::string::*;
use vstd::utf8::encode_utf8;
use crate::auth_state::{pruned, AuthStateOverlay, OverlayModel};
use crate::clock::in_range;
use crate::http_api::HttpError;
use crate::json::JsonV;
use crate::metadata::{
    extract_codex_session_id, extract_pinned_auth_id, opt_json_view, opt_string_view,
    spec_codex_session_id, spec_pinned_auth_id,
};
use crate::protocol::{opt_jv, ResponsesRequest};
use crate::router::{
    error_model, outcome_model, plan_model, spec_plan, PlanError, PlanErrorModel, PlanModel,
    PlanRequest, RouterCore,
};
use crate::routing_policy::{resolve_effective_plan_at, spec_effective_plan};
use crate::runtime::RuntimeState;
use crate::text::{blank, chars_eq, chars_of, lower, lower_vec, trim, trim_bounds, trim_str};
use crate::types::{AuthRecord, ExecutionPlan, RuntimeSnapshot};
use crate::upstream_runtime::{
    header_value_ok, spec_can_execute_for_auth, spec_header_value_ok, UpstreamRuntime,
    UpstreamRuntimeConfig,
};

verus! {

/// What a responses request is routed by: its model, trimmed, and the session and pinned auth
/// that its metadata names.
#[derive(Debug, Clone)]
pub struct ResponsesRequestMetadata {
    pub model: String,
    pub session_id: Option<String>,
    pub pinned_auth_id: Option<String>,
}

pub open spec fn model_required_message() -> Seq<char> {
    "model is required"@
}

/// The routing facts of a request; a blank model is refused.
pub fn request_metadata(request: &ResponsesRequest) -> (r: Result<ResponsesRequestMetadata, String>)
    ensures
        blank(request.model@) ==> (r matches Err(e) && e@ == model_required_message()),
        !blank(request.model@) ==> (r matches Ok(m) && m.model@ == trim(request.model@)
            && opt_string_view(m.session_id) == spec_codex_session_id(opt_jv(request.metadata))
            && opt_string_view(m.pinned_auth_id) == spec_pinned_auth_id(opt_jv(request.metadata))),
{
    let model = trim_str(request.model.as_str());
    if model.as_str().unicode_len() == 0 {
        return Err(String::from_str("model is required"));
    }
    let meta = match &request.metadata {
        Some(m) => Some(m),
        None => None,
    };
    assert(opt_json_view(meta) == opt_jv(request.metadata));
    Ok(
        ResponsesRequestMetadata {
            model,
            session_id: extract_codex_session_id(meta),
            pinned_auth_id: extract_pinned_auth_id(meta),
        },
    )
}

/// The error answer of the responses entry, of type `invalid_request_error`.
pub fn error_response(status: u16, message: &str, code: &str) -> (r: HttpError)
    ensures
        r.status == status,
        r.message@ == message@,
        r.kind@ == "invalid_request_error"@,
        r.code@ == code@,
{
    HttpError::new(status, message, "invalid_request_error", code)
}

/// The status given to a downstream response: the upstream status when it is a valid HTTP status
/// (three digits), else 200.
pub open spec fn spec_response_status(status: u16) -> u16 {
    if 100 <= status < 1000 {
        status
    } else {
        200
    }
}

/// The status given to a downstream response for an upstream status.
pub fn response_status(status: u16) -> (r: u16)
    ensures
        r == spec_response_status(status),
{
    if 100 <= status && status < 1000 {
        status
    } else {
        200
    }
}

/// Headers that belong to one connection and are never passed on.
pub open spec fn hop_by_hop(n: Seq<char>) -> bool {
    ||| n == "connection"@
    ||| n == "keep-alive"@
    ||| n == "proxy-authenticate"@
    ||| n == "proxy-authorization"@
    ||| n == "proxy-connection"@
    ||| n == "te"@
    ||| n == "trailer"@
    ||| n == "transfer-encoding"@
    ||| n == "upgrade"@
}

/// Headers that describe a body, dropped when the body is rewritten.
pub open spec fn entity_header(n: Seq<char>) -> bool {
    ||| n == "content-length"@
    ||| n == "content-encoding"@
    ||| n == "content-range"@
}

/// Whether an upstream header is held back: by its trimmed, lower-cased name.
pub open spec fn spec_skip_header(name: Seq<char>, body_rewritten: bool) -> bool {
    let n = lower(trim(name));
    hop_by_hop(n) || (body_rewritten && entity_header(n))
}

fn eq_lit(v: &Vec<char>, lit: &str) -> (r: bool)
    ensures
        r == (v@ == lit@),
{
    let l = chars_of(lit);
    chars_eq(v.as_slice(), l.as_slice())
}

/// Whether an upstream header is held back from the downstream response.
pub fn should_skip_upstream_header(name: &str, body_rewritten: bool) -> (r: bool)
    ensures
        r == spec_skip_header(name@, body_rewritten),
{
    let n = lower_vec(chars_of(trim_str(name).as_str()).as_slice());
    if eq_lit(&n, "connection") || eq_lit(&n, "keep-alive") || eq_lit(&n, "proxy-authenticate")
        || eq_lit(&n, "proxy-authorization") || eq_lit(&n, "proxy-connection") || eq_lit(&n, "te")
        || eq_lit(&n, "trailer") || eq_lit(&n, "transfer-encoding") || eq_lit(&n, "upgrade") {
        return true;
    }
    body_rewritten && (eq_lit(&n, "content-length") || eq_lit(&n, "content-encoding") || eq_lit(
        &n,
        "content-range",
    ))
}

/// A byte that may stand in a header name: a letter, a digit, or one of ``!#$%&'*+-.^_`|~``.
pub open spec fn token_byte(b: u8) -> bool {
    ||| 48 <= b <= 57
    ||| 65 <= b <= 90
    ||| 97 <= b <= 122
    ||| b == 33 || b == 35 || b == 36 || b == 37 || b == 38 || b == 39
    ||| b == 42 || b == 43 || b == 45 || b == 46
    ||| b == 94 || b == 95 || b == 96 || b == 124 || b == 126
}

/// What `HeaderName::from_bytes` accepts: one to 65535 bytes, each a token byte.
pub open spec fn spec_header_name_ok(b: Seq<u8>) -> bool {
    1 <= b.len() <= 65535 && forall|i: int| 0 <= i < b.len() ==> token_byte(#[trigger] b[i])
}

/// `reqwest::header::HeaderName::from_bytes` on the UTF-8 bytes of the name, which accepts
/// exactly one to 65535 bytes that are all letters, digits or ``!#$%&'*+-.^_`|~``.
#[verifier::external_body]
fn header_name_ok(name: &str) -> (r: bool)
    ensures
        r == spec_header_name_ok(encode_utf8(name@)),
{
    reqwest::header::HeaderName::from_bytes(name.as_bytes()).is_ok()
}

pub open spec fn pairs_view(v: Seq<(String, String)>) -> Seq<(Seq<char>, Seq<char>)> {
    v.map_values(|h: (String, String)| (h.0@, h.1@))
}

/// Whether an upstream header is passed on: not held back, and a valid name and value.
pub open spec fn forwardable(h: (Seq<char>, Seq<char>), body_rewritten: bool) -> bool {
    !spec_skip_header(h.0, body_rewritten) && spec_header_name_ok(encode_utf8(h.0))
        && spec_header_value_ok(h.1)
}

/// The upstream headers that are passed on, in order.
pub open spec fn spec_forwarded(src: Seq<(Seq<char>, Seq<char>)>, body_rewritten: bool) -> Seq<
    (Seq<char>, Seq<char>),
>
    decreases src.len(),
{
    if src.len() == 0 {
        seq![]
    } else {
        let r = spec_forwarded(src.drop_last(), body_rewritten);
        if forwardable(src.last(), body_rewritten) {
            r.push(src.last())
        } else {
            r
        }
    }
}

/// The upstream headers to set on the downstream response: hop-by-hop headers are dropped, and
/// the body's own headers too when the body was rewritten; names and values that HTTP refuses
/// are skipped.
pub fn forwarded_headers(source: &Vec<(String, String)>, body_rewritten: bool) -> (r: Vec<
    (String, String),
>)
    ensures
        pairs_view(r@) == spec_forwarded(pairs_view(source@), body_rewritten),
{
    let mut out: Vec<(String, String)> = Vec::new();
    let mut i: usize = 0;
    while i < source.len()
        invariant
            i <= source@.len(),
            pairs_view(out@) == spec_forwarded(pairs_view(source@.take(i as int)), body_rewritten),
        decreases source@.len() - i,
    {
        let (name, value) = (&source[i].0, &source[i].1);
        proof {
            assert(pairs_view(source@.take(i + 1)).drop_last() =~= pairs_view(
                source@.take(i as int),
            ));
            assert(pairs_view(source@.take(i + 1)).last() == (name@, value@));
        }
        if !should_skip_upstream_header(name.as_str(), body_rewritten) && header_name_ok(
            name.as_str(),
        ) && header_value_ok(value.as_str()) {
            out.push((name.clone(), value.clone()));
            assert(pairs_view(out@) =~= spec_forwarded(
                pairs_view(source@.take(i as int)),
                body_rewritten,
            ).push((name@, value@)));
        }
        i = i + 1;
    }
    assert(source@.take(i as int) =~= source@);
    out
}

/// The text of a routing error.
pub open spec fn plan_error_text(e: PlanErrorModel) -> Seq<char> {
    match e {
        PlanErrorModel::RouteDisabled => "responses route is disabled by runtime snapshot"@,
        PlanErrorModel::ProviderDisabled => "provider codex is disabled"@,
        PlanErrorModel::EmptyModel => "requested model must not be empty"@,
        PlanErrorModel::ModelNotRoutable(m) => "requested model "@ + m
            + " is not routable for provider codex"@,
        PlanErrorModel::NoAvailableAuth(m) => "no available auth for provider codex and model "@
            + m,
        PlanErrorModel::PinnedAuthUnavailable(a) => "pinned auth "@ + a + " is unavailable"@,
    }
}

/// The routing request of a request's metadata.
pub open spec fn plan_request(m: ResponsesRequestMetadata) -> PlanRequest {
    PlanRequest {
        requested_model: m.model,
        session_id: m.session_id,
        pinned_auth_id: m.pinned_auth_id,
    }
}

/// Whether a request can go upstream with the selected auth: some upstream is configured, or
/// the auth carries its own Codex credential.
pub open spec fn spec_upstream_enabled(cfg: UpstreamRuntimeConfig, auth: AuthRecord) -> bool {
    cfg.openai is Some || cfg.codex is Some || spec_can_execute_for_auth(cfg, auth)
}

/// A request that may go upstream: the router's plan, the plan that the auth health leaves, and
/// the selected auth's position in the pool.
#[derive(Debug)]
pub struct Accepted {
    pub routed: ExecutionPlan,
    pub plan: ExecutionPlan,
    pub selected: usize,
}

pub open spec fn route_on(runtime: RuntimeState) -> bool {
    runtime.snapshot matches Some(s) && s.routes.responses
}

/// What happens after the router planned `routed`: the auths that the health overlay leaves
/// decide; none left is a 429, and a selected auth without any usable upstream a 502.
pub open spec fn after_routing(
    o: OverlayModel,
    snap: RuntimeSnapshot,
    cfg: UpstreamRuntimeConfig,
    routed: ExecutionPlan,
    now: i128,
    r: Result<Accepted, HttpError>,
) -> bool {
    let pool = snap.auth_pool@;
    match r {
        Ok(a) => {
            &&& plan_model(a.routed) == plan_model(routed)
            &&& spec_effective_plan(o, pool, routed, now, Some((a.plan, a.selected)))
            &&& a.selected < pool.len()
            &&& spec_upstream_enabled(cfg, pool[a.selected as int])
        },
        Err(e) => {
            ||| (spec_effective_plan(o, pool, routed, now, None) && e.status == 429 && e.message@
                == "all auth candidates are cooling down or unavailable"@ && e.kind@
                == "invalid_request_error"@ && e.code@ == "model_cooldown"@)
            ||| (exists|eff: (ExecutionPlan, usize)|
                spec_effective_plan(o, pool, routed, now, Some(eff)) && eff.1 < pool.len()
                    && !spec_upstream_enabled(cfg, pool[eff.1 as int]) && e.status == 502
                    && e.message@ == "responses upstream is not configured for selected auth"@
                    && e.kind@ == "invalid_request_error"@ && e.code@ == "upstream_unavailable"@)
        },
    }
}

proof fn lemma_plan_error_text(e: PlanError)
    ensures
        e.spec_message() == plan_error_text(error_model(e)),
{
}

/// Decides, at the wall-clock instant `now` and the router's monotonic instant `mono`, whether a
/// request goes upstream: the route must be on, the
/// router must find a plan, the auth health must leave an auth, and that auth must have an
/// upstream. Each refusal is the error answer of the entry.
pub fn screen_request_at(
    runtime: &RuntimeState,
    router: &mut RouterCore,
    upstream: &UpstreamRuntime,
    overlay: &mut AuthStateOverlay,
    meta: &ResponsesRequestMetadata,
    now: i128,
    mono: i128,
) -> (r: Result<Accepted, HttpError>)
    requires
        old(router).wf(),
        old(overlay).wf(),
        in_range(now as int),
        in_range(mono as int),
    ensures
        final(router).wf(),
        final(overlay).wf(),
        final(router).last_instant() == old(router).last_instant(),
        !route_on(*runtime) ==> (r matches Err(e) && e.status == 404 && e.message@
            == "responses route is disabled by runtime snapshot"@ && e.kind@
            == "invalid_request_error"@ && e.code@ == "route_disabled"@ && final(router).model()
            == old(router).model() && final(overlay).model_view() == old(overlay).model_view()),
        route_on(*runtime) ==> ({
            let snap = runtime.snapshot->0;
            let (po, st) = spec_plan(old(router).model(), snap, plan_request(*meta), now, mono);
            &&& final(router).model() == st
            &&& final(overlay).model_view() == old(overlay).model_view()
                || final(overlay).model_view() == pruned(old(overlay).model_view(), now)
            &&& po matches Err(pe) ==> (r matches Err(e) && e.status == 503 && e.message@
                == plan_error_text(pe) && e.kind@ == "invalid_request_error"@ && e.code@
                == "routing_unavailable"@ && final(overlay).model_view() == old(
                overlay,
            ).model_view())
            &&& po matches Ok(pm) ==> exists|p: ExecutionPlan|
                plan_model(p) == pm && #[trigger] after_routing(
                    old(overlay).model_view(),
                    snap,
                    upstream.spec_config(),
                    p,
                    now,
                    r,
                )
        }),
{
    if !runtime.responses_route_enabled() {
        return Err(
            error_response(404, "responses route is disabled by runtime snapshot", "route_disabled"),
        );
    }
    let snapshot = match &runtime.snapshot {
        Some(s) => s,
        None => {
            return Err(error_response(404, "responses route is disabled by runtime snapshot", "route_disabled"));
        },
    };
    let request = PlanRequest {
        requested_model: meta.model.clone(),
        session_id: meta.session_id.clone(),
        pinned_auth_id: meta.pinned_auth_id.clone(),
    };
    assert(request == plan_request(*meta));
    let routed = match router.plan_at(snapshot, &request, now, mono) {
        Ok(p) => p,
        Err(e) => {
            proof {
                lemma_plan_error_text(e);
            }
            let m = e.message();
            return Err(error_response(503, m.as_str(), "routing_unavailable"));
        },
    };
    let ghost o = overlay.model_view();
    let (plan, selected) = match resolve_effective_plan_at(snapshot, &routed, overlay, now) {
        Some(resolved) => resolved,
        None => {
            let r = Err(
                error_response(
                    429,
                    "all auth candidates are cooling down or unavailable",
                    "model_cooldown",
                ),
            );
            assert(after_routing(o, *snapshot, upstream.spec_config(), routed, now, r));
            return r;
        },
    };
    let auth = &snapshot.auth_pool[selected];
    if !(upstream.is_enabled() || upstream.can_execute_for_auth(auth)) {
        let r = Err(
            error_response(
                502,
                "responses upstream is not configured for selected auth",
                "upstream_unavailable",
            ),
        );
        assert(spec_effective_plan(o, snapshot.auth_pool@, routed, now, Some((plan, selected))));
        assert(after_routing(o, *snapshot, upstream.spec_config(), routed, now, r));
        return r;
    }
    let r = Ok(Accepted { routed, plan, selected });
    assert(after_routing(o, *snapshot, upstream.spec_config(), routed, now, r));
    r
}

/// Decides whether a request goes upstream, at the current instant.
pub fn screen_request(
    runtime: &RuntimeState,
    router: &mut RouterCore,
    upstream: &UpstreamRuntime,
    overlay: &mut AuthStateOverlay,
    meta: &ResponsesRequestMetadata,
) -> (r: Result<Accepted, HttpError>)
    requires
        old(router).wf(),
        old(overlay).wf(),
    ensures
        final(router).wf(),
        final(overlay).wf(),
        old(router).last_instant() <= final(router).last_instant(),
        !route_on(*runtime) ==> (r matches Err(e) && e.status == 404 && e.code@ == "route_disabled"@),
        route_on(*runtime) ==> exists|now: i128|
            in_range(now as int) && {
                let snap = runtime.snapshot->0;
                let (po, st) = spec_plan(
                    old(router).model(),
                    snap,
                    plan_request(*meta),
                    now,
                    final(router).last_instant(),
                );
                &&& final(router).model() == st
                &&& po matches Err(pe) ==> (r matches Err(e) && e.status == 503 && e.message@
                    == plan_error_text(pe) && e.code@ == "routing_unavailable"@)
                &&& po matches Ok(pm) ==> exists|p: ExecutionPlan|
                    plan_model(p) == pm && #[trigger] after_routing(
                        old(overlay).model_view(),
                        snap,
                        upstream.spec_config(),
                        p,
                        now,
                        r,
                    )
            },
{
    let now = crate::clock::now();
    let mono = router.monotonic_now();
    screen_request_at(runtime, router, upstream, overlay, meta, now, mono)
}

} // verus!
