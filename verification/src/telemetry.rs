//! Request telemetry: what a responses request learns as it runs (its plan, the upstream reply
//! headers, token usage, time to first byte), and the usage record it emits once, when it
//! finishes, if the snapshot routes usage to the Redis-compatible queue.
use vstd::prelude::*;
use crate::clock::{format_rfc3339, in_range, spec_rfc3339_text};
use crate::failure::{provider_name, spec_provider_name};
use crate::json::{get, has_member, lemma_member_pos, member_pos, parse_json, spec_json_parse, Json, JsonV};
use crate::protocol::{is_digit_char, json_u64, text_digits_value};
use crate::sse::{spec_data_payload, sse_data_payload};
use crate::text::{chars_of, digit_char, digits_of, eq_ignore_ascii_case, lower, trim, trim_str};
use crate::types::{AuthRecord, ExecutionPlan, RuntimeSnapshot};

verus! {

/// Token counts of a request.
#[derive(Debug, Clone, Copy, PartialEq, Eq, Default)]
pub struct UsageQueueTokens {
    pub input_tokens: u64,
    pub output_tokens: u64,
    pub reasoning_tokens: u64,
    pub cached_tokens: u64,
    pub cache_read_tokens: u64,
    pub cache_creation_tokens: u64,
    pub total_tokens: u64,
}

/// The failure summary of a usage record.
#[derive(Debug, Clone, Default)]
pub struct UsageQueueFail {
    pub status_code: u16,
    pub body: String,
}

/// One usage record, in the shape the usage consumer reads.
#[derive(Debug, Clone, Default)]
pub struct UsageQueuePayload {
    pub timestamp: String,
    pub latency_ms: u64,
    pub ttft_ms: u64,
    pub source: String,
    pub auth_index: String,
    pub tokens: UsageQueueTokens,
    pub failed: bool,
    pub fail: UsageQueueFail,
    pub response_headers: Vec<(String, Vec<String>)>,
    pub provider: String,
    pub executor_type: String,
    pub model: String,
    pub alias: String,
    pub endpoint: String,
    pub auth_type: String,
    pub api_key: String,
    pub request_id: String,
    pub reasoning_effort: String,
    pub service_tier: String,
}

pub open spec fn spec_token(usage: JsonV, key: Seq<char>) -> u64 {
    match json_u64(get(usage, key)) {
        Some(n) => n,
        None => 0,
    }
}

/// The token counts of a `usage` object; the total defaults to input plus output (saturating).
pub open spec fn spec_tokens(usage: JsonV) -> UsageQueueTokens {
    let input = spec_token(usage, "input_tokens"@);
    let output = spec_token(usage, "output_tokens"@);
    UsageQueueTokens {
        input_tokens: input,
        output_tokens: output,
        reasoning_tokens: spec_token(usage, "reasoning_tokens"@),
        cached_tokens: spec_token(usage, "cached_tokens"@),
        cache_read_tokens: spec_token(usage, "cache_read_tokens"@),
        cache_creation_tokens: spec_token(usage, "cache_creation_tokens"@),
        total_tokens: match json_u64(get(usage, "total_tokens"@)) {
            Some(n) => n,
            None => if input + output > u64::MAX {
                u64::MAX
            } else {
                (input + output) as u64
            },
        },
    }
}

/// Whether the snapshot sends usage records to the Redis-compatible queue.
pub open spec fn spec_usage_queue_enabled(snapshot: Option<RuntimeSnapshot>) -> bool {
    match snapshot {
        Some(s) => s.usage_queue.enabled && lower(trim(s.usage_queue.backend@)) == "redis"@,
        None => false,
    }
}

/// A call that ends a request's telemetry: finishing it (failed or not, with the status and
/// body of the answer), or cancelling it because the client went away.
pub enum FinishCall {
    Done { failed: bool, status_code: u16, body: Seq<char> },
    Cancel,
}

/// What a usage record says of how the request ended: whether it failed, the status, the body.
pub type FinishRecord = (bool, u16, Seq<char>);

/// The ending a finish call records: a failure with its status (at least 400) and trimmed
/// body, or a success with status 200 and no body.
pub open spec fn finish_record(failed: bool, status_code: u16, body: Seq<char>) -> FinishRecord {
    if failed {
        (true, if status_code > 400 {
            status_code
        } else {
            400
        }, trim(body))
    } else {
        (false, 200, Seq::empty())
    }
}

/// What one call does: the telemetry is finished afterwards, and a record is emitted only by a
/// finish on an unfinished telemetry whose usage goes to the queue.
pub open spec fn spec_finish_step(finished: bool, enabled: bool, call: FinishCall) -> (
    bool,
    Option<FinishRecord>,
) {
    match call {
        FinishCall::Cancel => (true, None),
        FinishCall::Done { failed, status_code, body } => (
            true,
            if !finished && enabled {
                Some(finish_record(failed, status_code, body))
            } else {
                None
            },
        ),
    }
}

/// The records a sequence of calls emits, in order.
pub open spec fn spec_finish_run(finished: bool, enabled: bool, calls: Seq<FinishCall>) -> Seq<
    FinishRecord,
>
    decreases calls.len(),
{
    if calls.len() == 0 {
        Seq::empty()
    } else {
        let (f, out) = spec_finish_step(finished, enabled, calls[0]);
        (match out {
            Some(x) => seq![x],
            None => Seq::empty(),
        }) + spec_finish_run(f, enabled, calls.drop_first())
    }
}

/// The ending a returned usage record states.
pub open spec fn record_of(r: Option<UsageQueuePayload>) -> Option<FinishRecord> {
    match r {
        Some(p) => Some((p.failed, p.fail.status_code, p.fail.body@)),
        None => None,
    }
}

proof fn lemma_finished_run_is_silent(enabled: bool, calls: Seq<FinishCall>)
    ensures
        spec_finish_run(true, enabled, calls) == Seq::<FinishRecord>::empty(),
    decreases calls.len(),
{
    if calls.len() > 0 {
        lemma_finished_run_is_silent(enabled, calls.drop_first());
        assert(spec_finish_run(true, enabled, calls) =~= Seq::<FinishRecord>::empty());
    }
}

/// A request's usage is recorded at most once: of any sequence of finish and cancel calls on a
/// new request's telemetry, only the first can emit a record; it does exactly when usage goes
/// to the queue and that first call is not a cancel, and the record states how that call
/// ended the request.
pub proof fn law_usage_recorded_at_most_once(enabled: bool, calls: Seq<FinishCall>)
    ensures
        spec_finish_run(false, enabled, calls).len() <= 1,
        spec_finish_run(false, enabled, calls).len() == 1 <==> (enabled && calls.len() > 0
            && calls[0] is Done),
        spec_finish_run(false, enabled, calls).len() == 1 ==> (calls[0] matches FinishCall::Done {
            failed,
            status_code,
            body,
        } ==> spec_finish_run(false, enabled, calls)[0] == finish_record(failed, status_code, body)),
{
    if calls.len() > 0 {
        lemma_finished_run_is_silent(enabled, calls.drop_first());
        let rest = spec_finish_run(true, enabled, calls.drop_first());
        assert(rest.len() == 0);
        match calls[0] {
            FinishCall::Cancel => {
                assert(spec_finish_run(false, enabled, calls) =~= rest);
            },
            FinishCall::Done { failed, status_code, body } => {
                if enabled {
                    assert(spec_finish_run(false, enabled, calls) =~= seq![
                        finish_record(failed, status_code, body),
                    ]);
                } else {
                    assert(spec_finish_run(false, enabled, calls) =~= rest);
                }
            },
        }
    }
}

/// What a request has learned so far. A request has one telemetry value, which is not cloned,
/// so its usage record can be finished once only; callers that share it share one value.
#[derive(Debug)]
pub struct RequestTelemetry {
    pub request_model: String,
    pub usage_queue_enabled: bool,
    pub provider: String,
    pub resolved_model: String,
    pub auth_id: String,
    pub auth_type: String,
    pub request_id: String,
    pub response_id: String,
    pub api_key: String,
    pub source: String,
    pub response_headers: Vec<(String, Vec<String>)>,
    pub tokens: UsageQueueTokens,
    pub first_byte_ms: u64,
    pub first_byte_recorded: bool,
    pub finished: bool,
}

fn copy_text(s: &String) -> (r: String)
    ensures
        r@ == s@,
{
    s.clone()
}

impl RequestTelemetry {
    /// The telemetry of a new request.
    pub fn new_request(
        request_model: &str,
        stream: bool,
        snapshot: Option<&RuntimeSnapshot>,
        request_id: Option<String>,
        api_key: Option<String>,
    ) -> (r: Self)
        ensures
            r.request_model@ == request_model@,
            r.usage_queue_enabled == spec_usage_queue_enabled(
                match snapshot {
                    Some(s) => Some(*s),
                    None => None,
                },
            ),
            r.request_id@ == match request_id {
                Some(id) => id@,
                None => Seq::<char>::empty(),
            },
            r.api_key@ == match api_key {
                Some(k) => k@,
                None => Seq::<char>::empty(),
            },
            r.source@.len() == 0,
            r.provider@.len() == 0,
            r.resolved_model@.len() == 0,
            r.auth_id@.len() == 0,
            r.auth_type@.len() == 0,
            r.response_id@.len() == 0,
            r.response_headers@.len() == 0,
            r.tokens == UsageQueueTokens::default_spec(),
            r.first_byte_ms == 0,
            !r.first_byte_recorded,
            !r.finished,
    {
        proof {
            reveal_strlit("redis");
            assert(lower("redis"@) =~= "redis"@);
        }
        let enabled = match snapshot {
            Some(s) => {
                let b = trim_str(s.usage_queue.backend.as_str());
                s.usage_queue.enabled && eq_ignore_ascii_case(
                    chars_of(b.as_str()).as_slice(),
                    chars_of("redis").as_slice(),
                )
            },
            None => false,
        };
        RequestTelemetry {
            request_model: String::from_str(request_model),
            usage_queue_enabled: enabled,
            provider: String::new(),
            resolved_model: String::new(),
            auth_id: String::new(),
            auth_type: String::new(),
            request_id: match request_id {
                Some(id) => id,
                None => String::new(),
            },
            response_id: String::new(),
            api_key: match api_key {
                Some(k) => k,
                None => String::new(),
            },
            source: String::new(),
            response_headers: Vec::new(),
            tokens: UsageQueueTokens::zero(),
            first_byte_ms: 0,
            first_byte_recorded: false,
            finished: false,
        }
    }

    /// Records the plan the request runs on, and the kind of the selected auth.
    pub fn bind_execution_plan(&mut self, plan: &ExecutionPlan, selected_auth: Option<&AuthRecord>)
        ensures
            final(self).provider@ == spec_provider_name(plan.provider),
            final(self).resolved_model@ == plan.model@,
            final(self).auth_id@ == plan.auth_id@,
            final(self).auth_type@ == match selected_auth {
                Some(a) => a.auth_kind@,
                None => old(self).auth_type@,
            },
            final(self).source@ == match selected_auth {
                Some(a) => a.usage_source@,
                None => old(self).source@,
            },
            final(self).api_key == old(self).api_key,
            final(self).request_model == old(self).request_model,
            final(self).request_id == old(self).request_id,
            final(self).response_id == old(self).response_id,
            final(self).tokens == old(self).tokens,
            final(self).finished == old(self).finished,
            final(self).usage_queue_enabled == old(self).usage_queue_enabled,
            final(self).usage_queue_enabled == old(self).usage_queue_enabled,
    {
        self.provider = String::from_str(provider_name(plan.provider));
        self.resolved_model = plan.model.clone();
        self.auth_id = plan.auth_id.clone();
        if let Some(auth) = selected_auth {
            self.auth_type = auth.auth_kind.clone();
            self.source = auth.usage_source.clone();
        }
    }

    /// Marks that bytes came back, `elapsed_ms` after the request started. The time is taken at
    /// every call, the last one counting.
    pub fn mark_first_byte(&mut self, elapsed_ms: u64)
        ensures
            final(self).first_byte_recorded,
            final(self).first_byte_ms == elapsed_ms,
            final(self).tokens == old(self).tokens,
            final(self).finished == old(self).finished,
            final(self).usage_queue_enabled == old(self).usage_queue_enabled,
    {
        self.first_byte_recorded = true;
        self.first_byte_ms = elapsed_ms;
    }

    /// Records the upstream reply headers, one value per name.
    pub fn observe_response_headers(&mut self, headers: &Vec<(String, String)>)
        ensures
            final(self).response_headers@.len() == headers@.len(),
            forall|i: int|
                0 <= i < headers@.len() ==> {
                    &&& (#[trigger] final(self).response_headers@[i]).0@ == headers@[i].0@
                    &&& final(self).response_headers@[i].1@.len() == 1
                    &&& final(self).response_headers@[i].1@[0]@ == headers@[i].1@
                },
            final(self).tokens == old(self).tokens,
            final(self).finished == old(self).finished,
            final(self).usage_queue_enabled == old(self).usage_queue_enabled,
    {
        let mut out: Vec<(String, Vec<String>)> = Vec::new();
        let mut i: usize = 0;
        while i < headers.len()
            invariant
                i <= headers@.len(),
                out@.len() == i,
                forall|k: int|
                    0 <= k < i ==> {
                        &&& (#[trigger] out@[k]).0@ == headers@[k].0@
                        &&& out@[k].1@.len() == 1
                        &&& out@[k].1@[0]@ == headers@[k].1@
                    },
            decreases headers@.len() - i,
        {
            let mut values: Vec<String> = Vec::new();
            values.push(copy_text(&headers[i].1));
            out.push((copy_text(&headers[i].0), values));
            i = i + 1;
        }
        self.response_headers = out;
    }

    /// Records the token counts of a `usage` value, if there is one.
    pub fn observe_usage_value(&mut self, usage: Option<&Json>)
        ensures
            final(self).tokens == match usage {
                Some(u) => spec_tokens(u.jv()),
                None => old(self).tokens,
            },
            final(self).response_id == old(self).response_id,
            final(self).finished == old(self).finished,
            final(self).usage_queue_enabled == old(self).usage_queue_enabled,
    {
        let u = match usage {
            Some(u) => u,
            None => {
                return ;
            },
        };
        let input = token_of(u, "input_tokens");
        let output = token_of(u, "output_tokens");
        let total = match crate::protocol::number_u64(u.get("total_tokens")) {
            Some(n) => n,
            None => input.saturating_add(output),
        };
        self.tokens = UsageQueueTokens {
            input_tokens: input,
            output_tokens: output,
            reasoning_tokens: token_of(u, "reasoning_tokens"),
            cached_tokens: token_of(u, "cached_tokens"),
            cache_read_tokens: token_of(u, "cache_read_tokens"),
            cache_creation_tokens: token_of(u, "cache_creation_tokens"),
            total_tokens: total,
        };
    }

    /// Records the response id and usage of a response JSON value.
    pub fn observe_response_json_value(&mut self, value: &Json)
        ensures
            final(self).response_id@ == match crate::json::as_str(get(value.jv(), "id"@)) {
                Some(id) => id,
                None => old(self).response_id@,
            },
            final(self).tokens == match get(value.jv(), "usage"@) {
                Some(u) => spec_tokens(u),
                None => old(self).tokens,
            },
            final(self).finished == old(self).finished,
            final(self).usage_queue_enabled == old(self).usage_queue_enabled,
    {
        if let Some(id) = value.get("id") {
            if let Some(s) = id.as_str() {
                self.response_id = String::from_str(s);
            }
        }
        self.observe_usage_value(value.get("usage"));
    }

    /// Records what a response body says, when it is JSON.
    pub fn observe_response_json_bytes(&mut self, bytes: &[u8])
        ensures
            match spec_json_parse(bytes@) {
                Some(v) => {
                    &&& final(self).response_id@ == match crate::json::as_str(get(v, "id"@)) {
                        Some(id) => id,
                        None => old(self).response_id@,
                    }
                    &&& final(self).tokens == match get(v, "usage"@) {
                        Some(u) => spec_tokens(u),
                        None => old(self).tokens,
                    }
                },
                None => final(self).response_id == old(self).response_id && final(self).tokens
                    == old(self).tokens,
            },
            final(self).finished == old(self).finished,
            final(self).usage_queue_enabled == old(self).usage_queue_enabled,
    {
        if let Some(value) = parse_json(bytes) {
            self.observe_response_json_value(&value);
        }
    }

    /// Records what a stream frame says: the usage of a `response.usage` event, and the id and
    /// usage of the response of a `response.completed` event.
    pub fn observe_sse_frame(&mut self, frame: &[u8])
        ensures
            final(self).finished == old(self).finished,
            final(self).usage_queue_enabled == old(self).usage_queue_enabled,
            ({
                let v = match spec_data_payload(frame@) {
                    Some(p) => spec_json_parse(p),
                    None => None,
                };
                match v {
                    Some(v) => {
                        let ty = match crate::json::as_str(get(v, "type"@)) {
                            Some(t) => t,
                            None => Seq::empty(),
                        };
                        if ty == "response.usage"@ {
                            final(self).tokens == match get(v, "usage"@) {
                                Some(u) => spec_tokens(u),
                                None => old(self).tokens,
                            } && final(self).response_id == old(self).response_id
                        } else if ty == "response.completed"@ {
                            match get(v, "response"@) {
                                Some(r) => {
                                    &&& final(self).response_id@ == match crate::json::as_str(
                                        get(r, "id"@),
                                    ) {
                                        Some(id) => id,
                                        None => old(self).response_id@,
                                    }
                                    &&& final(self).tokens == match get(r, "usage"@) {
                                        Some(u) => spec_tokens(u),
                                        None => old(self).tokens,
                                    }
                                },
                                None => final(self).tokens == old(self).tokens
                                    && final(self).response_id == old(self).response_id,
                            }
                        } else {
                            final(self).tokens == old(self).tokens && final(self).response_id
                                == old(self).response_id
                        }
                    },
                    None => final(self).tokens == old(self).tokens && final(self).response_id
                        == old(self).response_id,
                }
            }),
    {
        let payload = match sse_data_payload(frame) {
            Some(p) => p,
            None => {
                return ;
            },
        };
        let value = match parse_json(payload.as_slice()) {
            Some(v) => v,
            None => {
                return ;
            },
        };
        let ty = match value.get("type") {
            Some(t) => match t.as_str() {
                Some(s) => String::from_str(s),
                None => String::new(),
            },
            None => String::new(),
        };
        let tv = chars_of(ty.as_str());
        if crate::text::chars_eq(tv.as_slice(), chars_of("response.usage").as_slice()) {
            self.observe_usage_value(value.get("usage"));
        } else if crate::text::chars_eq(tv.as_slice(), chars_of("response.completed").as_slice()) {
            if let Some(response) = value.get("response") {
                self.observe_response_json_value(response);
            }
        }
    }

    /// The provider, `unknown` when none was bound.
    pub fn provider(&self) -> (r: String)
        ensures
            r@ == if self.provider@.len() == 0 {
                "unknown"@
            } else {
                self.provider@
            },
    {
        if chars_of(self.provider.as_str()).len() == 0 {
            String::from_str("unknown")
        } else {
            self.provider.clone()
        }
    }

    /// The model the request ran on, else the model it asked for.
    pub fn resolved_model(&self) -> (r: String)
        ensures
            r@ == if self.resolved_model@.len() == 0 {
                self.request_model@
            } else {
                self.resolved_model@
            },
    {
        if chars_of(self.resolved_model.as_str()).len() == 0 {
            self.request_model.clone()
        } else {
            self.resolved_model.clone()
        }
    }

    pub fn auth_id(&self) -> (r: String)
        ensures
            r@ == self.auth_id@,
    {
        self.auth_id.clone()
    }

    /// The kind of the auth, `unknown` when none was bound.
    pub fn auth_type(&self) -> (r: String)
        ensures
            r@ == if self.auth_type@.len() == 0 {
                "unknown"@
            } else {
                self.auth_type@
            },
    {
        if chars_of(self.auth_type.as_str()).len() == 0 {
            String::from_str("unknown")
        } else {
            self.auth_type.clone()
        }
    }

    /// The request id, else the id of the upstream response.
    pub fn effective_request_id(&self) -> (r: String)
        ensures
            r@ == if self.request_id@.len() > 0 {
                self.request_id@
            } else {
                self.response_id@
            },
    {
        if chars_of(self.request_id.as_str()).len() > 0 {
            self.request_id.clone()
        } else {
            self.response_id.clone()
        }
    }

    /// Ends a request that the client dropped: no record is emitted.
    pub fn finish_cancelled(&mut self)
        ensures
            final(self).finished,
            final(self).tokens == old(self).tokens,
            final(self).usage_queue_enabled == old(self).usage_queue_enabled,
            (final(self).finished, None::<FinishRecord>) == spec_finish_step(
                old(self).finished,
                old(self).usage_queue_enabled,
                FinishCall::Cancel,
            ),
    {
        self.finished = true;
    }

    /// Ends the request at `now`, `latency_ms` after it started: the first call returns the
    /// usage record when usage goes to the queue; later calls return nothing.
    pub fn finish(&mut self, failed: bool, status_code: u16, body: &str, now: i128, latency_ms: u64) -> (r: Option<
        UsageQueuePayload,
    >)
        ensures
            final(self).finished,
            final(self).usage_queue_enabled == old(self).usage_queue_enabled,
            (old(self).finished || !old(self).usage_queue_enabled) <==> r is None,
            (final(self).finished, record_of(r)) == spec_finish_step(
                old(self).finished,
                old(self).usage_queue_enabled,
                FinishCall::Done { failed, status_code, body: body@ },
            ),
            r matches Some(p) ==> {
                &&& match spec_rfc3339_text(now) {
                    Some(t) => p.timestamp@ == t,
                    None => p.timestamp@ == "1970-01-01T00:00:00Z"@,
                }
                &&& p.latency_ms == latency_ms
                &&& p.ttft_ms == old(self).first_byte_ms
                &&& p.source@ == old(self).source@
                &&& p.auth_index@ == old(self).auth_id@
                &&& p.tokens == old(self).tokens
                &&& p.failed == failed
                &&& p.fail.status_code == if failed {
                    if status_code > 400 {
                        status_code
                    } else {
                        400
                    }
                } else {
                    200
                }
                &&& p.fail.body@ == if failed {
                    trim(body@)
                } else {
                    Seq::<char>::empty()
                }
                &&& headers_view(p.response_headers@) == headers_view(old(self).response_headers@)
                &&& p.provider@ == if old(self).provider@.len() == 0 {
                    "unknown"@
                } else {
                    old(self).provider@
                }
                &&& p.executor_type@ == "RustResponsesExecutor"@
                &&& p.model@ == if old(self).resolved_model@.len() == 0 {
                    old(self).request_model@
                } else {
                    old(self).resolved_model@
                }
                &&& p.alias@ == old(self).request_model@
                &&& p.endpoint@ == "POST /v1/responses"@
                &&& p.auth_type@ == if old(self).auth_type@.len() == 0 {
                    "unknown"@
                } else {
                    old(self).auth_type@
                }
                &&& p.api_key@ == old(self).api_key@
                &&& p.request_id@ == if old(self).request_id@.len() > 0 {
                    old(self).request_id@
                } else {
                    old(self).response_id@
                }
                &&& p.reasoning_effort@.len() == 0
                &&& p.service_tier@ == "default"@
            },
    {
        if self.finished {
            return None;
        }
        self.finished = true;
        if !self.usage_queue_enabled {
            return None;
        }
        let timestamp = match format_rfc3339(now) {
            Some(t) => t,
            None => String::from_str("1970-01-01T00:00:00Z"),
        };
        let fail = if failed {
            UsageQueueFail {
                status_code: if status_code > 400 {
                    status_code
                } else {
                    400
                },
                body: trim_str(body),
            }
        } else {
            UsageQueueFail { status_code: 200, body: String::new() }
        };
        Some(
            UsageQueuePayload {
                timestamp,
                latency_ms,
                ttft_ms: self.first_byte_ms,
                source: self.source.clone(),
                auth_index: self.auth_id(),
                tokens: self.tokens,
                failed,
                fail,
                response_headers: copy_headers(&self.response_headers),
                provider: self.provider(),
                executor_type: String::from_str("RustResponsesExecutor"),
                model: self.resolved_model(),
                alias: self.request_model.clone(),
                endpoint: String::from_str("POST /v1/responses"),
                auth_type: self.auth_type(),
                api_key: self.api_key.clone(),
                request_id: self.effective_request_id(),
                reasoning_effort: String::new(),
                service_tier: String::from_str("default"),
            },
        )
    }
}

impl UsageQueueTokens {
    pub open spec fn default_spec() -> UsageQueueTokens {
        UsageQueueTokens {
            input_tokens: 0,
            output_tokens: 0,
            reasoning_tokens: 0,
            cached_tokens: 0,
            cache_read_tokens: 0,
            cache_creation_tokens: 0,
            total_tokens: 0,
        }
    }

    /// All counts zero.
    pub fn zero() -> (r: Self)
        ensures
            r == Self::default_spec(),
    {
        UsageQueueTokens {
            input_tokens: 0,
            output_tokens: 0,
            reasoning_tokens: 0,
            cached_tokens: 0,
            cache_read_tokens: 0,
            cache_creation_tokens: 0,
            total_tokens: 0,
        }
    }
}

/// Reply headers as values.
pub open spec fn headers_view(h: Seq<(String, Vec<String>)>) -> Seq<(Seq<char>, Seq<Seq<char>>)> {
    h.map_values(|e: (String, Vec<String>)| (e.0@, e.1@.map_values(|s: String| s@)))
}

fn copy_strings(v: &Vec<String>) -> (r: Vec<String>)
    ensures
        r@.map_values(|s: String| s@) == v@.map_values(|s: String| s@),
{
    let mut out: Vec<String> = Vec::new();
    let mut k: usize = 0;
    while k < v.len()
        invariant
            k <= v@.len(),
            out@.len() == k,
            forall|j: int| 0 <= j < k ==> (#[trigger] out@[j])@ == v@[j]@,
        decreases v@.len() - k,
    {
        let item = v[k].clone();
        out.push(item);
        k = k + 1;
    }
    assert(out@.map_values(|s: String| s@) =~= v@.map_values(|s: String| s@));
    out
}

fn copy_headers(h: &Vec<(String, Vec<String>)>) -> (r: Vec<(String, Vec<String>)>)
    ensures
        headers_view(r@) == headers_view(h@),
{
    let mut out: Vec<(String, Vec<String>)> = Vec::new();
    let mut i: usize = 0;
    while i < h.len()
        invariant
            i <= h@.len(),
            headers_view(out@) == headers_view(h@).take(i as int),
        decreases h@.len() - i,
    {
        let values = copy_strings(&h[i].1);
        let ghost before = out@;
        let key = h[i].0.clone();
        let ghost entry_view = (key@, values@.map_values(|s: String| s@));
        assert(entry_view == (h@[i as int].0@, h@[i as int].1@.map_values(|s: String| s@)));
        out.push((key, values));
        assert(headers_view(out@) =~= headers_view(before).push(entry_view));
        i = i + 1;
        assert(headers_view(out@) =~= headers_view(h@).take(i as int));
    }
    assert(headers_view(h@).take(i as int) =~= headers_view(h@));
    out
}

fn token_of(usage: &Json, key: &str) -> (r: u64)
    ensures
        r == spec_token(usage.jv(), key@),
{
    match crate::protocol::number_u64(usage.get(key)) {
        Some(n) => n,
        None => 0,
    }
}

/// Each count of a usage record is the `usage` member of the same name (0 where it is missing
/// or not a whole number that fits); the total is the `total_tokens` member, or else input plus
/// output, saturating.
pub proof fn law_token_counts_follow_usage_members(u: JsonV)
    ensures
        spec_tokens(u).input_tokens == spec_token(u, "input_tokens"@),
        spec_tokens(u).output_tokens == spec_token(u, "output_tokens"@),
        spec_tokens(u).reasoning_tokens == spec_token(u, "reasoning_tokens"@),
        spec_tokens(u).cached_tokens == spec_token(u, "cached_tokens"@),
        spec_tokens(u).cache_read_tokens == spec_token(u, "cache_read_tokens"@),
        spec_tokens(u).cache_creation_tokens == spec_token(u, "cache_creation_tokens"@),
        json_u64(get(u, "total_tokens"@)) matches Some(t) ==> spec_tokens(u).total_tokens == t,
        json_u64(get(u, "total_tokens"@)) is None ==> spec_tokens(u).total_tokens as int == if spec_token(
            u,
            "input_tokens"@,
        ) + spec_token(u, "output_tokens"@) > u64::MAX {
            u64::MAX as int
        } else {
            spec_token(u, "input_tokens"@) + spec_token(u, "output_tokens"@)
        },
{
}

proof fn lemma_text_digits_of(n: nat)
    ensures
        digits_of(n).len() > 0,
        forall|i: int| 0 <= i < digits_of(n).len() ==> is_digit_char(#[trigger] digits_of(n)[i]),
        text_digits_value(digits_of(n)) == n,
    decreases n,
{
    if n < 10 {
        assert(digit_char(n) as u32 == '0' as u32 + n);
        assert(digits_of(n) =~= seq![digit_char(n)]);
        assert(digits_of(n).drop_last() =~= Seq::<char>::empty());
        assert(text_digits_value(Seq::<char>::empty()) == 0);
        assert(digits_of(n).last() == digit_char(n));
        assert(text_digits_value(digits_of(n)) == text_digits_value(digits_of(n).drop_last()) * 10
            + ((digits_of(n).last() as u32) - ('0' as u32)) as nat);
    } else {
        lemma_text_digits_of(n / 10);
        let d = digits_of(n / 10);
        let c = digit_char(n % 10);
        assert(c as u32 == '0' as u32 + n % 10);
        assert(digits_of(n) == d.push(c));
        assert(d.push(c).drop_last() =~= d);
        assert forall|i: int| 0 <= i < d.push(c).len() implies is_digit_char(#[trigger] d.push(c)[i]) by {
            if i < d.len() {
                assert(d.push(c)[i] == d[i]);
            }
        }
        assert(n == (n / 10) * 10 + n % 10);
        assert(text_digits_value(d.push(c)) == (n / 10) * 10 + n % 10);
    }
}

proof fn lemma_get_of_three(
    m: Seq<(Seq<char>, JsonV)>,
    k: Seq<char>,
    i: int,
)
    requires
        m.len() == 3,
        0 <= i < 3,
        m[i].0 == k,
        forall|j: int| 0 <= j < 3 && j != i ==> m[j].0 != k,
    ensures
        get(JsonV::Object(m), k) == Some(m[i].1),
{
    assert(has_member(m, k));
    lemma_member_pos(m, k);
    let p = member_pos(m, k);
    assert(p == i);
}

/// A usage object that gives the input, output and total token counts as whole numbers yields a
/// record with exactly those counts, each in its own place.
pub proof fn law_usage_object_counts(a: u64, b: u64, t: u64)
    ensures
        ({
            let u = JsonV::Object(
                seq![
                    ("input_tokens"@, JsonV::Number(digits_of(a as nat))),
                    ("output_tokens"@, JsonV::Number(digits_of(b as nat))),
                    ("total_tokens"@, JsonV::Number(digits_of(t as nat))),
                ],
            );
            &&& spec_tokens(u).input_tokens == a
            &&& spec_tokens(u).output_tokens == b
            &&& spec_tokens(u).total_tokens == t
        }),
{
    let m = seq![
        ("input_tokens"@, JsonV::Number(digits_of(a as nat))),
        ("output_tokens"@, JsonV::Number(digits_of(b as nat))),
        ("total_tokens"@, JsonV::Number(digits_of(t as nat))),
    ];
    reveal_strlit("input_tokens");
    reveal_strlit("output_tokens");
    reveal_strlit("total_tokens");
    assert("input_tokens"@[0] == 'i' && "output_tokens"@[0] == 'o' && "total_tokens"@[0] == 't');
    lemma_get_of_three(m, "input_tokens"@, 0);
    lemma_get_of_three(m, "output_tokens"@, 1);
    lemma_get_of_three(m, "total_tokens"@, 2);
    lemma_text_digits_of(a as nat);
    lemma_text_digits_of(b as nat);
    lemma_text_digits_of(t as nat);
}

} // verus!
