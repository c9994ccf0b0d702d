use cliproxy_data_plane::json::Json;
use cliproxy_data_plane::protocol::{
    normalize_codex_builtin_tool_choice, normalize_codex_builtin_tool_value,
    normalize_codex_builtin_tools, normalize_codex_input_roles,
    normalize_codex_parallel_tool_calls_for_tools, normalize_upstream_request,
    strip_codex_unsupported_fields, ResponsesRequest, ResponsesRequestIr, ResponsesStreamEventIr,
    DEFAULT_CODEX_INSTRUCTIONS,
};
use cliproxy_data_plane::request_summary::{extract_metadata, truncate_preview};
use cliproxy_data_plane::sse_framer::extract_completed_response_from_sse;
use cliproxy_data_plane::types::{ExecutionPlan, ProviderKind, StickinessSource};
use serde_json::Value;

fn j(text: &str) -> Json {
    json_of(serde_json::from_str(text).expect("valid json"))
}

fn v(json: &Json) -> Value {
    value_of(json)
}
fn json_of(value: Value) -> Json {
    match value {
        Value::Null => Json::Null,
        Value::Bool(b) => Json::Bool(b),
        Value::Number(n) => Json::Number(n.to_string()),
        Value::String(s) => Json::Str(s),
        Value::Array(a) => Json::Array(a.into_iter().map(json_of).collect()),
        Value::Object(o) => Json::Object(o.into_iter().map(|(k, x)| (k, json_of(x))).collect()),
    }
}

fn value_of(json: &Json) -> Value {
    match json {
        Json::Null => Value::Null,
        Json::Bool(b) => Value::Bool(*b),
        Json::Number(n) => Value::Number(serde_json::from_str(n).expect("number text")),
        Json::Str(s) => Value::String(s.clone()),
        Json::Array(a) => Value::Array(a.iter().map(value_of).collect()),
        Json::Object(o) => Value::Object(o.iter().map(|(k, x)| (k.clone(), value_of(x))).collect()),
    }
}


fn val(text: &str) -> Value {
    serde_json::from_str(text).expect("valid json")
}

fn opt_v(json: &Option<Json>) -> Option<Value> {
    json.as_ref().map(v)
}

fn extra_v(extra: &[(String, Json)]) -> Value {
    let mut map = serde_json::Map::new();
    for (k, x) in extra {
        map.insert(k.clone(), v(x));
    }
    Value::Object(map)
}

fn plan(provider: ProviderKind, model: &str) -> ExecutionPlan {
    ExecutionPlan {
        provider,
        model: model.to_string(),
        auth_id: "auth-1".to_string(),
        retry_candidates: vec![],
        stickiness_source: StickinessSource::Strategy,
    }
}

fn copy(r: &ResponsesRequest) -> ResponsesRequest {
    ResponsesRequest {
        model: r.model.clone(),
        stream: r.stream,
        input: r.input.as_ref().map(Json::deep_clone),
        instructions: r.instructions.clone(),
        metadata: r.metadata.as_ref().map(Json::deep_clone),
        store: r.store,
        extra: r.extra.iter().map(|(k, x)| (k.clone(), x.deep_clone())).collect(),
    }
}

fn test_frame(event: &str, payload: &Value) -> String {
    let payload = serde_json::to_string(payload).expect("serialize payload");
    let mut frame = String::new();
    if !event.trim().is_empty() {
        frame.push_str("event: ");
        frame.push_str(event.trim());
        frame.push('\n');
    }
    for line in payload.lines() {
        frame.push_str("data: ");
        frame.push_str(line);
        frame.push('\n');
    }
    frame.push('\n');
    frame
}

#[test]
fn normalize_frame_has_event_and_data_lines() {
    let text = test_frame("response.created", &val("{\"type\":\"response.created\"}"));
    assert!(text.starts_with("event: response.created\n"));
    assert!(text.contains("data: {\"type\":\"response.created\"}\n\n"));
}

#[test]
fn extract_metadata_uses_input_when_instructions_missing() {
    let request = ResponsesRequest {
        model: "gpt-5".to_string(),
        stream: true,
        input: Some(j("[{\"content\":\"hello world from input\"}]")),
        instructions: None,
        metadata: Some(j("{\"client\":\"test\"}")),
        store: None,
        extra: vec![],
    };

    let meta = extract_metadata(&request).expect("extract metadata");
    assert_eq!(meta.model, "gpt-5");
    assert!(meta.prompt_preview.contains("hello world"));
    assert_eq!(meta.metadata_keys, 1);
}

#[test]
fn extract_metadata_prefers_instructions_and_refuses_blank_model() {
    let request = ResponsesRequest {
        model: " gpt-5 ".to_string(),
        stream: false,
        input: None,
        instructions: Some("  be brief  ".to_string()),
        metadata: None,
        store: None,
        extra: vec![],
    };
    let meta = extract_metadata(&request).expect("meta");
    assert_eq!(meta.model, "gpt-5");
    assert_eq!(meta.prompt_preview, "be brief");
    assert_eq!(meta.metadata_keys, 0);

    let empty = ResponsesRequest { instructions: None, ..copy(&request) };
    assert_eq!(extract_metadata(&empty).expect("meta").prompt_preview, "empty-input");

    let blank = ResponsesRequest { model: "  ".to_string(), ..copy(&request) };
    assert_eq!(extract_metadata(&blank).err().as_deref(), Some("model is required"));
}

#[test]
fn truncate_preview_counts_characters() {
    assert_eq!(truncate_preview("abcdef", 3), "abc...");
    assert_eq!(truncate_preview("abc", 3), "abc");
    assert_eq!(truncate_preview("héllo", 2), "hé...");
}

#[test]
fn normalize_upstream_request_adds_codex_defaults() {
    let request = ResponsesRequest {
        model: "codex-latest".to_string(),
        stream: false,
        input: Some(Json::Str("hello from codex".to_string())),
        instructions: None,
        metadata: None,
        store: None,
        extra: vec![],
    };
    let normalized = normalize_upstream_request(request, &plan(ProviderKind::Codex, "gpt-5.5"));
    assert_eq!(normalized.store, Some(false));
    assert_eq!(normalized.instructions.as_deref(), Some(DEFAULT_CODEX_INSTRUCTIONS));
    assert_eq!(
        opt_v(&normalized.input),
        Some(val(
            "[{\"role\":\"user\",\"content\":[{\"type\":\"input_text\",\"text\":\"hello from codex\"}]}]"
        ))
    );
}

#[test]
fn normalize_upstream_request_preserves_non_codex_request() {
    let request = ResponsesRequest {
        model: "gpt-5".to_string(),
        stream: false,
        input: Some(Json::Str("hello".to_string())),
        instructions: None,
        metadata: Some(j("{\"client\":\"test\"}")),
        store: None,
        extra: vec![],
    };
    let normalized = normalize_upstream_request(copy(&request), &plan(ProviderKind::OpenAi, "gpt-5"));
    assert_eq!(normalized.model, request.model);
    assert_eq!(opt_v(&normalized.input), opt_v(&request.input));
    assert_eq!(normalized.instructions, request.instructions);
    assert_eq!(normalized.store, request.store);
}

#[test]
fn request_ir_emits_codex_payload_with_defaults_and_text_input_lifted_to_message() {
    let request = ResponsesRequest {
        model: "codex-latest".to_string(),
        stream: false,
        input: Some(Json::Str("hello from ir".to_string())),
        instructions: None,
        metadata: Some(j("{\"session_id\":\"sess_123\"}")),
        store: None,
        extra: vec![],
    };
    let ir = ResponsesRequestIr::from_downstream_request(&request);
    let emitted = ir.emit_upstream_request(&plan(ProviderKind::Codex, "gpt-5.5"));

    assert_eq!(emitted.model, "gpt-5.5");
    assert_eq!(emitted.stream, request.stream);
    assert_eq!(emitted.store, Some(false));
    assert_eq!(emitted.instructions.as_deref(), Some(DEFAULT_CODEX_INSTRUCTIONS));
    assert!(emitted.metadata.is_none());
    assert_eq!(
        opt_v(&emitted.input),
        Some(val(
            "[{\"role\":\"user\",\"content\":[{\"type\":\"input_text\",\"text\":\"hello from ir\"}]}]"
        ))
    );
}

#[test]
fn request_ir_preserves_codex_native_input_and_extra_fields() {
    let request = ResponsesRequest {
        model: "codex-latest".to_string(),
        stream: true,
        input: Some(j(
            "[{\"type\":\"message\",\"role\":\"user\",\"content\":[{\"type\":\"input_text\",\"text\":\"hello from codex cli\"}]}]",
        )),
        instructions: Some("system".to_string()),
        metadata: Some(j("{\"client\":\"codex-test\"}")),
        store: Some(true),
        extra: vec![
            ("include".to_string(), j("[\"reasoning.encrypted_content\"]")),
            ("tools".to_string(), j("[{\"type\":\"function\",\"name\":\"shell\"}]")),
        ],
    };
    let ir = ResponsesRequestIr::from_downstream_request(&request);
    let emitted = ir.emit_upstream_request(&plan(ProviderKind::Codex, "gpt-5.5"));

    assert_eq!(opt_v(&emitted.input), opt_v(&request.input));
    let extra = extra_v(&emitted.extra);
    assert_eq!(extra["tools"][0]["name"], "shell");
    assert_eq!(extra["include"][0], "reasoning.encrypted_content");
}

#[test]
fn request_ir_preserves_non_codex_request_shape() {
    let request = ResponsesRequest {
        model: "gpt-5".to_string(),
        stream: true,
        input: Some(j("[{\"role\":\"user\",\"content\":[{\"type\":\"input_text\",\"text\":\"keep me\"}]}]")),
        instructions: Some("system".to_string()),
        metadata: Some(j("{\"client\":\"test\"}")),
        store: Some(true),
        extra: vec![],
    };
    let ir = ResponsesRequestIr::from_downstream_request(&request);
    let emitted = ir.emit_upstream_request(&plan(ProviderKind::OpenAi, "gpt-5"));

    assert_eq!(emitted.model, request.model);
    assert_eq!(emitted.stream, request.stream);
    assert_eq!(opt_v(&emitted.input), opt_v(&request.input));
    assert_eq!(emitted.instructions, request.instructions);
    assert_eq!(opt_v(&emitted.metadata), opt_v(&request.metadata));
    assert_eq!(emitted.store, request.store);
    assert_eq!(extra_v(&emitted.extra), extra_v(&request.extra));
}

#[test]
fn stream_event_ir_parses_output_item_done_and_completed_frames() {
    let done = b"event: response.output_item.done\ndata: {\"type\":\"response.output_item.done\",\"output_index\":0,\"item\":{\"type\":\"function_call\",\"id\":\"fc-1\"}}\n\n";
    let completed = b"event: response.completed\ndata: {\"type\":\"response.completed\",\"response\":{\"id\":\"resp-1\",\"output\":[]}}\n\n";

    let done_event = ResponsesStreamEventIr::from_sse_frame(done).expect("parse done frame").expect("stream event");
    let completed_event = ResponsesStreamEventIr::from_sse_frame(completed)
        .expect("parse completed frame")
        .expect("stream event");

    match done_event {
        ResponsesStreamEventIr::OutputItemDone(done) => {
            assert_eq!(done.output_index, Some(0));
            assert_eq!(v(&done.item)["id"], "fc-1");
        }
        other => panic!("unexpected done event: {other:?}"),
    }

    match completed_event {
        ResponsesStreamEventIr::Completed(completed) => {
            assert_eq!(v(&completed.response)["id"], "resp-1");
        }
        other => panic!("unexpected completed event: {other:?}"),
    }
}

#[test]
fn stream_event_ir_tells_other_events_apart() {
    assert!(matches!(
        ResponsesStreamEventIr::from_sse_frame(b"data: [DONE]\n\n"),
        Ok(Some(ResponsesStreamEventIr::Done))
    ));
    assert!(matches!(
        ResponsesStreamEventIr::from_sse_frame(b"data: not json\n\n"),
        Ok(Some(ResponsesStreamEventIr::NonJson(_)))
    ));
    assert!(matches!(ResponsesStreamEventIr::from_sse_frame(b": comment\n\n"), Ok(None)));
    match ResponsesStreamEventIr::from_sse_frame(b"data: {\"type\":\"response.created\"}\n\n") {
        Ok(Some(ResponsesStreamEventIr::OtherJson(e))) => assert_eq!(e.event_type, "response.created"),
        other => panic!("unexpected {other:?}"),
    }
}

#[test]
fn extract_completed_response_from_sse_returns_response_payload() {
    let bytes = [
        "event: response.created\n",
        "data: {\"type\":\"response.created\",\"response\":{\"id\":\"resp-1\"}}\n\n",
        "event: response.completed\n",
        "data: {\"type\":\"response.completed\",\"response\":{\"id\":\"resp-1\",\"object\":\"response\",\"status\":\"completed\"}}\n\n",
    ]
    .join("")
    .into_bytes();

    let aggregated = extract_completed_response_from_sse(&bytes).expect("aggregate sse");
    let payload: Value = serde_json::from_slice(&aggregated).expect("parse aggregated body");
    assert_eq!(payload["id"], "resp-1");
    assert_eq!(payload["object"], "response");
    assert_eq!(payload["status"], "completed");
}

#[test]
fn extract_completed_response_requires_a_completed_event() {
    let bytes = b"data: {\"type\":\"response.created\"}\n\n";
    assert_eq!(
        extract_completed_response_from_sse(bytes).err().as_deref(),
        Some("upstream stream did not produce response.completed")
    );
}

#[test]
fn codex_extra_fields_are_brought_to_what_codex_accepts() {
    let mut extra = vec![
        ("max_output_tokens".to_string(), j("10")),
        ("service_tier".to_string(), j("\"flex\"")),
        ("temperature".to_string(), j("0.5")),
        ("tools".to_string(), j("[{\"type\":\"web_search_preview\"}]")),
        ("tool_choice".to_string(), j("{\"type\":\"web_search_preview_2025_03_11\"}")),
    ];
    strip_codex_unsupported_fields(&mut extra);
    normalize_codex_builtin_tools(&mut extra);
    normalize_codex_parallel_tool_calls_for_tools(&mut extra);
    assert_eq!(
        extra_v(&extra),
        val("{\"tools\":[{\"type\":\"web_search\"}],\"tool_choice\":{\"type\":\"web_search\"},\"parallel_tool_calls\":true}")
    );

    let mut priority = vec![("service_tier".to_string(), j("\" priority \""))];
    strip_codex_unsupported_fields(&mut priority);
    assert_eq!(extra_v(&priority), val("{\"service_tier\":\" priority \"}"));

    let mut no_tools = vec![("parallel_tool_calls".to_string(), j("true"))];
    normalize_codex_parallel_tool_calls_for_tools(&mut no_tools);
    assert_eq!(extra_v(&no_tools), val("{}"));
}

#[test]
fn codex_roles_and_tool_names_are_rewritten() {
    let input = normalize_codex_input_roles(Some(j("[{\"role\":\" system \",\"content\":\"x\"},{\"role\":\"user\"}]")));
    assert_eq!(opt_v(&input), Some(val("[{\"role\":\"developer\",\"content\":\"x\"},{\"role\":\"user\"}]")));

    let tool = normalize_codex_builtin_tool_value(j("{\"type\":\"web_search_preview\",\"x\":1}"));
    assert_eq!(v(&tool), val("{\"type\":\"web_search\",\"x\":1}"));
    let choice = normalize_codex_builtin_tool_choice(j(
        "{\"type\":\"allowed_tools\",\"tools\":[{\"type\":\"web_search_preview\"}]}",
    ));
    assert_eq!(v(&choice), val("{\"type\":\"allowed_tools\",\"tools\":[{\"type\":\"web_search\"}]}"));
}
