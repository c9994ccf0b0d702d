use cliproxy_data_plane::sse::{
    is_header_only_sse_frame, merge_sse_header_and_frame, normalize_sse_frame_bytes,
    sse_data_lines_valid, sse_data_payload, sse_frame_len, sse_frames, sse_has_field,
    sse_needs_line_break, trim_ascii_whitespace, trim_sse_frame_terminator,
};
use cliproxy_data_plane::sse_framer::{stream_error_frame, ResponsesSseFramer, StreamAggregator};
use serde_json::Value;

fn text(frame: &[u8]) -> String {
    String::from_utf8(frame.to_vec()).expect("valid utf8")
}

#[test]
fn sse_framer_reassembles_split_event_and_data_chunks() {
    let mut framer = ResponsesSseFramer::default();

    let out1 = framer.push_chunk(b"event: response.created");
    let out2 = framer.push_chunk(b"\ndata: {\"type\":\"response.created\",\"response\":{\"id\":\"resp-1\"}}");
    let out3 = framer.push_chunk(b"\n\n");

    assert!(out1.is_empty());
    let mut frames = Vec::new();
    frames.extend(out2);
    frames.extend(out3.into_iter().filter(|frame| {
        std::str::from_utf8(frame).map(|text| !text.trim().is_empty()).unwrap_or(true)
    }));
    assert_eq!(frames.len(), 1);
    assert_eq!(
        text(&frames[0]),
        "event: response.created\ndata: {\"type\":\"response.created\",\"response\":{\"id\":\"resp-1\"}}\n\n"
    );
}

#[test]
fn sse_framer_repairs_completed_output_from_done_items() {
    let mut framer = ResponsesSseFramer::default();

    let done = framer.push_chunk(
        b"data: {\"type\":\"response.output_item.done\",\"output_index\":0,\"item\":{\"type\":\"function_call\",\"id\":\"fc-1\",\"call_id\":\"call-1\",\"name\":\"shell\",\"arguments\":\"{}\"}}\n\n",
    );
    let completed = framer.push_chunk(b"data: {\"type\":\"response.completed\",\"response\":{\"id\":\"resp-1\",\"output\":[]}}\n\n");

    assert_eq!(done.len(), 1);
    assert_eq!(completed.len(), 1);
    let payload = sse_data_payload(&completed[0]).expect("sse payload");
    let output = serde_json::from_slice::<Value>(&payload).expect("json");
    assert_eq!(output["response"]["output"][0]["id"], "fc-1");
    assert_eq!(output["response"]["output"][0]["name"], "shell");
}

#[test]
fn sse_framer_emits_complete_pending_frame_without_delimiter() {
    let mut framer = ResponsesSseFramer::default();

    let out = framer.push_chunk(b"data: {\"type\":\"response.completed\",\"response\":{\"id\":\"resp-1\"}}");
    assert_eq!(text(&out[0]), "data: {\"type\":\"response.completed\",\"response\":{\"id\":\"resp-1\"}}\n\n");
    assert!(framer.finish().is_empty());
}

#[test]
fn sse_framer_orders_indexed_items_before_unindexed_ones() {
    let mut framer = ResponsesSseFramer::new();
    let mut frames = Vec::new();
    frames.extend(framer.push_chunk(b"data: {\"type\":\"response.output_item.done\",\"item\":{\"type\":\"message\",\"id\":\"late\"}}\n\n"));
    frames.extend(framer.push_chunk(b"data: {\"type\":\"response.output_item.done\",\"output_index\":1,\"item\":{\"type\":\"message\",\"id\":\"b\"}}\n\n"));
    frames.extend(framer.push_chunk(b"data: {\"type\":\"response.output_item.done\",\"output_index\":0,\"item\":{\"type\":\"message\",\"id\":\"a\"}}\n\n"));
    frames.extend(framer.push_chunk(b"data: {\"type\":\"response.completed\",\"response\":{\"output\":[]}}\n\n"));
    let last = frames.last().expect("completed");
    let payload: Value = serde_json::from_slice(&sse_data_payload(last).expect("payload")).expect("json");
    let ids: Vec<&str> = payload["response"]["output"]
        .as_array()
        .expect("output")
        .iter()
        .map(|item| item["id"].as_str().expect("id"))
        .collect();
    assert_eq!(ids, vec!["a", "b", "late"]);
}

#[test]
fn sse_framer_drops_incomplete_trailing_data_on_finish() {
    let mut framer = ResponsesSseFramer::new();
    assert!(framer.push_chunk(b"data: {\"type\":\"response.cre").is_empty());
    assert!(framer.finish().is_empty());
}

#[test]
fn sse_framer_merges_a_header_with_the_following_data_frame() {
    let mut framer = ResponsesSseFramer::new();
    let out1 = framer.push_chunk(b"event: response.created\n\n");
    let out2 = framer.push_chunk(b"data: {\"type\":\"response.created\"}\n\n");
    assert!(out1.is_empty());
    assert_eq!(out2.len(), 1);
    assert_eq!(text(&out2[0]), "event: response.created\ndata: {\"type\":\"response.created\"}\n\n");
}

#[test]
fn stream_aggregator_folds_a_stream_into_the_completed_response() {
    let mut agg = StreamAggregator::new();
    let first = agg.push_chunk(b"data: {\"type\":\"response.output_item.done\",\"output_index\":0,\"item\":{\"type\":\"message\",\"id\":\"m1\"}}\n\n");
    let second = agg.push_chunk(b"data: {\"type\":\"response.completed\",\"response\":{\"id\":\"r\",\"output\":[]}}");
    assert_eq!(first.len(), 1);
    assert_eq!(second.len(), 1);
    let (last, body) = agg.finish();
    assert!(last.is_empty());
    let body: Value = serde_json::from_slice(&body.expect("completed")).expect("json");
    assert_eq!(body["id"], "r");
    assert_eq!(body["output"][0]["id"], "m1");

    let (_, missing) = StreamAggregator::new().finish();
    assert_eq!(missing.err().as_deref(), Some("upstream stream did not produce response.completed"));
}

#[test]
fn stream_error_frame_quotes_the_message() {
    assert_eq!(
        text(&stream_error_frame("boom \"x\"")),
        "event: response.error\ndata: {\"type\":\"response.error\",\"message\":\"boom \\\"x\\\"\"}\n\n"
    );
}

#[test]
fn frame_boundaries_and_fields() {
    assert_eq!(sse_frame_len(b"data: a\n\ndata: b"), Some(9));
    assert_eq!(sse_frame_len(b"data: a\r\n\r\nx"), Some(11));
    assert_eq!(sse_frame_len(b"data: a"), None);
    assert!(sse_has_field(b"event: x\n\n", b"event:"));
    assert!(!sse_has_field(b"data: event:\n\n", b"event:"));
    assert_eq!(trim_ascii_whitespace(b" \t x \r\n"), b"x".to_vec());
    assert!(is_header_only_sse_frame(b"event: response.created\n\n"));
    assert!(!is_header_only_sse_frame(b"event: x\ndata: y\n\n"));
    assert_eq!(trim_sse_frame_terminator(b"event: x\n\n"), b"event: x".to_vec());
    assert_eq!(
        merge_sse_header_and_frame(b"event: x\n\n", b"data: y\n\n"),
        b"event: x\ndata: y\n\n".to_vec()
    );
    assert_eq!(normalize_sse_frame_bytes(b"data: y"), b"data: y\n\n".to_vec());
    assert!(sse_needs_line_break(b"event: a", b"data: b"));
    assert!(!sse_needs_line_break(b"event: a\n", b"data: b"));
    assert!(sse_data_lines_valid(b"data: {\"a\":1}\n\n"));
}

#[test]
fn data_payload_joins_data_lines_and_frames_split_a_transcript() {
    assert_eq!(sse_data_payload(b"event: e\ndata: a\ndata: b\n\n"), Some(b"a\nb".to_vec()));
    assert_eq!(sse_data_payload(b"event: e\n\n"), None);
    let frames = sse_frames(b"data: 1\n\ndata: 2\n\n");
    assert_eq!(frames, vec![b"data: 1".to_vec(), b"data: 2".to_vec()]);
}
