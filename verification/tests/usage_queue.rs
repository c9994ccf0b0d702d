use cliproxy_data_plane::json::Json;
use cliproxy_data_plane::redis_protocol::QueueChannel;
use cliproxy_data_plane::usage_queue::{record_as_json, UsageQueue};
use serde_json::Value;

fn v(json: &Json) -> Value {
    value_of(json)
}

fn value_of(json: &Json) -> Value {
    match json {
        Json::Null => Value::Null,
        Json::Bool(b) => Value::Bool(*b),
        Json::Number(n) => Value::Number(serde_json::from_str(n).expect("number text")),
        Json::Str(s) => Value::String(s.clone()),
        Json::Array(a) => Value::Array(a.iter().map(value_of).collect()),
        Json::Object(o) => Value::Object(o.iter().map(|(k, x)| (k.clone(), value_of(x))).collect()),
    }
}

#[test]
fn pop_oldest_consumes_fifo_records() {
    let mut queue = UsageQueue::new();
    queue.enqueue_raw(b"{\"request_id\":\"req-1\"}".to_vec());
    queue.enqueue_raw(b"{\"request_id\":\"req-2\"}".to_vec());

    let first = queue.pop_oldest_json(1);
    let second = queue.pop_oldest_json(10);

    assert_eq!(v(&first[0])["request_id"], "req-1");
    assert_eq!(v(&second[0])["request_id"], "req-2");
    assert!(queue.pop_oldest(1).is_empty());
}

#[test]
fn empty_payloads_are_not_buffered() {
    let mut queue = UsageQueue::new();
    queue.enqueue_raw(Vec::new());
    assert!(queue.pop_oldest(5).is_empty());
}

#[test]
fn records_that_are_not_json_come_back_as_text() {
    assert_eq!(v(&record_as_json(b"plain text")), Value::String("plain text".to_string()));
    assert_eq!(v(&record_as_json(b"{\"a\":1}"))["a"], 1);
}

#[test]
fn subscribers_get_the_refresh_marker_then_records_without_buffering() {
    let mut queue = UsageQueue::new();
    let (_id, mut rx) = queue.subscribe_usage();
    assert_eq!(rx.try_recv().expect("initial payload"), b"{\"support_refresh\":true}".to_vec());
    queue.enqueue_raw(b"{\"request_id\":\"req-1\"}".to_vec());
    assert_eq!(rx.try_recv().expect("usage payload"), b"{\"request_id\":\"req-1\"}".to_vec());
    assert!(queue.pop_oldest(1).is_empty());
}

#[test]
fn records_are_buffered_again_after_the_last_subscriber_leaves() {
    let mut queue = UsageQueue::new();
    let (id, _rx) = queue.subscribe_usage();
    queue.unsubscribe(id, QueueChannel::Usage);
    queue.enqueue_raw(b"r1".to_vec());
    assert_eq!(queue.pop_oldest(3), vec![b"r1".to_vec()]);
}

#[test]
fn subscribe_usage_receives_support_refresh_first() {
    let mut queue = UsageQueue::new();
    let (_id, mut subscription) = queue.subscribe_usage();

    let payload = subscription.try_recv().expect("initial payload");

    assert_eq!(payload, b"{\"support_refresh\":true}".to_vec());
}

#[test]
fn enqueue_broadcasts_to_subscribers_without_buffering() {
    let mut queue = UsageQueue::new();
    let (_id, mut subscription) = queue.subscribe_usage();
    let _ = subscription.try_recv().expect("initial payload");

    queue.enqueue_raw(b"{\"request_id\":\"req-1\"}".to_vec());
    let payload = subscription.try_recv().expect("usage payload");

    assert_eq!(payload, b"{\"request_id\":\"req-1\"}".to_vec());
    assert!(queue.pop_oldest(1).is_empty());
}

#[test]
fn refresh_and_error_events_reach_their_subscribers_only() {
    let mut queue = UsageQueue::new();
    let (_u, mut usage) = queue.subscribe_usage();
    let (_e, mut errors) = queue.subscribe_errors();
    let _ = usage.try_recv().expect("initial payload");

    queue.notify_refresh();
    assert_eq!(usage.try_recv().expect("refresh"), b"{\"refresh\":true}".to_vec());
    assert!(errors.try_recv().is_err());

    queue.publish_raw(b"{\"error\":1}".to_vec(), QueueChannel::Errors);
    assert_eq!(errors.try_recv().expect("error event"), b"{\"error\":1}".to_vec());
    assert!(usage.try_recv().is_err());
    assert!(queue.pop_oldest(1).is_empty());
}

#[test]
fn every_subscription_gets_a_new_id() {
    let mut queue = UsageQueue::new();
    let (a, _ra) = queue.subscribe_usage();
    let (b, _rb) = queue.subscribe_errors();
    queue.unsubscribe(a, QueueChannel::Usage);
    let (c, _rc) = queue.subscribe_usage();
    assert_ne!(a, b);
    assert_ne!(a, c);
    assert_ne!(b, c);
    queue.unsubscribe(c, QueueChannel::Usage);
    queue.enqueue_raw(b"{\"request_id\":\"req-1\"}".to_vec());
    assert_eq!(queue.pop_oldest(1).len(), 1);
}
