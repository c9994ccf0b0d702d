use cliproxy_data_plane::redis_protocol::{
    is_resp_prefix, parse_auth_password, parse_command, parse_pop_args, pop_reply,
    subscription_step, write_bulk_array, write_bulk_string, write_error, write_integer,
    write_nil_bulk_string, write_pubsub_message, write_pubsub_pong, write_pubsub_subscribe,
    write_pubsub_unsubscribe, write_simple_string, ConnectionStep, QueueChannel, RespCommand,
    RespConnection, ServedCommand, SubscriptionStep,
};
use cliproxy_data_plane::usage_queue::UsageQueue;

fn args(items: &[&str]) -> Vec<String> {
    items.iter().map(|s| s.to_string()).collect()
}

fn reply_text(step: ConnectionStep) -> String {
    match step {
        ConnectionStep::Reply(bytes) => String::from_utf8(bytes).expect("utf8"),
        other => panic!("expected a reply, got {other:?}"),
    }
}

#[test]
fn detects_resp_prefixes() {
    assert!(is_resp_prefix(b'*'));
    assert!(is_resp_prefix(b'$'));
    assert!(!is_resp_prefix(b'G'));
}

#[test]
fn parses_complete_and_partial_commands() {
    let buf = b"*2\r\n$4\r\nLPOP\r\n$5\r\nusage\r\nrest";
    match parse_command(buf, false) {
        RespCommand::Complete { args, consumed } => {
            assert_eq!(args, vec!["LPOP".to_string(), "usage".to_string()]);
            assert_eq!(consumed, buf.len() - 4);
        }
        other => panic!("unexpected {other:?}"),
    }
    assert!(matches!(parse_command(b"*2\r\n$4\r\nLPO", false), RespCommand::Incomplete));
    assert!(matches!(parse_command(b"GET /", false), RespCommand::Malformed));
    assert!(matches!(parse_command(b"", false), RespCommand::Incomplete));
}

#[test]
fn parses_simple_and_integer_arguments_and_negative_bulk() {
    match parse_command(b"*3\r\n+PING\r\n:5\r\n$-1\r\n", false) {
        RespCommand::Complete { args, .. } => {
            assert_eq!(args, vec!["PING".to_string(), "5".to_string(), String::new()])
        }
        other => panic!("unexpected {other:?}"),
    }
}

#[test]
fn writes_resp_replies() {
    let mut out = Vec::new();
    write_simple_string(&mut out, "OK");
    write_error(&mut out, "ERR x");
    write_nil_bulk_string(&mut out);
    write_bulk_string(&mut out, b"abc");
    write_integer(&mut out, 12);
    assert_eq!(out, b"+OK\r\n-ERR x\r\n$-1\r\n$3\r\nabc\r\n:12\r\n".to_vec());

    let mut arr = Vec::new();
    write_bulk_array(&mut arr, &vec![b"a".to_vec(), b"bc".to_vec()]);
    assert_eq!(arr, b"*2\r\n$1\r\na\r\n$2\r\nbc\r\n".to_vec());

    let mut sub = Vec::new();
    write_pubsub_subscribe(&mut sub, "usage", 1);
    assert_eq!(sub, b"*3\r\n$9\r\nsubscribe\r\n$5\r\nusage\r\n:1\r\n".to_vec());
    let mut msg = Vec::new();
    write_pubsub_message(&mut msg, "usage", b"{}");
    assert_eq!(msg, b"*3\r\n$7\r\nmessage\r\n$5\r\nusage\r\n$2\r\n{}\r\n".to_vec());
    let mut unsub = Vec::new();
    write_pubsub_unsubscribe(&mut unsub, "errors", 0);
    assert_eq!(unsub, b"*3\r\n$11\r\nunsubscribe\r\n$6\r\nerrors\r\n:0\r\n".to_vec());
    let mut pong = Vec::new();
    write_pubsub_pong(&mut pong, b"");
    assert_eq!(pong, b"*2\r\n$4\r\npong\r\n$0\r\n\r\n".to_vec());
}

#[test]
fn auth_rejects_wrong_password_and_requires_auth_first() {
    let password = Some("secret".to_string());
    let mut conn = RespConnection::new();
    assert_eq!(reply_text(conn.handle_command(&args(&["LPOP", "usage"]), &password)), "-NOAUTH Authentication required.\r\n");
    assert_eq!(reply_text(conn.handle_command(&args(&["AUTH", "wrong"]), &password)), "-ERR invalid password\r\n");
    assert!(!conn.authed);
    assert_eq!(reply_text(conn.handle_command(&args(&["auth", "user", "secret"]), &password)), "+OK\r\n");
    assert!(conn.authed);
    assert_eq!(reply_text(conn.handle_command(&args(&["AUTH"]), &password)), "-ERR wrong number of arguments for 'auth' command\r\n");
}

#[test]
fn pop_commands_are_checked_before_the_queue() {
    let mut conn = RespConnection::new();
    let _ = conn.handle_command(&args(&["AUTH", "any"]), &None);
    assert!(matches!(
        conn.handle_command(&args(&["LPOP", " Usage "]), &None),
        ConnectionStep::Pop { count: 1, has_count: false }
    ));
    assert!(matches!(
        conn.handle_command(&args(&["RPOP", "usage", " 3 "]), &None),
        ConnectionStep::Pop { count: 3, has_count: true }
    ));
    assert_eq!(reply_text(conn.handle_command(&args(&["RPOP", "usage", "0"]), &None)), "-ERR value is not an integer or out of range\r\n");
    assert_eq!(reply_text(conn.handle_command(&args(&["LPOP", "errors"]), &None)), "-ERR unsupported channel 'errors'\r\n");
    assert_eq!(reply_text(conn.handle_command(&args(&["LPOP"]), &None)), "-ERR wrong number of arguments for 'lpop' command\r\n");
    assert_eq!(reply_text(conn.handle_command(&args(&["GET", "k"]), &None)), "-ERR unknown command 'get'\r\n");
    assert_eq!(reply_text(conn.handle_command(&args(&[]), &None)), "-ERR empty command\r\n");
}

#[test]
fn subscribe_names_the_channel() {
    let mut conn = RespConnection::new();
    let _ = conn.handle_command(&args(&["AUTH", "x"]), &None);
    match conn.handle_command(&args(&["SUBSCRIBE", " Errors "]), &None) {
        ConnectionStep::Subscribe { channel, name, reply } => {
            assert_eq!(channel, QueueChannel::Errors);
            assert_eq!(name, "errors");
            assert_eq!(reply, b"*3\r\n$9\r\nsubscribe\r\n$6\r\nerrors\r\n:1\r\n".to_vec());
        }
        other => panic!("unexpected {other:?}"),
    }
    assert_eq!(reply_text(conn.handle_command(&args(&["SUBSCRIBE", "other"]), &None)), "-ERR unsupported channel 'other'\r\n");
}

#[test]
fn subscription_answers_ping_and_closes_on_unsubscribe() {
    match subscription_step(&args(&["PING", "hi"]), "usage") {
        SubscriptionStep::Reply(b) => assert_eq!(b, b"*2\r\n$4\r\npong\r\n$2\r\nhi\r\n".to_vec()),
        other => panic!("unexpected {other:?}"),
    }
    match subscription_step(&args(&["UNSUBSCRIBE"]), "usage") {
        SubscriptionStep::Close(b) => assert_eq!(b, b"*3\r\n$11\r\nunsubscribe\r\n$5\r\nusage\r\n:0\r\n".to_vec()),
        other => panic!("unexpected {other:?}"),
    }
    assert!(matches!(subscription_step(&args(&["QUIT"]), "usage"), SubscriptionStep::Close(_)));
}

#[test]
fn pop_replies_depend_on_an_explicit_count() {
    assert_eq!(pop_reply(&vec![], false), b"$-1\r\n".to_vec());
    assert_eq!(pop_reply(&vec![b"x".to_vec()], false), b"$1\r\nx\r\n".to_vec());
    assert_eq!(pop_reply(&vec![], true), b"*0\r\n".to_vec());
    assert_eq!(parse_auth_password(&args(&["AUTH", "a", "b"])), Some("b"));
    assert_eq!(parse_pop_args(&args(&["LPOP", "USAGE", "x"])), None);
    assert_eq!(parse_pop_args(&args(&["LPOP", "USAGE"])), Some(("usage".to_string(), 1, false)));
}

/// Feeds the bytes a client wrote through the connection logic, as the listener does, and
/// returns what the server writes back; a subscription delivers what is waiting on its channel.
fn serve_bytes(queue: &mut UsageQueue, password: Option<String>, input: &[u8]) -> String {
    let mut buf = input.to_vec();
    let mut conn = RespConnection::new();
    let mut out: Vec<u8> = Vec::new();
    loop {
        let args = match parse_command(&buf, true) {
            RespCommand::Complete { args, consumed } => {
                buf.drain(..consumed);
                args
            }
            _ => break,
        };
        match conn.serve_command(queue, &args, &password) {
            ServedCommand::Reply(reply) => out.extend_from_slice(&reply),
            ServedCommand::Subscribe { channel, name, reply } => {
                let (id, mut rx) = match channel {
                    QueueChannel::Usage => queue.subscribe_usage(),
                    QueueChannel::Errors => queue.subscribe_errors(),
                };
                out.extend_from_slice(&reply);
                while let Ok(payload) = rx.try_recv() {
                    write_pubsub_message(&mut out, &name, &payload);
                }
                queue.unsubscribe(id, channel);
                break;
            }
        }
    }
    String::from_utf8_lossy(&out).into_owned()
}

#[test]
fn lpop_returns_buffered_usage_payload() {
    let mut queue = UsageQueue::new();
    queue.enqueue_raw(b"{\"request_id\":\"req-1\"}".to_vec());

    let response = serve_bytes(
        &mut queue,
        None,
        b"*2\r\n$4\r\nAUTH\r\n$6\r\nsecret\r\n*3\r\n$4\r\nLPOP\r\n$5\r\nusage\r\n$1\r\n1\r\n",
    );

    assert!(response.contains("+OK\r\n"), "response: {response:?}");
    assert!(response.contains("{\"request_id\":\"req-1\"}"), "response: {response:?}");
}

#[test]
fn subscribe_usage_emits_support_refresh_control_message() {
    let mut queue = UsageQueue::new();

    let response = serve_bytes(
        &mut queue,
        None,
        b"*2\r\n$4\r\nAUTH\r\n$6\r\nsecret\r\n*2\r\n$9\r\nSUBSCRIBE\r\n$5\r\nusage\r\n",
    );

    assert!(response.contains("subscribe"), "response: {response:?}");
    assert!(response.contains("{\"support_refresh\":true}"), "response: {response:?}");
}

#[test]
fn auth_rejects_wrong_password_when_configured() {
    let mut queue = UsageQueue::new();

    let response = serve_bytes(&mut queue, Some("secret".to_string()), b"*2\r\n$4\r\nAUTH\r\n$5\r\nwrong\r\n");

    assert!(response.contains("-ERR invalid password"), "response: {response:?}");
}

#[test]
fn a_session_without_auth_leaves_the_queue_alone() {
    let mut queue = UsageQueue::new();
    queue.enqueue_raw(b"{\"request_id\":\"req-1\"}".to_vec());
    let response = serve_bytes(
        &mut queue,
        Some("secret".to_string()),
        b"*2\r\n$4\r\nLPOP\r\n$5\r\nusage\r\n*2\r\n$9\r\nSUBSCRIBE\r\n$5\r\nusage\r\n",
    );
    assert_eq!(response, "-NOAUTH Authentication required.\r\n-NOAUTH Authentication required.\r\n");
    assert_eq!(queue.pop_oldest(5), vec![b"{\"request_id\":\"req-1\"}".to_vec()]);
}

#[test]
fn pops_in_a_session_take_the_oldest_records_first() {
    let mut queue = UsageQueue::new();
    queue.enqueue_raw(b"a".to_vec());
    queue.enqueue_raw(b"b".to_vec());
    queue.enqueue_raw(b"c".to_vec());
    let response = serve_bytes(
        &mut queue,
        None,
        b"*2\r\n$4\r\nAUTH\r\n$1\r\nx\r\n*2\r\n$4\r\nRPOP\r\n$5\r\nusage\r\n*3\r\n$4\r\nLPOP\r\n$5\r\nusage\r\n$1\r\n5\r\n",
    );
    assert_eq!(response, "+OK\r\n$1\r\na\r\n*2\r\n$1\r\nb\r\n$1\r\nc\r\n");
    assert!(queue.pop_oldest(1).is_empty());
}
