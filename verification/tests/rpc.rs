use state_sync_engine::gossip::{PeerInfo, PeerTable};
use state_sync_engine::rpc::error_codes;
use state_sync_engine::rpc::handler::{required_str, to_json, DispatchResult, RpcHandler};
use state_sync_engine::rpc::server::{Connection, ConnectionAction, ConnectionEvent};
use state_sync_engine::rpc::types::{Reply, RpcNotification, RpcRequest};
use state_sync_engine::rpc::Json;
use state_sync_engine::state::{LwwValue, StateEvent, StateStore};
use std::time::{Duration, Instant};

fn handler() -> RpcHandler {
    RpcHandler::new(StateStore::new("node-a".into(), 16), PeerTable::new())
}

fn text(s: &str) -> Json {
    Json::Str(s.into())
}

fn object(members: Vec<(&str, Json)>) -> Json {
    Json::Object(members.into_iter().map(|(k, v)| (k.to_string(), v)).collect())
}

fn request(method: &str, params: Json, id: Option<Json>) -> Result<RpcRequest, String> {
    Ok(RpcRequest { jsonrpc: "2.0".into(), method: method.into(), params, id })
}

/// Values are compared by how they print.
fn shown(j: &Json) -> String {
    format!("{j:?}")
}

fn call(h: &mut RpcHandler, method: &str, params: Json, stamp: u64) -> Json {
    match h.dispatch_at(request(method, params, Some(Json::PosInt(7))), stamp, Instant::now()) {
        DispatchResult::Response(Reply::Success(r)) => {
            assert_eq!(r.jsonrpc, "2.0");
            assert_eq!(shown(&r.id), shown(&Json::PosInt(7)));
            r.result
        }
        DispatchResult::Response(Reply::Failure(e)) => panic!("{e:?}"),
        _ => panic!("no answer to {method}"),
    }
}

fn refused(h: &mut RpcHandler, method: &str, params: Json) -> (i64, String) {
    match h.dispatch_at(request(method, params, Some(text("id"))), 1, Instant::now()) {
        DispatchResult::Response(Reply::Failure(e)) => {
            assert_eq!(e.jsonrpc, "2.0");
            assert_eq!(shown(&e.id), shown(&text("id")));
            assert!(e.error.data.is_none());
            (e.error.code, e.error.message)
        }
        _ => panic!("{method} was not refused"),
    }
}

fn key_value(k: &str, v: &str) -> Json {
    object(vec![("key", text(k)), ("value", text(v))])
}

#[test]
fn error_codes_are_those_of_the_standard() {
    assert_eq!(error_codes::PARSE_ERROR, -32700);
    assert_eq!(error_codes::INVALID_REQUEST, -32600);
    assert_eq!(error_codes::METHOD_NOT_FOUND, -32601);
    assert_eq!(error_codes::INVALID_PARAMS, -32602);
    assert_eq!(error_codes::INTERNAL_ERROR, -32603);
}

#[test]
fn set_is_read_back() {
    let mut h = handler();
    let r = call(&mut h, "state.set", key_value("foo", "bar"), 1_700);
    assert_eq!(
        shown(&r),
        shown(&object(vec![("timestamp", Json::PosInt(1_700)), ("node_id", text("node-a"))]))
    );
    let r = call(&mut h, "state.get", object(vec![("key", text("foo"))]), 0);
    assert_eq!(
        shown(&r),
        shown(&object(vec![
            ("key", text("foo")),
            ("value", text("bar")),
            ("timestamp", Json::PosInt(1_700)),
            ("node_id", text("node-a")),
        ]))
    );
}

#[test]
fn set_answers_with_the_winner() {
    let mut h = handler();
    h.store.merge_delta(vec![(
        "k".into(),
        LwwValue { value: "remote".into(), timestamp: 50, node_id: "node-b".into() },
    )]);
    let r = call(&mut h, "state.set", key_value("k", "late"), 40);
    assert_eq!(
        shown(&r),
        shown(&object(vec![("timestamp", Json::PosInt(50)), ("node_id", text("node-b"))]))
    );
    assert_eq!(h.store.get("k").unwrap().value, "remote");
}

#[test]
fn a_missing_key_is_null() {
    let mut h = handler();
    let r = call(&mut h, "state.get", object(vec![("key", text("nope"))]), 0);
    assert_eq!(shown(&r), shown(&Json::Null));
}

#[test]
fn missing_parameters_are_refused() {
    let mut h = handler();
    let want_key = (-32602, "Missing required param: \"key\"".to_string());
    let want_value = (-32602, "Missing required param: \"value\"".to_string());
    assert_eq!(refused(&mut h, "state.get", Json::Null), want_key);
    assert_eq!(refused(&mut h, "state.get", object(vec![("key", Json::PosInt(1))])), want_key);
    assert_eq!(refused(&mut h, "state.get", Json::Array(vec![text("key")])), want_key);
    assert_eq!(refused(&mut h, "state.set", object(vec![("value", text("v"))])), want_key);
    assert_eq!(refused(&mut h, "state.set", Json::Null), want_key);
    assert_eq!(refused(&mut h, "state.set", object(vec![("key", text("k"))])), want_value);
    assert!(h.store.is_empty());
    assert_eq!(required_str(&object(vec![("x", text("y"))]), "x"), Ok("y"));
}

#[test]
fn unknown_methods_are_refused() {
    let mut h = handler();
    let want = (-32601, "Method not found: state.drop".to_string());
    assert_eq!(refused(&mut h, "state.drop", Json::Null), want);
    assert_eq!(refused(&mut h, "", Json::Null), (-32601, "Method not found: ".to_string()));
    assert_eq!(refused(&mut h, "STATE.GET", Json::Null).0, -32601);
}

#[test]
fn unparsable_lines_are_reported() {
    let mut h = handler();
    match h.dispatch(Err("expected value at line 1 column 1".into())).unwrap() {
        DispatchResult::Response(Reply::Failure(e)) => {
            assert_eq!(e.error.code, -32700);
            assert_eq!(e.error.message, "expected value at line 1 column 1");
            assert_eq!(shown(&e.id), shown(&Json::Null));
        }
        _ => panic!("no parse error"),
    }
}

#[test]
fn keys_are_listed_with_their_count() {
    let mut h = handler();
    let r = call(&mut h, "state.keys", Json::Null, 0);
    assert_eq!(
        shown(&r),
        shown(&object(vec![("keys", Json::Array(vec![])), ("count", Json::PosInt(0))]))
    );
    h.store.set_at("foo".into(), "1".into(), 1);
    h.store.set_at("bar".into(), "2".into(), 2);
    let r = call(&mut h, "state.keys", Json::Null, 0);
    assert_eq!(r.count_member("count"), Some(2));
    match r.get("keys") {
        Some(Json::Array(keys)) => {
            let mut names: Vec<&str> = keys.iter().map(|k| k.as_str().unwrap()).collect();
            names.sort();
            assert_eq!(names, vec!["bar", "foo"]);
        }
        other => panic!("{other:?}"),
    }
}

#[test]
fn peers_are_listed_with_their_fields() {
    let mut h = handler();
    let now = Instant::now();
    let mut p = PeerInfo::new_at("127.0.0.1:7073".into(), now);
    p.exchange_count = 12;
    p.last_sync_ts = 34;
    h.peers.insert("node-b".into(), p);
    let later = now + Duration::from_millis(2_500);
    let out = h.dispatch_at(request("node.peers", Json::Null, Some(Json::PosInt(5))), 0, later);
    let r = match out {
        DispatchResult::Response(Reply::Success(r)) => r.result,
        _ => panic!("no answer"),
    };
    let peer = object(vec![
        ("id", text("node-b")),
        ("addr", text("127.0.0.1:7073")),
        ("last_seen_secs", Json::PosInt(2)),
        ("exchange_count", Json::PosInt(12)),
        ("last_sync_ts", Json::PosInt(34)),
    ]);
    let want = object(vec![("peers", Json::Array(vec![peer])), ("count", Json::PosInt(1))]);
    assert_eq!(shown(&r), shown(&want));
}

#[test]
fn status_sums_the_node_up() {
    let mut h = handler();
    h.store.set_at("a".into(), "1".into(), 10);
    h.store.set_at("b".into(), "2".into(), 30);
    h.peers.insert("p".into(), PeerInfo::new("x".into()));
    let r = call(&mut h, "sync.status", Json::Null, 0);
    let want = object(vec![
        ("node_id", text("node-a")),
        ("state_size", Json::PosInt(2)),
        ("max_timestamp", Json::PosInt(30)),
        ("peer_count", Json::PosInt(1)),
    ]);
    assert_eq!(shown(&r), shown(&want));
}

#[test]
fn delta_starts_after_the_given_timestamp() {
    let mut h = handler();
    h.store.set_at("a".into(), "1".into(), 10);
    h.store.set_at("b".into(), "2".into(), 30);
    let r = call(&mut h, "sync.delta", object(vec![("since", Json::PosInt(10))]), 0);
    let entry = object(vec![
        ("key", text("b")),
        ("value", text("2")),
        ("timestamp", Json::PosInt(30)),
        ("node_id", text("node-a")),
    ]);
    let want = object(vec![("entries", Json::Array(vec![entry])), ("count", Json::PosInt(1))]);
    assert_eq!(shown(&r), shown(&want));
    // What is no number counts as 0.
    for since in [text("10"), Json::Null, Json::Bool(true), Json::Float(f64::NAN.to_bits())] {
        let r = call(&mut h, "sync.delta", object(vec![("since", since)]), 0);
        assert_eq!(r.count_member("count"), Some(2));
    }
}

fn later_than(h: &mut RpcHandler, since: Json) -> Option<u64> {
    call(h, "sync.delta", object(vec![("since", since)]), 0).count_member("count")
}

#[test]
fn delta_takes_any_number() {
    let mut h = handler();
    for ts in [0, 50, 100, 101, 1 << 60, u64::MAX] {
        h.store.set_at(format!("at-{ts}"), "v".into(), ts);
    }
    assert_eq!(later_than(&mut h, Json::NegInt(-1)), Some(6));
    assert_eq!(later_than(&mut h, Json::PosInt(0)), Some(5));
    assert_eq!(later_than(&mut h, Json::PosInt(u64::MAX)), Some(0));
    for (since, count) in [
        (100.5, 3),
        (99.999, 4),
        (100.0, 3),
        (-0.5, 6),
        (-1e300, 6),
        (-0.0, 5),
        (0.0, 5),
        (0.25, 5),
        (f64::MIN_POSITIVE / 4.0, 5),
        (1.7e15, 2),
        (1.152921504606847e18, 1),
        (18446744073709549568.0, 1),
        (18446744073709551616.0, 0),
        (1e300, 0),
        (f64::INFINITY, 0),
        (f64::NEG_INFINITY, 6),
    ] {
        assert_eq!(later_than(&mut h, Json::Float(f64::to_bits(since))), Some(count), "{since}");
    }
}

#[test]
fn bounds_are_whole_parts() {
    for (number, bound) in [
        (1.0, Some(1)),
        (1.999, Some(1)),
        (4503599627370495.5, Some(4503599627370495)),
        (4503599627370496.0, Some(4503599627370496)),
        (9007199254740993.0 * 2.0, Some(18014398509481984)),
        (-5e-324, None),
        (5e-324, Some(0)),
    ] {
        assert_eq!(Json::Float(f64::to_bits(number)).bound(), bound, "{number}");
    }
    assert_eq!(Json::NegInt(-7).bound(), None);
    assert_eq!(Json::NegInt(7).bound(), Some(7));
    assert_eq!(Json::PosInt(7).bound(), Some(7));
    assert_eq!(text("7").bound(), Some(0));
}

#[test]
fn only_complete_writes_write() {
    let set = request("state.set", key_value("k", "v"), None).unwrap();
    assert!(set.writes());
    let no_value = object(vec![("key", text("k"))]);
    let no_key = object(vec![("value", text("v"))]);
    assert!(!request("state.set", no_value, None).unwrap().writes());
    assert!(!request("state.set", no_key, None).unwrap().writes());
    assert!(!request("state.get", key_value("k", "v"), None).unwrap().writes());
}

#[test]
fn reads_need_no_exclusive_access() {
    let mut h = handler();
    h.store.set_at("k".into(), "v".into(), 3);
    let h = h;
    let get = request("state.get", object(vec![("key", text("k"))]), Some(Json::Null));
    match h.dispatch_read(get) {
        DispatchResult::Response(Reply::Success(r)) => {
            assert_eq!(r.result.text_member("value"), Some("v"));
            // An id that is null is an id.
            assert_eq!(shown(&r.id), shown(&Json::Null));
        }
        _ => panic!("no answer"),
    }
    match h.dispatch_read(request("state.set", object(vec![("key", text("k"))]), Some(text("i")))) {
        DispatchResult::Response(Reply::Failure(e)) => {
            assert_eq!(e.error.code, error_codes::INVALID_PARAMS);
            assert_eq!(e.error.message, "Missing required param: \"value\"");
        }
        _ => panic!("not refused"),
    }
}

#[test]
fn notifications_are_carried_out_and_not_answered() {
    let mut h = handler();
    let out = h.dispatch_at(request("state.set", key_value("k", "v"), None), 9, Instant::now());
    assert!(matches!(out, DispatchResult::Notification));
    assert_eq!(h.store.get("k").unwrap().timestamp, 9);
    let out = h.dispatch(request("no.such", Json::Null, None)).unwrap();
    assert!(matches!(out, DispatchResult::Notification));
}

#[test]
fn dispatch_stamps_writes_with_the_clock() {
    let mut h = handler();
    h.dispatch(request("state.set", key_value("k", "v"), Some(Json::PosInt(1))));
    assert!(h.store.get("k").unwrap().timestamp > 1_577_836_800_000_000);
}

#[test]
fn subscriptions_deliver_later_events() {
    let mut h = handler();
    h.store.set_at("k".into(), "before".into(), 1);
    let params = object(vec![("prefix", text("config."))]);
    match h.dispatch(request("state.subscribe", params, Some(Json::PosInt(3)))).unwrap() {
        DispatchResult::Subscribed { initial_response, mut receiver, prefix } => {
            let want =
                object(vec![("status", text("subscribed")), ("prefix", text("config."))]);
            match initial_response {
                Reply::Success(r) => {
                    assert_eq!(shown(&r.result), shown(&want));
                    assert_eq!(shown(&r.id), shown(&Json::PosInt(3)));
                }
                Reply::Failure(e) => panic!("{e:?}"),
            }
            assert_eq!(prefix.as_deref(), Some("config."));
            h.store.set_at("k".into(), "after".into(), 2);
            assert_eq!(receiver.try_recv().unwrap().value.value, "after");
        }
        _ => panic!("not subscribed"),
    }
    // Without an id it is answered all the same, with the id null.
    match h.dispatch(request("state.subscribe", Json::Null, None)).unwrap() {
        DispatchResult::Subscribed { initial_response: Reply::Success(r), prefix, .. } => {
            assert!(prefix.is_none());
            assert_eq!(shown(&r.id), shown(&Json::Null));
            let want = object(vec![("status", text("subscribed")), ("prefix", Json::Null)]);
            assert_eq!(shown(&r.result), shown(&want));
        }
        _ => panic!("not subscribed"),
    }
}

#[test]
fn lookups_take_the_first_member() {
    let j = object(vec![("a", Json::PosInt(1)), ("b", text("x")), ("a", Json::PosInt(2))]);
    assert_eq!(j.count_member("a"), Some(1));
    assert_eq!(j.text_member("b"), Some("x"));
    assert_eq!(j.text_member("a"), None);
    assert!(j.get("c").is_none());
    assert!(text("a").get("a").is_none());
}

#[test]
fn encoded_answers_are_sent_as_they_are() {
    assert_eq!(to_json(Ok("{}".into())), "{}");
    assert_eq!(
        to_json(Err("boom".into())),
        r#"{"jsonrpc":"2.0","error":{"code":-32603,"message":"Internal serialization error"},"id":null}"#
    );
}

// ── Connections ────────────────────────────────────────────────────────────

fn update(key: &str) -> ConnectionEvent {
    ConnectionEvent::Update(StateEvent {
        key: key.into(),
        value: LwwValue { value: "v".into(), timestamp: 3, node_id: "n".into() },
    })
}

#[test]
fn lines_are_trimmed_and_blank_ones_skipped() {
    let mut c = Connection::new();
    match c.on_event(ConnectionEvent::Line(" {\"a\": 1} \r\n".into())) {
        ConnectionAction::Dispatch(s) => assert_eq!(s, "{\"a\": 1}"),
        _ => panic!("not dispatched"),
    }
    assert!(matches!(c.on_event(ConnectionEvent::Line(" \r\n".into())), ConnectionAction::Wait));
    assert!(matches!(c.on_event(ConnectionEvent::Line("".into())), ConnectionAction::Wait));
}

#[test]
fn connections_end_on_eof_errors_and_shutdown() {
    for ev in [ConnectionEvent::Eof, ConnectionEvent::ReadFailed, ConnectionEvent::Cancelled] {
        assert!(matches!(Connection::new().on_event(ev), ConnectionAction::Close));
    }
}

#[test]
fn only_matching_events_are_forwarded() {
    let mut c = Connection::new();
    c.subscribed = true;
    c.prefix = Some("config.".into());
    match c.on_event(update("config.timeout")) {
        ConnectionAction::Notify(n) => {
            assert_eq!((n.jsonrpc, n.method), ("2.0", "state.update"));
            let want = object(vec![
                ("key", text("config.timeout")),
                ("value", text("v")),
                ("timestamp", Json::PosInt(3)),
                ("node_id", text("n")),
            ]);
            assert_eq!(shown(&n.params), shown(&want));
        }
        _ => panic!("not forwarded"),
    }
    assert!(matches!(c.on_event(update("other")), ConnectionAction::Wait));
    c.prefix = None;
    assert!(matches!(c.on_event(update("other")), ConnectionAction::Notify(_)));
}

#[test]
fn slow_subscribers_are_told_what_they_missed() {
    let mut c = Connection::new();
    match c.on_event(ConnectionEvent::Lagged(42)) {
        ConnectionAction::Notify(n) => {
            assert_eq!((n.jsonrpc, n.method), ("2.0", "state.lag"));
            assert_eq!(shown(&n.params), shown(&object(vec![("dropped", Json::PosInt(42))])));
        }
        _ => panic!("not told"),
    }
    let n = RpcNotification::lag(u64::MAX);
    assert_eq!(n.params.count_member("dropped"), Some(u64::MAX));
}

#[test]
fn subscribing_switches_a_connection_over() {
    let mut h = handler();
    let mut c = Connection::new();
    let outcome = h.dispatch(request("state.keys", Json::Null, Some(text("x")))).unwrap();
    let (reply, rx) = c.on_dispatched(outcome);
    assert!(reply.is_some() && rx.is_none() && !c.subscribed);
    let params = object(vec![("prefix", text("p"))]);
    let (reply, rx) =
        c.on_dispatched(h.dispatch(request("state.subscribe", params, Some(text("x")))).unwrap());
    assert!(reply.is_some() && rx.is_some() && c.subscribed);
    assert_eq!(c.prefix.as_deref(), Some("p"));
    let (reply, rx) = c.on_dispatched(h.dispatch(request("state.keys", Json::Null, None)).unwrap());
    assert!(reply.is_none() && rx.is_none() && c.subscribed);
    assert!(matches!(c.on_event(ConnectionEvent::SubscriptionClosed), ConnectionAction::Wait));
    assert!(!c.subscribed);
}
