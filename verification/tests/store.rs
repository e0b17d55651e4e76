use state_sync_engine::error::EngineError;
use state_sync_engine::state::crdt::now_micros;
use state_sync_engine::state::snapshot::{delta_from_decoded, deserialize_delta, serialize_delta};
use state_sync_engine::state::{LwwValue, StateDelta, StateStore};
use std::time::{Duration, Instant};
use tokio::sync::broadcast::error::TryRecvError;

fn lww(value: &str, timestamp: u64, node_id: &str) -> LwwValue {
    LwwValue { value: value.into(), timestamp, node_id: node_id.into() }
}

fn sorted(mut delta: StateDelta) -> StateDelta {
    delta.sort_by(|a, b| a.0.cmp(&b.0));
    delta
}

#[test]
fn set_and_get_roundtrip() {
    let mut store = StateStore::new("node-1".into(), 64);
    store.set("foo".into(), "bar".into());
    let v = store.get("foo").unwrap();
    assert_eq!(v.value, "bar");
    assert_eq!(v.node_id, "node-1");
}

#[test]
fn merge_delta_updates_stale_entries() {
    let mut store = StateStore::new("node-1".into(), 64);
    store.set("k".into(), "local".into());

    // Fabricate a newer remote value
    let remote = LwwValue {
        value: "remote".into(),
        timestamp: store.get("k").unwrap().timestamp + 1_000_000,
        node_id: "node-2".into(),
    };
    let updated = store.merge_delta(vec![("k".into(), remote.clone())]);
    assert_eq!(updated, vec!["k"]);
    assert_eq!(store.get("k").unwrap().value, "remote");
}

#[test]
fn merge_delta_does_not_regress() {
    let mut store = StateStore::new("node-1".into(), 64);
    store.set("k".into(), "current".into());
    let current_ts = store.get("k").unwrap().timestamp;

    // Fabricate an *older* remote value
    let stale = LwwValue {
        value: "stale".into(),
        timestamp: current_ts - 1,
        node_id: "node-2".into(),
    };
    let updated = store.merge_delta(vec![("k".into(), stale)]);
    assert!(updated.is_empty(), "stale value should not trigger update");
    assert_eq!(store.get("k").unwrap().value, "current");
}

#[test]
fn delta_since_filters_correctly() {
    let mut store = StateStore::new("node-1".into(), 64);
    store.set("a".into(), "1".into());
    let mid_ts = store.get("a").unwrap().timestamp;
    let start = Instant::now();
    while start.elapsed() < Duration::from_micros(10) || now_micros().unwrap() <= mid_ts {}
    store.set("b".into(), "2".into());

    let delta = store.delta_since(mid_ts);
    assert_eq!(delta.len(), 1);
    assert_eq!(delta[0].0, "b");
}

#[test]
fn an_empty_store_has_nothing() {
    let store = StateStore::new("node-1".into(), 1);
    assert_eq!(store.get("k"), None);
    assert_eq!(store.len(), 0);
    assert!(store.is_empty());
    assert_eq!(store.max_timestamp(), 0);
    assert!(store.snapshot().is_empty());
    assert!(store.delta_since(0).is_empty());
    assert_eq!(store.node_id(), "node-1");
}

#[test]
fn reads_see_every_entry() {
    let mut store = StateStore::new("n".into(), 8);
    store.set_at("a".into(), "1".into(), 10);
    store.set_at("b".into(), "2".into(), 30);
    store.set_at("c".into(), "3".into(), 20);
    assert_eq!(store.len(), 3);
    assert!(!store.is_empty());
    assert_eq!(store.max_timestamp(), 30);
    assert_eq!(
        sorted(store.snapshot()),
        vec![
            ("a".to_string(), lww("1", 10, "n")),
            ("b".to_string(), lww("2", 30, "n")),
            ("c".to_string(), lww("3", 20, "n")),
        ]
    );
    // The bound itself is left out.
    assert_eq!(
        sorted(store.delta_since(10)),
        vec![("b".to_string(), lww("2", 30, "n")), ("c".to_string(), lww("3", 20, "n"))]
    );
    assert_eq!(sorted(store.delta_since(0)), sorted(store.snapshot()));
    assert!(store.delta_since(store.max_timestamp()).is_empty());
}

#[test]
fn an_older_write_loses() {
    let mut store = StateStore::new("n".into(), 8);
    assert_eq!(store.set_at("k".into(), "new".into(), 5), lww("new", 5, "n"));
    assert_eq!(store.set_at("k".into(), "old".into(), 4), lww("new", 5, "n"));
    // The same stamp again: the first write stays.
    assert_eq!(store.set_at("k".into(), "again".into(), 5), lww("new", 5, "n"));
    assert_eq!(store.get("k"), Some(lww("new", 5, "n")));
    assert_eq!(store.len(), 1);
}

#[test]
fn merge_reports_changes_in_order_and_once_per_change() {
    let mut store = StateStore::new("n".into(), 8);
    store.set_at("b".into(), "own".into(), 10);
    let delta = vec![
        ("a".to_string(), lww("1", 5, "m")),
        ("b".to_string(), lww("x", 9, "m")),
        ("a".to_string(), lww("2", 6, "m")),
        ("a".to_string(), lww("3", 6, "l")),
        ("c".to_string(), lww("", 0, "")),
    ];
    assert_eq!(store.merge_delta(delta.clone()), vec!["a", "a", "c"]);
    assert_eq!(store.get("a"), Some(lww("2", 6, "m")));
    assert_eq!(store.get("b"), Some(lww("own", 10, "n")));
    assert_eq!(store.get("c"), Some(lww("", 0, "")));
    // A second time it brings nothing.
    let before = store.snapshot();
    assert!(store.merge_delta(delta).is_empty());
    assert_eq!(store.snapshot(), before);
}

#[test]
fn order_of_arrival_does_not_matter() {
    let entries = [
        ("k".to_string(), lww("1", 1, "n1")),
        ("k".to_string(), lww("2", 1, "n2")),
        ("k".to_string(), lww("3", 2, "n0")),
        ("l".to_string(), lww("4", 1, "n1")),
    ];
    let mut states: Vec<StateDelta> = Vec::new();
    for a in 0..4 {
        for b in 0..4 {
            for c in 0..4 {
                let d = 6 - a as i32 - b as i32 - c as i32;
                if a != b && b != c && a != c && (0..4).contains(&d) {
                    let mut store = StateStore::new("x".into(), 4);
                    for i in [a, b, c, d as usize, a] {
                        store.merge_delta(vec![entries[i].clone()]);
                    }
                    states.push(sorted(store.snapshot()));
                }
            }
        }
    }
    assert_eq!(states.len(), 24);
    for s in &states {
        assert_eq!(s, &states[0]);
    }
    assert_eq!(states[0][0].1, lww("3", 2, "n0"));
}

#[test]
fn replicas_that_swap_snapshots_agree() {
    let mut a = StateStore::new("node-a".into(), 4);
    let mut b = StateStore::new("node-b".into(), 4);
    a.set_at("x".into(), "ax".into(), 10);
    b.set_at("x".into(), "bx".into(), 10);
    a.set_at("only-a".into(), "1".into(), 3);
    b.set_at("only-b".into(), "2".into(), 4);
    let from_a = a.snapshot();
    let from_b = b.snapshot();
    a.merge_delta(from_b);
    b.merge_delta(from_a);
    assert_eq!(sorted(a.snapshot()), sorted(b.snapshot()));
    assert_eq!(a.get("x").unwrap().value, "bx");
    assert_eq!(a.len(), 3);
}

#[test]
fn subscribers_get_later_events() {
    let mut store = StateStore::new("n".into(), 16);
    store.set_at("before".into(), "0".into(), 1);
    let mut rx = store.subscribe();
    store.set_at("k".into(), "1".into(), 2);
    // A losing write announces what the key holds.
    store.set_at("k".into(), "0".into(), 1);
    store.merge_delta(vec![
        ("k".to_string(), lww("2", 3, "m")),
        ("k".to_string(), lww("x", 1, "m")),
        ("k".to_string(), lww("3", 4, "m")),
    ]);
    let mut seen = Vec::new();
    while let Ok(ev) = rx.try_recv() {
        seen.push((ev.key, ev.value));
    }
    assert_eq!(
        seen,
        vec![
            ("k".to_string(), lww("1", 2, "n")),
            ("k".to_string(), lww("1", 2, "n")),
            // Both changes of the delta announce the state after it.
            ("k".to_string(), lww("3", 4, "m")),
            ("k".to_string(), lww("3", 4, "m")),
        ]
    );
    assert!(matches!(rx.try_recv(), Err(TryRecvError::Empty)));
}

#[test]
fn slow_subscribers_lag() {
    let mut store = StateStore::new("n".into(), 2);
    let mut rx = store.subscribe();
    for i in 0..5 {
        store.set_at("k".into(), format!("{i}"), i);
    }
    assert!(matches!(rx.try_recv(), Err(TryRecvError::Lagged(3))));
    assert_eq!(rx.try_recv().unwrap().value.value, "3");
    assert_eq!(rx.try_recv().unwrap().value.value, "4");
}

#[test]
fn deltas_survive_their_bytes() {
    let delta: StateDelta = vec![
        ("k".to_string(), lww("v", 258, "n")),
        ("\u{e9}".to_string(), lww("", u64::MAX, "node-\u{10000}")),
    ];
    let bytes = serialize_delta(&delta).unwrap();
    assert_eq!(deserialize_delta(&bytes).unwrap(), delta);
    let empty: StateDelta = vec![];
    assert_eq!(serialize_delta(&empty).unwrap(), vec![0u8; 8]);
    assert_eq!(deserialize_delta(&[0u8; 8]).unwrap(), empty);
}

#[test]
fn a_delta_is_not_read_from_a_part_of_its_bytes() {
    let delta: StateDelta = vec![
        ("k".to_string(), lww("v", 258, "n")),
        ("k".to_string(), lww("\u{e9}", 7, "m")),
        ("k".to_string(), lww("v", 258, "n")),
    ];
    let mut bytes = serialize_delta(&delta).unwrap();
    for n in 0..bytes.len() {
        assert!(deserialize_delta(&bytes[..n]).is_err(), "{n} bytes");
    }
    // Repeated keys are kept, in their order, and what follows does not matter.
    bytes.push(1);
    assert_eq!(deserialize_delta(&bytes).unwrap(), delta);
}

#[test]
fn delta_bytes_are_lengths_and_texts() {
    let delta: StateDelta = vec![("k".to_string(), lww("vw", 258, "n"))];
    let mut expected: Vec<u8> = Vec::new();
    expected.extend([1, 0, 0, 0, 0, 0, 0, 0]); // one entry
    expected.extend([1, 0, 0, 0, 0, 0, 0, 0]);
    expected.extend(b"k");
    expected.extend([2, 0, 0, 0, 0, 0, 0, 0]);
    expected.extend(b"vw");
    expected.extend([2, 1, 0, 0, 0, 0, 0, 0]); // 258
    expected.extend([1, 0, 0, 0, 0, 0, 0, 0]);
    expected.extend(b"n");
    assert_eq!(serialize_delta(&delta).unwrap(), expected);
}

#[test]
fn broken_delta_bytes_are_refused() {
    match deserialize_delta(&[1, 2, 3]) {
        Err(EngineError::Serialization(t)) => assert!(t.starts_with("snapshot deserialize: ")),
        other => panic!("{other:?}"),
    }
    match delta_from_decoded(Err("no".to_string())) {
        Err(EngineError::Serialization(t)) => assert_eq!(t, "snapshot deserialize: no"),
        other => panic!("{other:?}"),
    }
    let row = ("k".to_string(), "v".to_string(), 3, "n".to_string());
    let delta = delta_from_decoded(Ok(vec![row])).unwrap();
    assert_eq!(delta, vec![("k".to_string(), lww("v", 3, "n"))]);
}
