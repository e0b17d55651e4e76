use state_sync_engine::clock::micros_since_epoch;
use state_sync_engine::state::crdt::now_micros;
use state_sync_engine::state::LwwValue;
use std::time::{Duration, UNIX_EPOCH};

fn lww(value: &str, timestamp: u64, node_id: &str) -> LwwValue {
    LwwValue { value: value.into(), timestamp, node_id: node_id.into() }
}

#[test]
fn merge_higher_timestamp_wins() {
    let old = LwwValue { value: "old".into(), timestamp: 100, node_id: "a".into() };
    let new = LwwValue { value: "new".into(), timestamp: 200, node_id: "b".into() };
    assert_eq!(LwwValue::merge(&old, &new).value, "new");
    assert_eq!(LwwValue::merge(&new, &old).value, "new"); // commutative
}

#[test]
fn merge_tie_broken_by_node_id() {
    let a = LwwValue { value: "a".into(), timestamp: 100, node_id: "node-z".into() };
    let b = LwwValue { value: "b".into(), timestamp: 100, node_id: "node-a".into() };
    // "node-z" > "node-a" lexicographically
    assert_eq!(LwwValue::merge(&a, &b).value, "a");
    assert_eq!(LwwValue::merge(&b, &a).value, "a"); // commutative
}

#[test]
fn merge_is_idempotent() {
    let v = LwwValue::new("x".into(), "n".into()).unwrap();
    assert_eq!(LwwValue::merge(&v, &v), v);
}

#[test]
fn merge_is_associative() {
    let values = [
        lww("a", 1, "n1"),
        lww("b", 1, "n2"),
        lww("c", 2, "n1"),
        lww("d", 2, "n0"),
        lww("e", 1, "n2"),
    ];
    for a in &values {
        for b in &values {
            for c in &values {
                let left = LwwValue::merge(&LwwValue::merge(a, b), c);
                let right = LwwValue::merge(a, &LwwValue::merge(b, c));
                assert_eq!(left, right);
            }
        }
    }
}

#[test]
fn same_stamp_keeps_the_first() {
    let a = lww("first", 7, "n");
    let b = lww("second", 7, "n");
    assert_eq!(LwwValue::merge(&a, &b).value, "first");
    assert_eq!(LwwValue::merge(&b, &a).value, "second");
    assert!(!a.is_dominated_by(&b));
}

#[test]
fn dominated_only_by_a_strictly_newer_stamp() {
    let a = lww("a", 100, "n1");
    assert!(a.is_dominated_by(&lww("b", 101, "n0")));
    assert!(a.is_dominated_by(&lww("b", 100, "n2")));
    assert!(!a.is_dominated_by(&lww("b", 100, "n0")));
    assert!(!a.is_dominated_by(&lww("b", 99, "n9")));
    assert!(!a.is_dominated_by(&a));
}

#[test]
fn equality_looks_at_every_field() {
    assert_eq!(lww("a", 1, "n"), lww("a", 1, "n"));
    assert_ne!(lww("a", 1, "n"), lww("b", 1, "n"));
    assert_ne!(lww("a", 1, "n"), lww("a", 2, "n"));
    assert_ne!(lww("a", 1, "n"), lww("a", 1, "m"));
}

#[test]
fn new_values_carry_the_current_time() {
    let before = now_micros().unwrap();
    let v = LwwValue::new("v".into(), "n".into()).unwrap();
    let after = now_micros().unwrap();
    assert_eq!(v.value, "v");
    assert_eq!(v.node_id, "n");
    assert!(before <= v.timestamp && v.timestamp <= after);
    // Some time after the year 2020.
    assert!(before > 1_577_836_800_000_000);
}

#[test]
fn micros_count_from_the_epoch() {
    assert_eq!(micros_since_epoch(UNIX_EPOCH), Some(0));
    assert_eq!(micros_since_epoch(UNIX_EPOCH + Duration::from_millis(1500)), Some(1_500_000));
    assert_eq!(micros_since_epoch(UNIX_EPOCH + Duration::from_nanos(1_999)), Some(1));
    // Nothing can be counted before the epoch.
    assert_eq!(micros_since_epoch(UNIX_EPOCH - Duration::from_secs(1)), None);
}
