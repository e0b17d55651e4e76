use state_sync_engine::config::Config;
use state_sync_engine::error::EngineError;
use state_sync_engine::gossip::manager::{handle_inbound, push_acknowledged, Push};
use state_sync_engine::gossip::protocol::{
    ack_from_decoded, decode_ack, decode_message, encode_ack, encode_message, frame, frame_length,
    message_from_decoded, MAX_MESSAGE_BYTES,
};
use state_sync_engine::gossip::{GossipAck, GossipManager, GossipMessage, PeerInfo, PeerTable};
use state_sync_engine::state::{LwwValue, StateDelta, StateStore};
use std::time::{Duration, Instant};

fn lww(value: &str, timestamp: u64, node_id: &str) -> LwwValue {
    LwwValue { value: value.into(), timestamp, node_id: node_id.into() }
}

fn sorted(mut delta: StateDelta) -> StateDelta {
    delta.sort_by(|a, b| a.0.cmp(&b.0));
    delta
}

fn config(node_id: &str, gossip_port: u16, seed_peers: Vec<String>, fanout: usize) -> Config {
    Config {
        host: "127.0.0.1".to_string(),
        rpc_port: 7070,
        gossip_port,
        node_id: Some(node_id.to_string()),
        seed_peers,
        gossip_interval_ms: 100,
        gossip_fanout: fanout,
        event_channel_capacity: 256,
    }
}

// ── Peers ──────────────────────────────────────────────────────────────────

#[test]
fn a_new_peer_has_received_nothing() {
    let now = Instant::now();
    let p = PeerInfo::new_at("127.0.0.1:7071".into(), now);
    assert_eq!(p.gossip_addr, "127.0.0.1:7071");
    assert_eq!(p.last_seen, now);
    assert_eq!(p.last_sync_ts, 0);
    assert_eq!(p.exchange_count, 0);
    let q = PeerInfo::new("x".into());
    assert!(q.last_seen >= now);
    assert_eq!((q.last_sync_ts, q.exchange_count), (0, 0));
}

#[test]
fn late_acknowledgements_never_move_the_pointer_back() {
    let t0 = Instant::now();
    let t1 = t0 + Duration::from_secs(1);
    let mut p = PeerInfo::new_at("a".into(), t0);
    p.record_exchange_at(50, t1);
    assert_eq!((p.last_sync_ts, p.exchange_count, p.last_seen), (50, 1, t1));
    p.record_exchange_at(20, t1);
    assert_eq!((p.last_sync_ts, p.exchange_count), (50, 2));
    p.record_exchange(60);
    assert_eq!((p.last_sync_ts, p.exchange_count), (60, 3));
}

#[test]
fn hearing_from_a_peer_keeps_the_pointer() {
    let t0 = Instant::now();
    let t1 = t0 + Duration::from_secs(1);
    let mut p = PeerInfo::new_at("a".into(), t0);
    p.record_exchange_at(50, t0);
    p.mark_seen_at(t1);
    assert_eq!((p.last_sync_ts, p.exchange_count, p.last_seen), (50, 2, t1));
    p.mark_seen();
    assert_eq!((p.last_sync_ts, p.exchange_count), (50, 3));
}

#[test]
fn peers_go_stale_after_the_timeout() {
    let t0 = Instant::now();
    let p = PeerInfo::new_at("a".into(), t0);
    assert!(!p.is_stale_at(5, t0 + Duration::from_millis(4_999)));
    assert!(p.is_stale_at(5, t0 + Duration::from_secs(5)));
    assert_eq!(p.idle_secs_at(t0 + Duration::from_millis(3_700)), 3);
    // A reading from before the exchange counts as no time at all.
    let q = PeerInfo::new_at("a".into(), t0 + Duration::from_secs(60));
    assert_eq!(q.idle_secs_at(t0), 0);
    assert!(p.is_stale(0));
    assert!(!PeerInfo::new("b".into()).is_stale(1_000));
}

// ── The peer table ─────────────────────────────────────────────────────────

#[test]
fn the_table_keeps_what_it_is_given() {
    let now = Instant::now();
    let mut t = PeerTable::new();
    assert_eq!(t.len(), 0);
    assert!(t.get("a").is_none());
    assert!(t.entries().is_empty());
    for (id, n) in [("a", 1), ("b", 2), ("c", 3)] {
        let mut p = PeerInfo::new_at(format!("addr-{id}"), now);
        p.last_sync_ts = n;
        p.exchange_count = 10 * n;
        t.insert(id.into(), p);
    }
    t.insert("a".into(), PeerInfo::new_at("other".into(), now));
    assert_eq!(t.len(), 3);
    assert_eq!(t.get("a").unwrap().gossip_addr, "other");
    let b = t.get("b").unwrap();
    assert_eq!((b.last_sync_ts, b.exchange_count, b.last_seen), (2, 20, now));
    let mut ids: Vec<(String, u64)> =
        t.entries().into_iter().map(|(id, p)| (id, p.last_sync_ts)).collect();
    ids.sort();
    assert_eq!(ids, vec![("a".to_string(), 0), ("b".to_string(), 2), ("c".to_string(), 3)]);
}

#[test]
fn seeds_are_registered_once_and_empty_ones_skipped() {
    let now = Instant::now();
    let mut t = PeerTable::new();
    let mut known = PeerInfo::new_at("known-addr".into(), now);
    known.exchange_count = 4;
    t.insert("h:1".into(), known);
    let seeds = vec!["h:1".to_string(), "".to_string(), "h:2".to_string(), "h:2".to_string()];
    t.seed_at(&seeds, now);
    assert_eq!(t.len(), 2);
    assert_eq!(t.get("h:1").unwrap().exchange_count, 4);
    let p = t.get("h:2").unwrap();
    assert_eq!((p.gossip_addr.as_str(), p.exchange_count, p.last_seen), ("h:2", 0, now));
}

#[test]
fn the_table_meets_unknown_peers() {
    let now = Instant::now();
    let mut t = PeerTable::new();
    t.heard_from_at("b".into(), "h:2".into(), now);
    let p = t.get("b").unwrap();
    assert_eq!((p.gossip_addr.as_str(), p.exchange_count, p.last_sync_ts), ("h:2", 1, 0));
    // A known peer keeps its address.
    t.acknowledged_at("b".into(), "h:9".into(), 77, now);
    let p = t.get("b").unwrap();
    assert_eq!((p.gossip_addr.as_str(), p.exchange_count, p.last_sync_ts), ("h:2", 2, 77));
    t.acknowledged_at("c".into(), "h:3".into(), 5, now);
    let p = t.get("c").unwrap();
    assert_eq!((p.gossip_addr.as_str(), p.exchange_count, p.last_sync_ts), ("h:3", 1, 5));
}

// ── The wire format ────────────────────────────────────────────────────────

fn message() -> GossipMessage {
    GossipMessage {
        from_node_id: "node-a".into(),
        from_gossip_addr: "127.0.0.1:7071".into(),
        deltas: vec![("k".into(), lww("v", 9, "node-a")), ("l".into(), lww("w", 10, "node-b"))],
        generation: 3,
    }
}

fn payload_of(bytes: &[u8]) -> Vec<u8> {
    let n = frame_length([bytes[0], bytes[1], bytes[2], bytes[3]]).unwrap();
    assert_eq!(bytes.len(), 4 + n);
    bytes[4..].to_vec()
}

#[test]
fn frames_announce_their_length() {
    assert_eq!(frame(&vec![]), vec![0, 0, 0, 0]);
    assert_eq!(frame(&vec![7, 8]), vec![0, 0, 0, 2, 7, 8]);
    let long = frame(&vec![1; 0x01_02_03]);
    assert_eq!(long[..4], [0, 1, 2, 3]);
    assert_eq!(long.len(), 4 + 0x01_02_03);
    assert_eq!(frame_length([0, 1, 2, 3]).unwrap(), 0x01_02_03);
}

#[test]
fn oversized_frames_are_refused() {
    assert_eq!(MAX_MESSAGE_BYTES, 16_777_216);
    assert_eq!(frame_length([1, 0, 0, 0]).unwrap(), MAX_MESSAGE_BYTES);
    match frame_length([1, 0, 0, 1]) {
        Err(EngineError::Peer(t)) => {
            assert_eq!(t, "gossip message too large: 16777217 bytes (max 16777216)")
        }
        other => panic!("{other:?}"),
    }
    match frame_length([255, 255, 255, 255]) {
        Err(EngineError::Peer(t)) => {
            assert_eq!(t, "gossip message too large: 4294967295 bytes (max 16777216)")
        }
        other => panic!("{other:?}"),
    }
}

#[test]
fn messages_survive_the_wire() {
    let msg = message();
    let payload = payload_of(&encode_message(&msg).unwrap());
    let back = decode_message(&payload).unwrap();
    assert_eq!(back.from_node_id, msg.from_node_id);
    assert_eq!(back.from_gossip_addr, msg.from_gossip_addr);
    assert_eq!(back.deltas, msg.deltas);
    assert_eq!(back.generation, msg.generation);
}

#[test]
fn acks_survive_the_wire() {
    let ack = GossipAck { from_node_id: "node-b".into(), merged_count: 42 };
    let bytes = encode_ack(&ack).unwrap();
    let mut expected = vec![0, 0, 0, 22];
    expected.extend([6, 0, 0, 0, 0, 0, 0, 0]);
    expected.extend(b"node-b");
    expected.extend([42, 0, 0, 0, 0, 0, 0, 0]);
    assert_eq!(bytes, expected);
    let back = decode_ack(&payload_of(&bytes)).unwrap();
    assert_eq!((back.from_node_id.as_str(), back.merged_count), ("node-b", 42));
}

#[test]
fn message_bytes_are_their_fields_in_order() {
    let msg = GossipMessage {
        from_node_id: "a".into(),
        from_gossip_addr: "b:1".into(),
        deltas: vec![("k".into(), lww("v", 1, "n"))],
        generation: 2,
    };
    let mut expected: Vec<u8> = Vec::new();
    for (n, text) in [(1u8, "a"), (3, "b:1")] {
        expected.extend([n, 0, 0, 0, 0, 0, 0, 0]);
        expected.extend(text.as_bytes());
    }
    expected.extend([1, 0, 0, 0, 0, 0, 0, 0]);
    for text in ["k", "v"] {
        expected.extend([1, 0, 0, 0, 0, 0, 0, 0]);
        expected.extend(text.as_bytes());
    }
    expected.extend([1, 0, 0, 0, 0, 0, 0, 0]);
    expected.extend([1, 0, 0, 0, 0, 0, 0, 0]);
    expected.extend(b"n");
    expected.extend([2, 0, 0, 0, 0, 0, 0, 0]);
    assert_eq!(payload_of(&encode_message(&msg).unwrap()), expected);
}

#[test]
fn broken_payloads_are_refused() {
    match decode_message(&[1, 2]) {
        Err(EngineError::Serialization(t)) => assert!(t.starts_with("gossip decode: ")),
        other => panic!("{other:?}"),
    }
    match decode_ack(&[]) {
        Err(EngineError::Serialization(t)) => assert!(t.starts_with("gossip decode: ")),
        other => panic!("{other:?}"),
    }
    match message_from_decoded(Err("no".into())) {
        Err(EngineError::Serialization(t)) => assert_eq!(t, "gossip decode: no"),
        other => panic!("{other:?}"),
    }
    match ack_from_decoded(Err("no".into())) {
        Err(EngineError::Serialization(t)) => assert_eq!(t, "gossip decode: no"),
        other => panic!("{other:?}"),
    }
    let payload = payload_of(&encode_message(&message()).unwrap());
    for n in 0..payload.len() {
        assert!(decode_message(&payload[..n]).is_err(), "{n} bytes");
    }
    let ack = GossipAck { from_node_id: "b".into(), merged_count: 3 };
    let payload = payload_of(&encode_ack(&ack).unwrap());
    for n in 0..payload.len() {
        assert!(decode_ack(&payload[..n]).is_err(), "{n} bytes");
    }
    // A text that is not UTF-8.
    let mut bad = vec![1, 0, 0, 0, 0, 0, 0, 0, 0xff];
    bad.extend([0; 8]);
    assert!(decode_ack(&bad).is_err());
}

// ── Rounds ─────────────────────────────────────────────────────────────────

#[test]
fn seeds_of_the_configuration_are_registered() {
    let mut peers = PeerTable::new();
    let seeds = vec!["127.0.0.1:7073".to_string(), "".to_string()];
    let m = GossipManager::new(config("n", 7071, seeds, 3), &mut peers);
    assert_eq!(m.generation, 0);
    assert_eq!(peers.len(), 1);
    assert_eq!(peers.get("127.0.0.1:7073").unwrap().gossip_addr, "127.0.0.1:7073");
}

#[test]
fn pushes_hold_only_what_is_new() {
    let now = Instant::now();
    let mut store = StateStore::new("node-a".into(), 8);
    store.set_at("old".into(), "1".into(), 10);
    store.set_at("new".into(), "2".into(), 20);
    let mut m = GossipManager::new(config("node-a", 7071, vec![], 3), &mut PeerTable::new());
    m.generation = 5;
    let mut synced = PeerInfo::new_at("h:1".into(), now);
    synced.record_exchange_at(10, now);
    let mut current = PeerInfo::new_at("h:2".into(), now);
    current.record_exchange_at(20, now);
    let fresh = PeerInfo::new_at("h:3".into(), now);
    let targets = vec![
        ("synced".to_string(), synced),
        ("current".to_string(), current),
        ("fresh".to_string(), fresh),
    ];
    let pushes = m.pushes_to(&targets, &store);
    assert_eq!(m.generation, 6);
    assert_eq!(pushes.len(), 2);
    assert_eq!((pushes[0].peer_id.as_str(), pushes[0].addr.as_str()), ("synced", "h:1"));
    assert_eq!(pushes[0].message.from_node_id, "node-a");
    assert_eq!(pushes[0].message.from_gossip_addr, "127.0.0.1:7071");
    assert_eq!(pushes[0].message.generation, 5);
    assert_eq!(pushes[0].message.deltas, vec![("new".to_string(), lww("2", 20, "node-a"))]);
    assert_eq!(pushes[0].max_sent_ts, 20);
    assert_eq!(pushes[1].peer_id, "fresh");
    assert_eq!(sorted(pushes[1].message.deltas.clone()), sorted(store.snapshot()));
}

#[test]
fn a_new_peer_is_contacted_even_with_nothing_to_say() {
    let now = Instant::now();
    let store = StateStore::new("node-a".into(), 8);
    let mut m = GossipManager::new(config("node-a", 7071, vec![], 3), &mut PeerTable::new());
    let fresh = vec![("p".to_string(), PeerInfo::new_at("h:3".into(), now))];
    let pushes = m.pushes_to(&fresh, &store);
    assert_eq!(pushes.len(), 1);
    assert!(pushes[0].message.deltas.is_empty());
    assert_eq!(pushes[0].max_sent_ts, 0);
    let mut met = PeerInfo::new_at("h:3".into(), now);
    met.mark_seen_at(now);
    assert!(m.pushes_to(&vec![("p".to_string(), met)], &store).is_empty());
    // The skipped round counts, one without targets does not.
    assert_eq!(m.generation, 2);
    assert!(m.pushes_to(&vec![], &store).is_empty());
    assert_eq!(m.generation, 2);
    m.generation = u64::MAX;
    m.pushes_to(&fresh, &store);
    assert_eq!(m.generation, 0);
}

#[test]
fn a_round_contacts_as_many_peers_as_the_fanout_says() {
    let store = StateStore::new("node-a".into(), 8);
    let seeds: Vec<String> = (0..8).map(|i| format!("h:{i}")).collect();
    let mut reached: Vec<String> = Vec::new();
    let mut orders: Vec<Vec<String>> = Vec::new();
    for _ in 0..200 {
        let mut peers = PeerTable::new();
        let mut m = GossipManager::new(config("node-a", 7071, seeds.clone(), 3), &mut peers);
        let pushes = m.gossip_round(&store, &peers);
        let ids: Vec<String> = pushes.iter().map(|p| p.peer_id.clone()).collect();
        assert_eq!(ids.len(), 3);
        assert!(ids[0] != ids[1] && ids[1] != ids[2] && ids[0] != ids[2]);
        assert_eq!(m.generation, 1);
        for id in &ids {
            if !reached.contains(id) {
                reached.push(id.clone());
            }
        }
        if !orders.contains(&ids) {
            orders.push(ids);
        }
    }
    // Chance reaches everyone sooner or later, in changing order.
    assert_eq!(reached.len(), 8);
    assert!(orders.len() > 8);
}

#[test]
fn a_wide_fanout_reaches_everyone() {
    let store = StateStore::new("node-a".into(), 8);
    let seeds: Vec<String> = (0..5).map(|i| format!("h:{i}")).collect();
    let mut peers = PeerTable::new();
    let mut m = GossipManager::new(config("node-a", 7071, seeds.clone(), 9), &mut peers);
    let mut ids: Vec<String> =
        m.gossip_round(&store, &peers).iter().map(|p| p.peer_id.clone()).collect();
    ids.sort();
    assert_eq!(ids, seeds);
    let mut none = GossipManager::new(config("node-a", 7071, seeds, 0), &mut PeerTable::new());
    assert!(none.gossip_round(&store, &peers).is_empty());
    assert_eq!(none.generation, 0);
}

#[test]
fn inbound_messages_are_merged_and_acknowledged() {
    let mut store = StateStore::new("node-b".into(), 8);
    store.set_at("l".into(), "newer".into(), 99);
    let mut peers = PeerTable::new();
    let mut rx = store.subscribe();
    let ack = handle_inbound(message(), &mut store, &mut peers);
    assert_eq!((ack.from_node_id.as_str(), ack.merged_count), ("node-b", 1));
    assert_eq!(store.get("k"), Some(lww("v", 9, "node-a")));
    assert_eq!(store.get("l"), Some(lww("newer", 99, "node-b")));
    assert_eq!(rx.try_recv().unwrap().key, "k");
    let p = peers.get("node-a").unwrap();
    assert_eq!((p.gossip_addr.as_str(), p.exchange_count), ("127.0.0.1:7071", 1));
    // Nothing was sent to the peer yet.
    assert_eq!(p.last_sync_ts, 0);
}

// ── Clusters, without the network ──────────────────────────────────────────

struct Node {
    addr: String,
    store: StateStore,
    peers: PeerTable,
    manager: GossipManager,
}

impl Node {
    fn start(node_id: &str, port: u16, seeds: Vec<String>) -> Node {
        let mut peers = PeerTable::new();
        let manager = GossipManager::new(config(node_id, port, seeds, 3), &mut peers);
        Node {
            addr: format!("127.0.0.1:{port}"),
            store: StateStore::new(node_id.into(), 256),
            peers,
            manager,
        }
    }

    fn value(&self, key: &str) -> Option<String> {
        self.store.get(key).map(|v| v.value)
    }
}

/// One round of the node `i`, over the real wire format.
fn contact(nodes: &mut Vec<Node>, i: usize) {
    let n = &mut nodes[i];
    let pushes: Vec<Push> = n.manager.gossip_round(&n.store, &n.peers);
    for push in pushes {
        let frame = encode_message(&push.message).unwrap();
        let msg = decode_message(&payload_of(&frame)).unwrap();
        let Some(j) = nodes.iter().position(|t| t.addr == push.addr) else { continue };
        let to = &mut nodes[j];
        let ack = handle_inbound(msg, &mut to.store, &mut to.peers);
        assert_eq!(ack.from_node_id, to.store.node_id());
        push_acknowledged(&mut nodes[i].peers, push.peer_id, push.addr, push.max_sent_ts);
    }
}

/// One round on every node.
fn round(nodes: &mut Vec<Node>) {
    for i in 0..nodes.len() {
        contact(nodes, i);
    }
}

fn converges(nodes: &mut Vec<Node>, done: impl Fn(&Vec<Node>) -> bool) {
    for _ in 0..50 {
        if done(nodes) {
            return;
        }
        round(nodes);
    }
    panic!("no convergence");
}

fn hub(n: u16) -> Vec<Node> {
    (0..n)
        .map(|i| {
            let seeds = if i == 0 { vec![] } else { vec!["127.0.0.1:19000".to_string()] };
            Node::start(&format!("node-{i}"), 19000 + i, seeds)
        })
        .collect()
}

#[test]
fn a_write_reaches_the_other_node() {
    let mut nodes = hub(2);
    round(&mut nodes);
    nodes[0].store.set("hello".into(), "world".into());
    converges(&mut nodes, |ns| ns[1].value("hello") == Some("world".into()));
}

#[test]
fn a_write_on_the_hub_reaches_everyone() {
    let mut nodes = hub(5);
    round(&mut nodes);
    nodes[0].store.set("hub-key".into(), "hub-value".into());
    converges(&mut nodes, |ns| {
        ns.iter().all(|n| n.value("hub-key") == Some("hub-value".into()))
    });
}

#[test]
fn writes_on_different_nodes_meet() {
    let mut nodes = hub(3);
    for (i, k) in ["a", "b", "c"].iter().enumerate() {
        nodes[i].store.set_at(format!("key-{k}"), format!("val-{k}"), 100);
    }
    converges(&mut nodes, |ns| {
        ns.iter().all(|n| {
            ["a", "b", "c"].iter().all(|k| n.value(&format!("key-{k}")) == Some(format!("val-{k}")))
        })
    });
}

#[test]
fn the_later_of_two_conflicting_writes_wins_everywhere() {
    let mut nodes = hub(2);
    nodes[0].store.set_at("conflict".into(), "from-a".into(), 1_000);
    nodes[1].store.set_at("conflict".into(), "from-b".into(), 6_000);
    converges(&mut nodes, |ns| {
        ns.iter().all(|n| n.value("conflict") == Some("from-b".into()))
    });
    for _ in 0..5 {
        round(&mut nodes);
        assert_eq!(nodes[0].value("conflict"), Some("from-b".into()));
        assert_eq!(nodes[1].value("conflict"), Some("from-b".into()));
    }
}

#[test]
fn an_old_write_never_comes_back() {
    let mut nodes = hub(2);
    nodes[1].store.set_at("monotone".into(), "old".into(), 1_000);
    nodes[0].store.set_at("monotone".into(), "new".into(), 6_000);
    converges(&mut nodes, |ns| ns[1].value("monotone") == Some("new".into()));
    for _ in 0..5 {
        round(&mut nodes);
        assert_eq!(nodes[0].value("monotone"), Some("new".into()));
        assert_eq!(nodes[1].value("monotone"), Some("new".into()));
    }
}

#[test]
fn a_quiet_cluster_has_converged() {
    let mut nodes = hub(4);
    for i in 0..4 {
        nodes[i].store.set_at(format!("own-{i}"), format!("{i}"), 100 + i as u64);
        nodes[i].store.set_at("shared".into(), format!("from-{i}"), 200);
    }
    for _ in 0..50 {
        round(&mut nodes);
    }
    for n in nodes.iter_mut() {
        assert!(n.manager.gossip_round(&n.store, &n.peers).is_empty());
    }
    let state = sorted(nodes[0].store.snapshot());
    assert_eq!(state.len(), 5);
    // The writes to one key at one time: the highest writer wins.
    assert_eq!(nodes[0].value("shared"), Some("from-3".into()));
    for n in &nodes {
        assert_eq!(sorted(n.store.snapshot()), state);
    }
}

#[test]
fn one_sweep_around_the_hub_is_enough() {
    let mut nodes = hub(4);
    // Everyone gets to know the hub, and the hub everyone.
    round(&mut nodes);
    for i in 0..4 {
        nodes[i].store.set_at(format!("own-{i}"), format!("{i}"), 100 + i as u64);
        nodes[i].store.set_at("shared".into(), format!("from-{i}"), 200 + i as u64);
    }
    // The members contact the hub, and then the hub contacts them.
    for i in [1, 2, 3, 0] {
        contact(&mut nodes, i);
    }
    let state = sorted(nodes[0].store.snapshot());
    assert_eq!(state.len(), 5);
    for n in &nodes {
        assert_eq!(sorted(n.store.snapshot()), state);
        assert_eq!(n.value("shared"), Some("from-3".into()));
    }
}

#[test]
fn an_entry_that_arrives_late_is_not_sent_on() {
    let mut nodes = hub(3);
    round(&mut nodes);
    round(&mut nodes);
    // The hub has sent a later entry by the time it learns of an earlier one.
    nodes[0].store.set_at("late-hub".into(), "x".into(), 300);
    contact(&mut nodes, 0);
    nodes[1].store.set_at("early".into(), "y".into(), 100);
    for _ in 0..5 {
        round(&mut nodes);
    }
    assert_eq!(nodes[0].value("early"), Some("y".into()));
    assert_eq!(nodes[2].value("late-hub"), Some("x".into()));
    assert_eq!(nodes[2].value("early"), None);
    // Once it reaches the peer on another way, all are in the same state.
    let delta = nodes[1].store.snapshot();
    nodes[2].store.merge_delta(delta);
    round(&mut nodes);
    let state = sorted(nodes[0].store.snapshot());
    for n in &nodes {
        assert_eq!(sorted(n.store.snapshot()), state);
    }
}
