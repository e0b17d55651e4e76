use state_sync_engine::config::Config;
use state_sync_engine::error::EngineError;

fn config(node_id: Option<&str>) -> Config {
    Config {
        host: "127.0.0.1".to_string(),
        rpc_port: 7070,
        gossip_port: 7071,
        node_id: node_id.map(|s| s.to_string()),
        seed_peers: vec![],
        gossip_interval_ms: 1_000,
        gossip_fanout: 3,
        event_channel_capacity: 4_096,
    }
}

#[test]
fn addresses_are_host_and_port() {
    let c = config(None);
    assert_eq!(c.rpc_addr(), "127.0.0.1:7070");
    assert_eq!(c.gossip_addr(), "127.0.0.1:7071");
    let mut edge = config(None);
    edge.host = "::1".into();
    edge.rpc_port = 0;
    edge.gossip_port = 65535;
    assert_eq!(edge.rpc_addr(), "::1:0");
    assert_eq!(edge.gossip_addr(), "::1:65535");
}

#[test]
fn configured_node_id_is_kept() {
    assert_eq!(config(Some("node-1")).resolved_node_id(), "node-1");
    assert_eq!(config(Some("")).resolved_node_id(), "");
}

#[test]
fn missing_node_id_becomes_a_uuid() {
    let c = config(None);
    let a = c.resolved_node_id();
    let b = c.resolved_node_id();
    assert_ne!(a, b);
    for id in [a, b] {
        let cs: Vec<char> = id.chars().collect();
        assert_eq!(cs.len(), 36);
        for (i, ch) in cs.iter().enumerate() {
            if [8, 13, 18, 23].contains(&i) {
                assert_eq!(*ch, '-');
            } else {
                assert!(ch.is_ascii_digit() || ('a'..='f').contains(ch));
            }
        }
        assert_eq!(cs[14], '4');
        assert!(['8', '9', 'a', 'b'].contains(&cs[19]));
    }
}

#[test]
fn errors_say_what_kind_they_are() {
    let t = || "x".to_string();
    assert_eq!(EngineError::Io(t()).message(), "I/O error: x");
    assert_eq!(EngineError::Serialization(t()).message(), "Serialization error: x");
    assert_eq!(EngineError::Json(t()).message(), "JSON parse error: x");
    assert_eq!(EngineError::Peer(t()).message(), "Gossip peer error: x");
    assert_eq!(EngineError::MethodNotFound(t()).message(), "RPC method not found: x");
    assert_eq!(EngineError::InvalidParams(t()).message(), "Invalid RPC params: x");
    assert_eq!(EngineError::Internal(t()).message(), "Internal engine error: x");
}
