//! Tests of the peer directory, peer identity, and the engine decision
//! rules: identity collapse, sweeps, self-suppression, send lookup, and the
//! empty-to-empty lifecycle of a record.

use parlance::discovery::{handle_datagram, DiscoveryAction};
use parlance::error::ParlanceError;
use parlance::messaging::prepare_send;
use parlance::peer::{Peer, PeerAddr, PeerId, PeerRegistry};

#[test]
fn test_same_address_same_identity() {
    let addr = PeerAddr { ip: 0x0A000001, port: 9000 };
    let p1 = Peer::new("Alice".to_string(), addr, 1_000);
    let p2 = Peer::new("Alice".to_string(), addr, 2_000);
    assert_eq!(p1.id, p2.id);
}

#[test]
fn test_distinct_addresses_distinct_identity() {
    let a1 = PeerAddr { ip: 0x0A000001, port: 9000 };
    let a2 = PeerAddr { ip: 0x0A000002, port: 9000 };
    let a3 = PeerAddr { ip: 0x0A000001, port: 9001 };
    let id1 = PeerId::from_addr(&a1);
    let id2 = PeerId::from_addr(&a2);
    let id3 = PeerId::from_addr(&a3);
    assert_ne!(id1, id2);
    assert_ne!(id1, id3);
    assert_ne!(id2, id3);
}

#[test]
fn test_upsert_same_address_collapses() {
    let mut registry = PeerRegistry::new();
    let addr = PeerAddr { ip: 0x0A000001, port: 9000 };
    registry.upsert(Peer::new("Alice".to_string(), addr, 1_000));
    registry.upsert(Peer::new("Alice".to_string(), addr, 2_000));
    assert_eq!(registry.count(), 1);

    let other = PeerAddr { ip: 0x0A000002, port: 9000 };
    registry.upsert(Peer::new("Bob".to_string(), other, 2_000));
    assert_eq!(registry.count(), 2);
}

#[test]
fn test_directory_lifecycle() {
    // Empty directory: one announcement creates the record.
    let mut registry = PeerRegistry::new();
    assert_eq!(registry.count(), 0);

    let addr = PeerAddr { ip: 0x0A000001, port: 9000 };
    registry.upsert(Peer::new("Alice".to_string(), addr, 1_000));

    let peers = registry.get_all();
    assert_eq!(peers.len(), 1);
    assert_eq!(peers[0].nickname, "Alice");

    // A second announcement a second later refreshes, not duplicates.
    registry.upsert(Peer::new("Alice".to_string(), addr, 2_000));
    let peers = registry.get_all();
    assert_eq!(peers.len(), 1);
    assert_eq!(peers[0].last_seen, 2_000);

    // A sweep with a zero timeout removes it.
    let removed = registry.remove_timed_out(0, 2_001);
    assert_eq!(removed.len(), 1);
    assert!(registry.get_all().is_empty());
}

#[test]
fn test_sweep_boundary() {
    let mut registry = PeerRegistry::new();
    let a1 = PeerAddr { ip: 0x0A000001, port: 9000 };
    let a2 = PeerAddr { ip: 0x0A000002, port: 9000 };

    // Last seen 15 000 ms ago: exactly at the timeout, not beyond it.
    registry.upsert(Peer::new("Edge".to_string(), a1, 5_000));
    // Last seen 15 001 ms ago: beyond the timeout.
    registry.upsert(Peer::new("Gone".to_string(), a2, 4_999));

    let removed = registry.remove_timed_out(15_000, 20_000);
    assert_eq!(removed.len(), 1);
    assert_eq!(removed[0].nickname, "Gone");

    let peers = registry.get_all();
    assert_eq!(peers.len(), 1);
    assert_eq!(peers[0].nickname, "Edge");
}

#[test]
fn test_self_announce_suppressed() {
    let json = r#"{"type":"announce","nickname":"Me","tcp_port":9000}"#;
    let action = handle_datagram("Me", json, 0x0A000001, 1_000);
    assert!(matches!(action, DiscoveryAction::SelfAnnounce));
}

#[test]
fn test_foreign_announce_adds_peer() {
    let json = r#"{"type":"announce","nickname":"Bob","tcp_port":9090}"#;
    let action = handle_datagram("Me", json, 0x0A000002, 1_000);
    match action {
        DiscoveryAction::AddPeer(p) => {
            assert_eq!(p.nickname, "Bob");
            assert_eq!(p.addr, PeerAddr { ip: 0x0A000002, port: 9090 });
            assert_eq!(p.last_seen, 1_000);
        }
        _ => panic!("announcement from another peer should add it"),
    }
}

#[test]
fn test_goodbye_leaves_directory_to_sweep() {
    let json = r#"{"type":"goodbye","nickname":"Bob"}"#;
    let action = handle_datagram("Me", json, 0x0A000002, 1_000);
    match action {
        DiscoveryAction::GoodbyeFrom(n) => assert_eq!(n, "Bob"),
        _ => panic!("a goodbye only names the departing peer"),
    }
}

#[test]
fn test_unknown_tag_is_malformed() {
    let json = r#"{"type":"announcement","nickname":"Bob","tcp_port":9090}"#;
    let action = handle_datagram("Me", json, 0x0A000002, 1_000);
    assert!(matches!(action, DiscoveryAction::Malformed));
}

#[test]
fn test_garbage_datagram_is_malformed() {
    let action = handle_datagram("Me", "not json at all", 0x0A000002, 1_000);
    assert!(matches!(action, DiscoveryAction::Malformed));
}

#[test]
fn test_send_to_unknown_peer_fails() {
    let peers: Vec<Peer> = Vec::new();
    let result = prepare_send(&peers, "Bob");
    match result {
        Err(ParlanceError::PeerNotFound(n)) => assert_eq!(n, "Bob"),
        _ => panic!("an absent nickname must report peer-not-found"),
    }
}

#[test]
fn test_send_finds_first_match() {
    let a1 = PeerAddr { ip: 0x0A000001, port: 9000 };
    let a2 = PeerAddr { ip: 0x0A000002, port: 9001 };
    let peers = vec![
        Peer::new("Alice".to_string(), a1, 1_000),
        Peer::new("Bob".to_string(), a2, 1_000),
    ];
    let addr = prepare_send(&peers, "Bob").unwrap();
    assert_eq!(addr, a2);
}

#[test]
fn test_addr_display_form() {
    let addr = PeerAddr { ip: 0x0A000001, port: 9000 };
    assert_eq!(addr.to_text(), "10.0.0.1:9000");
    let lo = PeerAddr { ip: 0x7F000001, port: 65535 };
    assert_eq!(lo.to_text(), "127.0.0.1:65535");
}

#[test]
fn test_registry_get_and_remove_missing() {
    let mut registry = PeerRegistry::new();
    let addr = PeerAddr { ip: 0x0A000001, port: 9000 };
    let id = PeerId::from_addr(&addr);
    assert!(registry.get(&id).is_none());
    registry.remove(&id);
    assert_eq!(registry.count(), 0);
}

#[test]
fn test_upsert_reports_new_peer() {
    let mut registry = PeerRegistry::new();
    let addr = PeerAddr { ip: 0x0A000001, port: 9000 };
    assert!(registry.upsert(Peer::new("Alice".to_string(), addr, 1_000)));
    assert!(!registry.upsert(Peer::new("Alice".to_string(), addr, 2_000)));

    let other = PeerAddr { ip: 0x0A000002, port: 9000 };
    assert!(registry.upsert(Peer::new("Bob".to_string(), other, 2_000)));
}

#[test]
fn test_sweep_returns_each_record_once() {
    let mut registry = PeerRegistry::new();
    for port in 9000u16..9008 {
        let addr = PeerAddr { ip: 0x0A000001, port };
        registry.upsert(Peer::new(format!("peer{}", port), addr, 1_000));
    }
    let removed = registry.remove_timed_out(0, 2_000);
    assert_eq!(removed.len(), 8);
    for i in 0..removed.len() {
        for j in (i + 1)..removed.len() {
            assert_ne!(removed[i].id, removed[j].id);
        }
    }
    assert_eq!(registry.count(), 0);
}
