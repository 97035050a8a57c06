//! Integration tests for peer management.

use parlance::peer::{Peer, PeerAddr, PeerRegistry};

/// Milliseconds before a silent peer is considered gone in these tests.
const TEST_TIMEOUT_MS: u64 = 15_000;

/// A loopback address with the given port.
fn test_addr(port: u16) -> PeerAddr {
    PeerAddr { ip: 0x7F000001, port }
}

#[test]
fn test_peer_registry_upsert() {
    let mut registry = PeerRegistry::new();
    let addr = test_addr(8080);
    let peer = Peer::new("Alice".to_string(), addr, 1_000);

    registry.upsert(peer);

    let peers = registry.get_all();
    assert_eq!(peers.len(), 1);
    assert_eq!(peers[0].nickname, "Alice");
}

#[test]
fn test_peer_registry_multiple_peers() {
    let mut registry = PeerRegistry::new();

    let addr1 = test_addr(8080);
    let peer1 = Peer::new("Alice".to_string(), addr1, 1_000);

    let addr2 = test_addr(8081);
    let peer2 = Peer::new("Bob".to_string(), addr2, 1_000);

    registry.upsert(peer1);
    registry.upsert(peer2);

    let peers = registry.get_all();
    assert_eq!(peers.len(), 2);
}

#[test]
fn test_peer_registry_update_existing() {
    let mut registry = PeerRegistry::new();
    let addr = test_addr(8080);

    let peer1 = Peer::new("Alice".to_string(), addr, 1_000);
    registry.upsert(peer1);

    let peer2 = Peer::new("AliceUpdated".to_string(), addr, 2_000);
    registry.upsert(peer2);

    let peers = registry.get_all();
    assert_eq!(peers.len(), 1);
    assert_eq!(peers[0].nickname, "AliceUpdated");
}

#[test]
fn test_peer_timeout() {
    let mut registry = PeerRegistry::new();
    let addr = test_addr(8080);
    let now = 20_000;

    let mut peer = Peer::new("Alice".to_string(), addr, now);

    peer.last_seen = now - TEST_TIMEOUT_MS - 1_000;

    registry.upsert(peer);

    let removed = registry.remove_timed_out(TEST_TIMEOUT_MS, now);

    assert_eq!(removed.len(), 1);
    assert_eq!(removed[0].nickname, "Alice");

    let peers = registry.get_all();
    assert_eq!(peers.len(), 0);
}

#[test]
fn test_peer_not_timed_out() {
    let mut registry = PeerRegistry::new();
    let addr = test_addr(8080);
    let now = 20_000;
    let peer = Peer::new("Alice".to_string(), addr, now);

    registry.upsert(peer);

    let removed = registry.remove_timed_out(TEST_TIMEOUT_MS, now);
    assert_eq!(removed.len(), 0);

    let peers = registry.get_all();
    assert_eq!(peers.len(), 1);
}

#[test]
fn test_peer_get_by_id() {
    let mut registry = PeerRegistry::new();
    let addr = test_addr(8080);
    let peer = Peer::new("Alice".to_string(), addr, 1_000);
    let peer_id = peer.id;

    registry.upsert(peer);

    let retrieved = registry.get(&peer_id);
    assert!(retrieved.is_some());
    assert_eq!(retrieved.unwrap().nickname, "Alice");
}

#[test]
fn test_peer_remove() {
    let mut registry = PeerRegistry::new();
    let addr = test_addr(8080);
    let peer = Peer::new("Alice".to_string(), addr, 1_000);
    let peer_id = peer.id;

    registry.upsert(peer);
    assert_eq!(registry.count(), 1);

    registry.remove(&peer_id);
    assert_eq!(registry.count(), 0);
}
