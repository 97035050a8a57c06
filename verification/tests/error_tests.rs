//! Integration tests for error handling.

use parlance::discovery::DiscoveryMessage;
use parlance::error::ParlanceError;

#[test]
fn test_peer_not_found_error() {
    let err = ParlanceError::PeerNotFound("Alice".to_string());
    let error_msg = err.message();

    assert!(error_msg.contains("Peer not found"));
    assert!(error_msg.contains("Alice"));
}

#[test]
fn test_bind_error() {
    let err = ParlanceError::BindError {
        address: "0.0.0.0:8080".to_string(),
        source: "Address in use".to_string(),
    };

    let error_msg = err.message();
    assert!(error_msg.contains("Failed to bind"));
    assert!(error_msg.contains("0.0.0.0:8080"));
}

#[test]
fn test_multicast_join_error() {
    let err = ParlanceError::MulticastJoinError {
        group: "239.255.255.250".to_string(),
        source: "Permission denied".to_string(),
    };

    let error_msg = err.message();
    assert!(error_msg.contains("Failed to join multicast group"));
    assert!(error_msg.contains("239.255.255.250"));
}

#[test]
fn test_channel_send_error() {
    let err = ParlanceError::ChannelSendError;
    let error_msg = err.message();

    assert!(error_msg.contains("Channel send error"));
    assert!(error_msg.contains("channel closed"));
}

#[test]
fn test_config_error() {
    let err = ParlanceError::ConfigError("Invalid configuration".to_string());
    let error_msg = err.message();

    assert!(error_msg.contains("Configuration error"));
    assert!(error_msg.contains("Invalid configuration"));
}

#[test]
fn test_serialization_error() {
    let invalid_json = "{invalid json}";
    let result = DiscoveryMessage::decode(invalid_json);

    assert!(result.is_err());

    let err = result.unwrap_err();
    let error_msg = err.message();

    assert!(error_msg.contains("Serialization error"));
}

#[test]
fn test_network_error_from_io() {
    let err = ParlanceError::Network("Connection refused".to_string());

    let error_msg = err.message();
    assert!(error_msg.contains("Network error"));
}

#[test]
fn test_error_debug_format() {
    let err = ParlanceError::PeerNotFound("TestPeer".to_string());

    let debug_str = format!("{:?}", err);
    assert!(debug_str.contains("PeerNotFound"));
    assert!(debug_str.contains("TestPeer"));
}
