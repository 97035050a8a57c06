//! Tests for configuration defaults and accessors.

use parlance::config::{
    default_announce_interval_secs, default_peer_timeout_secs, AppConfig, Config,
};

#[test]
fn test_config_defaults() {
    let config = Config::default();
    assert_eq!(config.peer.timeout_secs, 15);
    assert_eq!(config.peer.announce_interval_secs, 5);
    assert_eq!(default_peer_timeout_secs(), 15);
    assert_eq!(default_announce_interval_secs(), 5);
}

#[test]
fn test_config_accessors() {
    let mut config = Config::default();
    config.peer.timeout_secs = 30;
    config.peer.announce_interval_secs = 10;
    assert_eq!(config.peer_timeout(), 30);
    assert_eq!(config.announce_interval(), 10);
}

#[test]
fn test_app_config_new() {
    let app = AppConfig::new("alice".to_string());
    assert_eq!(app.nickname, "alice");
    assert_eq!(app.tcp_port, 0);
}
