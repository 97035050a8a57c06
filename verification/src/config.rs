//! Application configuration.
//!
//! The configurable knobs of the system: how often a peer announces itself,
//! how long a silent peer is kept, and the port the messaging listener asks
//! for. Loading these from a file is a collaborator's concern; the core works
//! on the plain values.

use vstd::prelude::*;

verus! {

/// Peer behavior configuration.
#[derive(Debug, Clone, Copy, PartialEq, Eq, Structural)]
pub struct PeerConfig {
    /// Seconds before a silent peer is considered offline.
    pub timeout_secs: u64,
    /// Seconds between presence announcements.
    pub announce_interval_secs: u64,
}

/// The default peer timeout, in seconds.
pub fn default_peer_timeout_secs() -> (r: u64)
    ensures
        r == 15,
{
    15
}

/// The default announcement interval, in seconds.
pub fn default_announce_interval_secs() -> (r: u64)
    ensures
        r == 5,
{
    5
}

impl Default for PeerConfig {
    /// The default peer behavior: a 15-second timeout and announcements
    /// every 5 seconds.
    fn default() -> (r: Self)
        ensures
            r.timeout_secs == 15,
            r.announce_interval_secs == 5,
    {
        PeerConfig {
            timeout_secs: default_peer_timeout_secs(),
            announce_interval_secs: default_announce_interval_secs(),
        }
    }
}

/// Complete application configuration.
#[derive(Debug, Clone, Copy, PartialEq, Eq, Structural)]
pub struct Config {
    pub peer: PeerConfig,
}

impl Default for Config {
    /// The default configuration.
    fn default() -> (r: Self)
        ensures
            r.peer.timeout_secs == 15,
            r.peer.announce_interval_secs == 5,
    {
        Config { peer: PeerConfig::default() }
    }
}

impl Config {
    /// The peer timeout, in seconds.
    pub fn peer_timeout(&self) -> (r: u64)
        ensures
            r == self.peer.timeout_secs,
    {
        self.peer.timeout_secs
    }

    /// The announcement interval, in seconds.
    pub fn announce_interval(&self) -> (r: u64)
        ensures
            r == self.peer.announce_interval_secs,
    {
        self.peer.announce_interval_secs
    }
}

/// Per-instance settings: the local nickname and the requested messaging
/// port.
#[derive(Debug, Clone)]
pub struct AppConfig {
    /// The local nickname, validated before it reaches the core.
    pub nickname: String,
    /// The requested messaging port; zero asks the system for any free port.
    pub tcp_port: u16,
}

impl AppConfig {
    /// Creates a configuration with the given nickname, letting the system
    /// pick the messaging port.
    pub fn new(nickname: String) -> (r: AppConfig)
        ensures
            r.nickname@ == nickname@,
            r.tcp_port == 0,
    {
        AppConfig { nickname, tcp_port: 0 }
    }
}

} // verus!
