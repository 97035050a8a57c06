//! Error types for the peer-to-peer messaging crate.
//!
//! Every failure the protocol logic can report is a variant of
//! [`ParlanceError`]. Failure causes that originate outside the crate (socket
//! errors, bad configuration files) are carried as plain strings.

use vstd::prelude::*;
use vstd::string::StringExecFns;

verus! {

/// Main error type for the messaging system.
///
/// The enum covers every error condition that can occur during peer
/// discovery, messaging, and network operations.
#[derive(Debug, Clone, PartialEq, Eq)]
pub enum ParlanceError {
    /// Network I/O error occurred
    Network(String),
    /// Wire-format encoding or decoding error
    Serialization(String),
    /// Peer with the given nickname was not found
    PeerNotFound(String),
    /// Failed to bind to a network address
    BindError { address: String, source: String },
    /// Failed to join a multicast group
    MulticastJoinError { group: String, source: String },
    /// Invalid message format received
    InvalidMessage(String),
    /// Internal event channel closed
    ChannelSendError,
    /// Configuration error
    ConfigError(String),
    /// UTF-8 conversion error
    Utf8Error(String),
}

/// The human-readable rendering of an error, as a sequence of characters.
pub open spec fn spec_message(e: ParlanceError) -> Seq<char> {
    match e {
        ParlanceError::Network(s) => "Network error: "@ + s@,
        ParlanceError::Serialization(s) => "Serialization error: "@ + s@,
        ParlanceError::PeerNotFound(s) => "Peer not found: "@ + s@,
        ParlanceError::BindError { address, source } => "Failed to bind to "@ + address@ + ": "@
            + source@,
        ParlanceError::MulticastJoinError { group, source } => "Failed to join multicast group "@
            + group@ + ": "@ + source@,
        ParlanceError::InvalidMessage(s) => "Invalid message format: "@ + s@,
        ParlanceError::ChannelSendError => "Channel send error: channel closed"@,
        ParlanceError::ConfigError(s) => "Configuration error: "@ + s@,
        ParlanceError::Utf8Error(s) => "UTF-8 error: "@ + s@,
    }
}

impl ParlanceError {
    /// Renders the error as a human-readable message.
    pub fn message(&self) -> (r: String)
        ensures
            r@ == spec_message(*self),
    {
        match self {
            ParlanceError::Network(s) => {
                let mut m = String::from_str("Network error: ");
                m.append(s.as_str());
                m
            },
            ParlanceError::Serialization(s) => {
                let mut m = String::from_str("Serialization error: ");
                m.append(s.as_str());
                m
            },
            ParlanceError::PeerNotFound(s) => {
                let mut m = String::from_str("Peer not found: ");
                m.append(s.as_str());
                m
            },
            ParlanceError::BindError { address, source } => {
                let mut m = String::from_str("Failed to bind to ");
                m.append(address.as_str());
                m.append(": ");
                m.append(source.as_str());
                m
            },
            ParlanceError::MulticastJoinError { group, source } => {
                let mut m = String::from_str("Failed to join multicast group ");
                m.append(group.as_str());
                m.append(": ");
                m.append(source.as_str());
                m
            },
            ParlanceError::InvalidMessage(s) => {
                let mut m = String::from_str("Invalid message format: ");
                m.append(s.as_str());
                m
            },
            ParlanceError::ChannelSendError => String::from_str(
                "Channel send error: channel closed",
            ),
            ParlanceError::ConfigError(s) => {
                let mut m = String::from_str("Configuration error: ");
                m.append(s.as_str());
                m
            },
            ParlanceError::Utf8Error(s) => {
                let mut m = String::from_str("UTF-8 error: ");
                m.append(s.as_str());
                m
            },
        }
    }
}

} // verus!
