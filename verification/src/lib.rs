//! Parlance: peer-to-peer messaging over a local network.
//!
//! Peers discover one another through announcements multicast on the local
//! network and exchange direct text messages over stream connections. This
//! crate holds the protocol logic: the wire codecs with their round-trip
//! laws, the peer directory with expiry, nickname validation, command
//! parsing, and the decision rules the network engines act on.

pub mod codec;
pub mod command;
pub mod config;
pub mod discovery;
pub mod error;
pub mod messaging;
pub mod peer;
pub mod text;
pub mod validation;
