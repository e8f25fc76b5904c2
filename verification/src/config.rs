//! A client's configuration.

use vstd::prelude::*;

use crate::p2p::SockAddr;

verus! {

/// A peer's configuration: timer intervals, the karma ceiling, seed peers,
/// and the port to run on.
pub struct Config {
    /// The time to wait, in seconds, between asking peers for their peers.
    pub discovery_peer_interval: u64,
    /// The time to wait, in seconds, between sending discovery pings.
    pub discovery_ping_interval: u64,
    /// The maximum karma value a peer can reach before it needs
    /// re-verification.
    pub max_karma: usize,
    /// The time to wait, in seconds, between asking peers for status
    /// updates.
    pub status_check_interval: u64,
    /// A list of peers to connect to at startup.
    pub peers: Vec<SockAddr>,
    /// The port to run on.
    pub port: u16,
}

impl Default for Config {
    /// The default configuration: peer discovery every 60 seconds, status
    /// checks every 30, a karma ceiling of 10, no seed peers, and port
    /// 10101.
    fn default() -> (c: Config)
        ensures
            c.discovery_peer_interval == 60,
            c.discovery_ping_interval == 60,
            c.max_karma == 10,
            c.status_check_interval == 30,
            c.peers@.len() == 0,
            c.port == 10101,
    {
        Config {
            discovery_peer_interval: 60,
            discovery_ping_interval: 60,
            max_karma: 10,
            status_check_interval: 30,
            peers: Vec::new(),
            port: 10101,
        }
    }
}

} // verus!
