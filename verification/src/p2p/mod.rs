//! The peer-to-peer messaging layer under the blockchain: socket addresses,
//! peer records, and the wire messages with their codec.

mod message;
pub mod parse;
mod serialize;

use vstd::prelude::*;

use crate::util::bytes_eq;

pub use message::{Message, MessageView};

verus! {

/// A socket address as it travels on the wire: an IPv4 or IPv6 address and
/// a port.
#[derive(Clone, Copy, Debug, PartialEq, Eq)]
pub enum SockAddr {
    /// An IPv4 address and port.
    V4([u8; 4], u16),
    /// An IPv6 address and port. Flow information and scope are not
    /// carried.
    V6([u8; 16], u16),
}

/// The mathematical content of a socket address.
pub ghost enum AddrView {
    /// An IPv4 address (4 bytes) and port.
    V4(Seq<u8>, u16),
    /// An IPv6 address (16 bytes) and port.
    V6(Seq<u8>, u16),
}

impl View for SockAddr {
    type V = AddrView;

    open spec fn view(&self) -> AddrView {
        match self {
            SockAddr::V4(ip, port) => AddrView::V4(ip@, *port),
            SockAddr::V6(ip, port) => AddrView::V6(ip@, *port),
        }
    }
}

impl SockAddr {
    /// Whether two addresses are equal.
    pub fn same_as(&self, other: &SockAddr) -> (r: bool)
        ensures
            r == (self@ == other@),
    {
        match (self, other) {
            (SockAddr::V4(ip_a, port_a), SockAddr::V4(ip_b, port_b)) => {
                bytes_eq(ip_a.as_slice(), ip_b.as_slice()) && *port_a == *port_b
            },
            (SockAddr::V6(ip_a, port_a), SockAddr::V6(ip_b, port_b)) => {
                bytes_eq(ip_a.as_slice(), ip_b.as_slice()) && *port_a == *port_b
            },
            _ => false,
        }
    }
}

/// The state of a peer.
#[derive(Clone, Copy, Debug, PartialEq, Eq)]
pub enum PeerState {
    /// This peer might exist; we don't know.
    Speculative,
    /// This peer exists, but might be on a different blockchain from us.
    Existent,
    /// This peer exists and is on the same blockchain as us; its advertised
    /// tip index and tip hash are the parameters.
    Confirmed(u64, crate::blockchain::Hash),
    /// The peer is on another blockchain or is blocked for other reasons.
    Ignore,
}

/// The mathematical content of a peer state.
pub ghost enum PeerStateView {
    /// This peer might exist.
    Speculative,
    /// This peer exists.
    Existent,
    /// This peer is on the same blockchain; tip index and tip hash.
    Confirmed(u64, Seq<u8>),
    /// The peer is ignored.
    Ignore,
}

impl View for PeerState {
    type V = PeerStateView;

    open spec fn view(&self) -> PeerStateView {
        match self {
            PeerState::Speculative => PeerStateView::Speculative,
            PeerState::Existent => PeerStateView::Existent,
            PeerState::Confirmed(i, h) => PeerStateView::Confirmed(*i, h@),
            PeerState::Ignore => PeerStateView::Ignore,
        }
    }
}

/// Information about a peer.
#[derive(Clone, Copy, Debug, PartialEq, Eq)]
pub struct Peer {
    /// The peer's address.
    pub addr: SockAddr,
    /// The peer's karma: the count of datagrams we owe it an answer for.
    /// Receiving a datagram from the peer lowers it, saturating at 0.
    pub karma: usize,
    /// The peer's state.
    pub state: PeerState,
}

/// The mathematical content of a peer record.
pub ghost struct PeerView {
    /// The peer's address.
    pub addr: AddrView,
    /// The peer's karma.
    pub karma: usize,
    /// The peer's state.
    pub state: PeerStateView,
}

impl View for Peer {
    type V = PeerView;

    open spec fn view(&self) -> PeerView {
        PeerView { addr: self.addr@, karma: self.karma, state: self.state@ }
    }
}

impl Peer {
    /// Creates a new peer in the `Speculative` state with no karma.
    pub fn new(addr: SockAddr) -> (p: Peer)
        ensures
            p@ == (PeerView { addr: addr@, karma: 0, state: PeerStateView::Speculative }),
    {
        Peer { addr, karma: 0, state: PeerState::Speculative }
    }

    /// Whether the peer has been confirmed to be on the same blockchain as
    /// us.
    pub fn same_blockchain(&self) -> (r: bool)
        ensures
            r == (self@.state is Confirmed),
    {
        match self.state {
            PeerState::Confirmed(_, _) => true,
            _ => false,
        }
    }
}

} // verus!
