//! The messages sent over the peer-to-peer layer.

use vstd::prelude::*;

use crate::blockchain::{Block, BlockView};
use crate::p2p::{AddrView, SockAddr};

verus! {

/// The largest number of peers a `PeerResponse` may carry.
pub const MAX_PEERS: usize = 8;

/// A message sent over the P2P layer.
#[derive(Clone, Debug, PartialEq, Eq)]
pub enum Message {
    /// A ping, which requests a `Pong` in response. Used for discovery.
    Ping,
    /// A response to a `Ping`.
    Pong,
    /// A request for a list of connected peers.
    PeerRequest,
    /// A response carrying up to eight connected peers.
    PeerResponse(Vec<SockAddr>),
    /// A request for the peer's status.
    StatusRequest,
    /// The peer's status: the hash of the genesis block, the tip index, and
    /// the tip hash.
    StatusResponse(crate::blockchain::Hash, u64, crate::blockchain::Hash),
    /// A request for the block at the given index.
    BlockRequest(u64),
    /// A transmitted block.
    BlockResponse(Block),
    /// An announced block.
    BlockAnnounce(Block),
}

/// The mathematical content of a message.
pub ghost enum MessageView {
    /// A ping.
    Ping,
    /// A response to a ping.
    Pong,
    /// A request for peers.
    PeerRequest,
    /// A response carrying peers.
    PeerResponse(Seq<AddrView>),
    /// A request for the peer's status.
    StatusRequest,
    /// The peer's status: genesis hash, tip index, tip hash.
    StatusResponse(Seq<u8>, u64, Seq<u8>),
    /// A request for a block.
    BlockRequest(u64),
    /// A transmitted block.
    BlockResponse(BlockView),
    /// An announced block.
    BlockAnnounce(BlockView),
}

impl View for Message {
    type V = MessageView;

    open spec fn view(&self) -> MessageView {
        match self {
            Message::Ping => MessageView::Ping,
            Message::Pong => MessageView::Pong,
            Message::PeerRequest => MessageView::PeerRequest,
            Message::PeerResponse(peers) => MessageView::PeerResponse(
                peers@.map_values(|a: SockAddr| a@),
            ),
            Message::StatusRequest => MessageView::StatusRequest,
            Message::StatusResponse(gh, ti, th) => MessageView::StatusResponse(gh@, *ti, th@),
            Message::BlockRequest(i) => MessageView::BlockRequest(*i),
            Message::BlockResponse(b) => MessageView::BlockResponse(b@),
            Message::BlockAnnounce(b) => MessageView::BlockAnnounce(b@),
        }
    }
}

impl MessageView {
    /// Structural bounds on a message: a peer list fits the wire's count
    /// byte and its cap, and a carried block is itself well formed.
    pub open spec fn wf(self) -> bool {
        match self {
            MessageView::PeerResponse(peers) => peers.len() <= MAX_PEERS && forall|j: int|
                0 <= j < peers.len() ==> (#[trigger] peers[j]).wf(),
            MessageView::StatusResponse(gh, _, th) => gh.len() == 32 && th.len() == 32,
            MessageView::BlockResponse(b) => b.wf(),
            MessageView::BlockAnnounce(b) => b.wf(),
            _ => true,
        }
    }
}

impl AddrView {
    /// Structural bounds on an address: the IP holds 4 or 16 bytes as its
    /// family demands.
    pub open spec fn wf(self) -> bool {
        match self {
            AddrView::V4(ip, _) => ip.len() == 4,
            AddrView::V6(ip, _) => ip.len() == 16,
        }
    }
}

impl Message {
    /// Checks the structural bounds of the message at run time: a peer list
    /// within the cap and a carried block within the data cap.
    pub fn check_wf(&self) -> (r: bool)
        ensures
            r == self@.wf(),
    {
        match self {
            Message::PeerResponse(peers) => {
                proof {
                    let views = peers@.map_values(|a: SockAddr| a@);
                    assert forall|j: int| 0 <= j < views.len() implies (#[trigger] views[j]).wf() by {
                        assert(views[j] == peers@[j]@);
                        let a = peers@[j];
                        match a {
                            SockAddr::V4(_, _) => {},
                            SockAddr::V6(_, _) => {},
                        }
                    }
                }
                peers.len() <= MAX_PEERS
            },
            Message::BlockResponse(b) => b.data.len() <= crate::MAX_DATA_LEN,
            Message::BlockAnnounce(b) => b.data.len() <= crate::MAX_DATA_LEN,
            _ => true,
        }
    }

    /// Copies the message.
    pub fn duplicate(&self) -> (m: Message)
        ensures
            m@ == self@,
    {
        match self {
            Message::Ping => Message::Ping,
            Message::Pong => Message::Pong,
            Message::PeerRequest => Message::PeerRequest,
            Message::PeerResponse(peers) => {
                let copied = vstd::slice::slice_to_vec(peers.as_slice());
                proof {
                    assert(copied@.map_values(|a: SockAddr| a@) =~= peers@.map_values(
                        |a: SockAddr| a@,
                    ));
                }
                Message::PeerResponse(copied)
            },
            Message::StatusResponse(gh, ti, th) => Message::StatusResponse(*gh, *ti, *th),
            Message::StatusRequest => Message::StatusRequest,
            Message::BlockRequest(i) => Message::BlockRequest(*i),
            Message::BlockResponse(b) => Message::BlockResponse(b.duplicate()),
            Message::BlockAnnounce(b) => Message::BlockAnnounce(b.duplicate()),
        }
    }
}

} // verus!
