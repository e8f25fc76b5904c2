//! Tests of the client logic: the peer state machine, the protocol
//! handshake, block handling, and broadcast fan-out.

use minnehack_check_in::blockchain::Chain;
use minnehack_check_in::p2p::{Message, PeerState, SockAddr};
use minnehack_check_in::{Client, Outgoing};

fn addr(last: u8) -> SockAddr {
    SockAddr::V4([10, 0, 0, last], 10101)
}

fn drain(client: &mut Client) -> Vec<Outgoing> {
    let mut out = Vec::new();
    while let Some(o) = client.pop_send() {
        out.push(o);
    }
    out
}

#[test]
fn handshake() {
    let mut x = Client::new();
    let mut y = Client::new();
    let x_addr = addr(1);
    let y_addr = addr(2);

    // X pings Y; Y answers with a Pong.
    x.add_peer(y_addr);
    let queued = drain(&mut x);
    assert_eq!(queued.len(), 1);
    assert_eq!(queued[0].dest, Some(y_addr));
    assert_eq!(queued[0].msg, Message::Ping);
    y.handle_message(x_addr, Message::Ping);
    let from_y = drain(&mut y);
    assert!(from_y.iter().any(|o| o.msg == Message::Pong && o.dest == Some(x_addr)));

    // The Pong marks Y as Existent and X asks for its status.
    x.handle_message(y_addr, Message::Pong);
    assert_eq!(x.peers()[0].state, PeerState::Existent);
    let queued = drain(&mut x);
    assert_eq!(queued.len(), 1);
    assert_eq!(queued[0].msg, Message::StatusRequest);

    // Y answers the status request; the matching genesis confirms it.
    y.handle_message(x_addr, Message::StatusRequest);
    let from_y = drain(&mut y);
    let status = from_y
        .iter()
        .find(|o| matches!(o.msg, Message::StatusResponse(_, _, _)))
        .expect("no status response");
    let (t_i, t_h) = match status.msg {
        Message::StatusResponse(_, i, h) => (i, h),
        _ => unreachable!(),
    };
    x.handle_message(y_addr, status.msg.clone());
    assert_eq!(x.peers()[0].state, PeerState::Confirmed(t_i, t_h));

    // A subsequent announcement chaining onto the advertised tip becomes
    // X's new tip.
    let block = y.chain().tip().create_at(777, b"swipe".to_vec());
    assert_eq!(block.index, t_i + 1);
    assert_eq!(block.prev_hash, t_h);
    x.handle_message(y_addr, Message::BlockAnnounce(block.clone()));
    assert_eq!(x.chain().tip(), &block);
}

#[test]
fn status_request_is_answered() {
    let mut node = Client::new();
    let peer = addr(3);
    node.handle_message(peer, Message::StatusRequest);
    let queued = drain(&mut node);
    // A Ping for the new peer, then the status response.
    assert_eq!(queued.len(), 2);
    assert_eq!(queued[0].msg, Message::Ping);
    assert_eq!(queued[1].dest, Some(peer));
    let genesis = node.chain().genesis().clone();
    assert_eq!(
        queued[1].msg,
        Message::StatusResponse(genesis.hash, 0, genesis.hash),
    );
}

#[test]
fn genesis_match_confirms_peer() {
    let mut node = Client::new();
    let peer = addr(4);
    let genesis_hash = node.chain().genesis().hash;
    let tip_hash = node.chain().tip().hash;
    node.handle_message(peer, Message::StatusResponse(genesis_hash, 0, tip_hash));
    assert_eq!(node.peers()[0].state, PeerState::Confirmed(0, tip_hash));
}

#[test]
fn genesis_mismatch_ignores_peer() {
    let mut node = Client::new();
    let peer = addr(5);
    let mut other = Chain::with_genesis(minnehack_check_in::blockchain::Block::new(
        0,
        minnehack_check_in::blockchain::zero_hash(),
        1,
        b"other".to_vec(),
    ));
    let foreign = other.genesis().hash;
    let tip = other.tip().hash;
    node.handle_message(peer, Message::StatusResponse(foreign, 0, tip));
    assert_eq!(node.peers()[0].state, PeerState::Ignore);
}

#[test]
fn announced_tip_extends_chain() {
    let mut node = Client::new();
    let peer = addr(6);
    let block = node.chain().tip().create_at(500, b"news".to_vec());
    node.handle_message(peer, Message::BlockAnnounce(block.clone()));
    assert_eq!(node.chain().len(), 2);
    assert_eq!(node.chain().tip(), &block);
}

#[test]
fn contained_and_invalid_blocks_are_dropped() {
    let mut node = Client::new();
    let peer = addr(7);
    let genesis = node.chain().genesis().clone();
    node.handle_message(peer, Message::BlockAnnounce(genesis));
    assert_eq!(node.chain().len(), 1);
    let bogus = minnehack_check_in::blockchain::Block::new(
        1,
        minnehack_check_in::blockchain::zero_hash(),
        7,
        b"bogus".to_vec(),
    );
    node.handle_message(peer, Message::BlockAnnounce(bogus));
    assert_eq!(node.chain().len(), 1);
}

#[test]
fn block_request_is_served() {
    let mut node = Client::new();
    let peer = addr(8);
    node.mine(b"entry".to_vec());
    drain(&mut node);
    node.handle_message(peer, Message::BlockRequest(1));
    let queued = drain(&mut node);
    let expected = node.chain().index(1).clone();
    assert!(queued.iter().any(|o| o.msg == Message::BlockResponse(expected.clone())));
    // An out-of-range request is silently dropped.
    node.handle_message(peer, Message::BlockRequest(99));
    let queued = drain(&mut node);
    assert!(queued.iter().all(|o| {
        match o.msg {
            Message::BlockResponse(_) => false,
            _ => true,
        }
    }));
}

#[test]
fn broadcast_fan_out() {
    let mut node = Client::new();
    let genesis_hash = node.chain().genesis().hash;
    let tip_hash = node.chain().tip().hash;
    // P1 is confirmed at tip 0, P2 is confirmed at tip 5, P3 stays
    // speculative.
    let p1 = addr(1);
    let p2 = addr(2);
    let p3 = addr(3);
    node.handle_peer_status(p1, genesis_hash, 0, tip_hash);
    node.handle_peer_status(p2, genesis_hash, 5, tip_hash);
    node.add_peer(p3);
    drain(&mut node);

    node.mine(b"fresh".to_vec());
    let queued = drain(&mut node);
    assert_eq!(queued.len(), 1);
    assert_eq!(queued[0].dest, None);
    let announce = &queued[0].msg;
    assert!(matches!(announce, Message::BlockAnnounce(_)));

    // Resolving the broadcast reaches P1 only: P2 is ahead of the new
    // block, P3 is not confirmed.
    let targets = node.broadcast_targets(announce);
    assert_eq!(targets, vec![p1]);

    // A status broadcast reaches every confirmed peer.
    let targets = node.broadcast_targets(&Message::StatusRequest);
    assert_eq!(targets, vec![p1, p2]);
}

#[test]
fn karma_saturates_at_zero() {
    let mut node = Client::new();
    let peer = addr(9);
    node.add_peer(peer);
    assert_eq!(node.peers()[0].karma, 0);
    node.add_peer(peer);
    assert_eq!(node.peers()[0].karma, 0);
    assert_eq!(node.peers().len(), 1);
}

#[test]
fn same_blockchain_means_confirmed() {
    let mut node = Client::new();
    let peer = addr(10);
    node.add_peer(peer);
    assert!(!node.peers()[0].same_blockchain());
    let genesis_hash = node.chain().genesis().hash;
    let tip_hash = node.chain().tip().hash;
    node.handle_peer_status(peer, genesis_hash, 0, tip_hash);
    assert!(node.peers()[0].same_blockchain());
}

#[test]
fn well_formedness_check() {
    let node = Client::new();
    assert!(node.is_well_formed());
}
