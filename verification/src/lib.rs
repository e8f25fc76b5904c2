//! A small peer-to-peer replicated append-only log of short data records.
//!
//! The crate provides a chain of content-addressed blocks with validation,
//! fork detection and a deterministic merge, a bit-exact little-endian wire
//! codec for blocks and protocol messages, a peer table with a small state
//! machine, and the client logic that routes inbound messages to chain
//! operations. Network and clock I/O live outside the library: callers feed
//! decoded messages in and send the queued replies out.

pub mod blockchain;
pub mod cards;
pub mod config;
pub mod errors;
pub mod p2p;
pub mod util;

use vstd::prelude::*;

use crate::blockchain::{chain_valid, chain_wf, Block, BlockView, Chain};
use crate::p2p::{AddrView, Message, MessageView, Peer, PeerState, PeerStateView, PeerView, SockAddr};

verus! {

/// The hard cap on the length of a block's data payload.
pub const MAX_DATA_LEN: usize = 255;

/// An outbound message: its destination, or `None` for a broadcast to every
/// compatible peer, and the message itself.
pub struct Outgoing {
    /// The destination, or `None` for a broadcast.
    pub dest: Option<SockAddr>,
    /// The message to send.
    pub msg: Message,
}

/// The mathematical content of an outbound message.
pub ghost struct OutgoingView {
    /// The destination, or `None` for a broadcast.
    pub dest: Option<AddrView>,
    /// The message to send.
    pub msg: MessageView,
}

impl View for Outgoing {
    type V = OutgoingView;

    open spec fn view(&self) -> OutgoingView {
        OutgoingView {
            dest: match self.dest {
                Some(a) => Some(a@),
                None => None,
            },
            msg: self.msg@,
        }
    }
}

/// The views of a sequence of peers.
pub open spec fn peers_view(v: Seq<Peer>) -> Seq<PeerView> {
    v.map_values(|p: Peer| p@)
}

/// The views of a queue of outbound messages.
pub open spec fn queue_view(v: Seq<Outgoing>) -> Seq<OutgoingView> {
    v.map_values(|o: Outgoing| o@)
}

/// No two peers share an address.
pub open spec fn peers_unique(ps: Seq<PeerView>) -> bool {
    forall|i: int, j: int|
        0 <= i < j < ps.len() ==> (#[trigger] ps[i]).addr != (#[trigger] ps[j]).addr
}

/// The first position holding a peer with the given address, at or after
/// `i`.
pub open spec fn first_peer_index(ps: Seq<PeerView>, a: AddrView, i: int) -> Option<int>
    recommends
        0 <= i,
    decreases ps.len() - i,
{
    if i >= ps.len() {
        None
    } else if ps[i].addr == a {
        Some(i)
    } else {
        first_peer_index(ps, a, i + 1)
    }
}

/// The position of the peer with the given address, if present.
pub open spec fn spec_find_peer(ps: Seq<PeerView>, a: AddrView) -> Option<int> {
    first_peer_index(ps, a, 0)
}

/// Facts about the first matching position: it matches, no earlier position
/// does, and `None` means no position matches.
pub proof fn lemma_first_peer_index(ps: Seq<PeerView>, a: AddrView, i: int)
    requires
        0 <= i,
    ensures
        first_peer_index(ps, a, i) matches Some(k) ==> i <= k < ps.len() && ps[k].addr == a
            && forall|j: int| i <= j < k ==> ps[j].addr != a,
        first_peer_index(ps, a, i) is None ==> forall|j: int|
            i <= j < ps.len() ==> (#[trigger] ps[j]).addr != a,
    decreases ps.len() - i,
{
    if i < ps.len() && ps[i].addr != a {
        lemma_first_peer_index(ps, a, i + 1);
    }
}

/// A peer after one datagram has been received from it: its karma falls by
/// one, saturating at zero.
pub open spec fn spec_karma_dec(p: PeerView) -> PeerView {
    PeerView {
        karma: if p.karma == 0 {
            0
        } else {
            (p.karma - 1) as usize
        },
        ..p
    }
}

/// The mathematical content of a client: its configuration, chain, peer
/// table, and outbound queue.
#[verifier::ext_equal]
pub ghost struct ClientView {
    /// Seconds between discovery pings.
    pub discovery_ping_interval: u64,
    /// The karma ceiling peers are measured against.
    pub max_karma: usize,
    /// Seconds between status broadcasts.
    pub status_check_interval: u64,
    /// The chain, as a sequence of block views.
    pub chain: Seq<BlockView>,
    /// The peer table.
    pub peers: Seq<PeerView>,
    /// The outbound queue, oldest first.
    pub queue: Seq<OutgoingView>,
}

impl ClientView {
    /// The client invariant: a valid, well-formed chain whose length leaves
    /// room to index by `u64`, and a peer table without duplicate addresses.
    pub open spec fn wf(self) -> bool {
        &&& chain_valid(self.chain)
        &&& chain_wf(self.chain)
        &&& self.chain.len() <= u64::MAX
        &&& peers_unique(self.peers)
    }
}

/// A blockchain client: the chain, the peer table, and the queue of
/// messages waiting to be sent. The caller owns the socket and the clock;
/// it feeds received messages to [`Client::handle_message`] and drains the
/// queue with [`Client::pop_send`].
pub struct Client {
    /// The time to wait, in seconds, between sending discovery pings.
    pub discovery_ping_interval: u64,
    /// The maximum karma value a peer can reach before it needs
    /// re-verification.
    pub max_karma: usize,
    /// The time to wait, in seconds, between asking peers for status
    /// updates.
    pub status_check_interval: u64,
    chain: Chain,
    peers: Vec<Peer>,
    send_queue: Vec<Outgoing>,
}

impl View for Client {
    type V = ClientView;

    closed spec fn view(&self) -> ClientView {
        ClientView {
            discovery_ping_interval: self.discovery_ping_interval,
            max_karma: self.max_karma,
            status_check_interval: self.status_check_interval,
            chain: self.chain@,
            peers: peers_view(self.peers@),
            queue: queue_view(self.send_queue@),
        }
    }
}

impl Client {
    /// Creates a new client holding the given chain and options.
    pub fn new_with_opts(
        chain: Chain,
        discovery_ping_interval: u64,
        status_check_interval: u64,
        max_karma: usize,
    ) -> (c: Client)
        requires
            chain_valid(chain@),
            chain_wf(chain@),
            chain@.len() <= u64::MAX,
        ensures
            c@ == (ClientView {
                discovery_ping_interval,
                max_karma,
                status_check_interval,
                chain: chain@,
                peers: Seq::<PeerView>::empty(),
                queue: Seq::<OutgoingView>::empty(),
            }),
            c@.wf(),
    {
        let c = Client {
            discovery_ping_interval,
            max_karma,
            status_check_interval,
            chain,
            peers: Vec::new(),
            send_queue: Vec::new(),
        };
        proof {
            assert(peers_view(c.peers@) =~= Seq::<PeerView>::empty());
            assert(queue_view(c.send_queue@) =~= Seq::<OutgoingView>::empty());
        }
        c
    }

    /// Creates a new client with the default chain and options: a discovery
    /// ping every 60 seconds, a status check every 30, and a karma ceiling
    /// of 10.
    pub fn new() -> (c: Client)
        ensures
            c@.chain == seq![crate::blockchain::default_genesis()],
            c@.peers == Seq::<PeerView>::empty(),
            c@.queue == Seq::<OutgoingView>::empty(),
            c@.discovery_ping_interval == 60,
            c@.status_check_interval == 30,
            c@.max_karma == 10,
            c@.wf(),
    {
        Client::new_with_opts(Chain::new(), 60, 30, 10)
    }

    /// Returns the chain.
    pub fn chain(&self) -> (c: &Chain)
        ensures
            c@ == self@.chain,
    {
        &self.chain
    }

    /// Returns the peer table.
    pub fn peers(&self) -> (ps: &Vec<Peer>)
        ensures
            peers_view(ps@) == self@.peers,
    {
        &self.peers
    }

    /// Returns how many messages wait in the outbound queue.
    pub fn queue_len(&self) -> (n: usize)
        ensures
            n == self@.queue.len(),
    {
        self.send_queue.len()
    }

    /// Appends a message to the outbound queue. Timers use this to schedule
    /// periodic broadcasts.
    pub fn enqueue(&mut self, o: Outgoing)
        ensures
            final(self)@ == (ClientView { queue: old(self)@.queue.push(o@), ..old(self)@ }),
    {
        self.send_queue.push(o);
        proof {
            assert(queue_view(self.send_queue@) =~= old(self)@.queue.push(
                queue_view(self.send_queue@).last(),
            ));
            assert(self@ =~= (ClientView { queue: old(self)@.queue.push(self@.queue.last()), ..old(
                self,
            )@ }));
        }
    }

    /// Removes and returns the oldest outbound message, if any.
    pub fn pop_send(&mut self) -> (r: Option<Outgoing>)
        ensures
            old(self)@.queue.len() == 0 ==> r is None && final(self)@ == old(self)@,
            old(self)@.queue.len() > 0 ==> {
                &&& r matches Some(o) && o@ == old(self)@.queue[0]
                &&& final(self)@ == (ClientView {
                    queue: old(self)@.queue.drop_first(),
                    ..old(self)@
                })
            },
    {
        if self.send_queue.len() == 0 {
            None
        } else {
            let o = self.send_queue.remove(0);
            proof {
                assert(queue_view(self.send_queue@) =~= old(self)@.queue.drop_first());
            }
            Some(o)
        }
    }

    /// Finds the position of the peer with the given address.
    fn find_peer(&self, addr: &SockAddr) -> (r: Option<usize>)
        ensures
            r matches Some(i) ==> spec_find_peer(self@.peers, addr@) == Some(i as int),
            r is None ==> spec_find_peer(self@.peers, addr@) is None,
    {
        let mut i: usize = 0;
        while i < self.peers.len()
            invariant
                i <= self.peers@.len(),
                self@.peers == peers_view(self.peers@),
                self@.peers.len() == self.peers@.len(),
                spec_find_peer(self@.peers, addr@) == first_peer_index(
                    self@.peers,
                    addr@,
                    i as int,
                ),
            decreases self.peers@.len() - i,
        {
            if self.peers[i].addr.same_as(addr) {
                return Some(i);
            }
            i = i + 1;
        }
        None
    }

    /// Ensures a peer record exists for the given address and lowers its
    /// karma by one, saturating at zero: a peer we have just heard from owes
    /// us nothing. A previously unknown address is recorded as `Speculative`
    /// and greeted with a `Ping`.
    pub fn add_peer(&mut self, addr: SockAddr)
        requires
            old(self)@.wf(),
        ensures
            final(self)@.wf(),
            match spec_find_peer(old(self)@.peers, addr@) {
                Some(i) => final(self)@ == (ClientView {
                    peers: old(self)@.peers.update(i, spec_karma_dec(old(self)@.peers[i])),
                    ..old(self)@
                }),
                None => final(self)@ == (ClientView {
                    peers: old(self)@.peers.push(
                        PeerView { addr: addr@, karma: 0, state: PeerStateView::Speculative },
                    ),
                    queue: old(self)@.queue.push(
                        OutgoingView { dest: Some(addr@), msg: MessageView::Ping },
                    ),
                    ..old(self)@
                }),
            },
    {
        proof {
            lemma_first_peer_index(old(self)@.peers, addr@, 0);
        }
        match self.find_peer(&addr) {
            Some(i) => {
                let karma = self.peers[i].karma;
                let new_karma = if karma == 0 {
                    0
                } else {
                    karma - 1
                };
                let updated = Peer { karma: new_karma, ..self.peers[i] };
                self.peers.set(i, updated);
                proof {
                    assert(peers_view(self.peers@) =~= old(self)@.peers.update(
                        i as int,
                        spec_karma_dec(old(self)@.peers[i as int]),
                    ));
                    lemma_peers_update_unique(
                        old(self)@.peers,
                        i as int,
                        spec_karma_dec(old(self)@.peers[i as int]),
                    );
                }
            },
            None => {
                self.send_queue.push(Outgoing { dest: Some(addr), msg: Message::Ping });
                self.peers.push(Peer::new(addr));
                proof {
                    let fresh = PeerView {
                        addr: addr@,
                        karma: 0,
                        state: PeerStateView::Speculative,
                    };
                    assert(peers_view(self.peers@) =~= old(self)@.peers.push(fresh));
                    assert(queue_view(self.send_queue@) =~= old(self)@.queue.push(
                        OutgoingView { dest: Some(addr@), msg: MessageView::Ping },
                    ));
                    lemma_peers_push_unique(old(self)@.peers, fresh);
                }
            },
        }
    }
}

/// A peer record with its state replaced.
pub open spec fn spec_with_state(p: PeerView, st: PeerStateView) -> PeerView {
    PeerView { state: st, ..p }
}

/// The client after a peer record has been created or its karma lowered,
/// as `add_peer` leaves it.
pub open spec fn spec_add_peer(cv: ClientView, a: AddrView) -> ClientView {
    match spec_find_peer(cv.peers, a) {
        Some(i) => ClientView { peers: cv.peers.update(i, spec_karma_dec(cv.peers[i])), ..cv },
        None => ClientView {
            peers: cv.peers.push(PeerView { addr: a, karma: 0, state: PeerStateView::Speculative }),
            queue: cv.queue.push(OutgoingView { dest: Some(a), msg: MessageView::Ping }),
            ..cv
        },
    }
}

/// The client after a peer has answered a ping, as `mark_peer_exists`
/// leaves it: a speculative peer advances to `Existent` and is asked for
/// its status; an unknown address is recorded directly as `Existent`.
pub open spec fn spec_mark_peer_exists(cv: ClientView, a: AddrView) -> ClientView {
    match spec_find_peer(cv.peers, a) {
        None => ClientView {
            peers: cv.peers.push(PeerView { addr: a, karma: 0, state: PeerStateView::Existent }),
            ..cv
        },
        Some(i) => if cv.peers[i].state is Speculative {
            ClientView {
                peers: cv.peers.update(i, spec_with_state(cv.peers[i], PeerStateView::Existent)),
                queue: cv.queue.push(
                    OutgoingView { dest: Some(a), msg: MessageView::StatusRequest },
                ),
                ..cv
            }
        } else {
            cv
        },
    }
}

/// The client after a peer has reported its status, as
/// `handle_peer_status` leaves it: the peer is confirmed with its advertised
/// tip when its genesis hash matches ours, and ignored otherwise.
pub open spec fn spec_handle_peer_status(
    cv: ClientView,
    a: AddrView,
    gh: Seq<u8>,
    ti: u64,
    th: Seq<u8>,
) -> ClientView {
    let st = if gh == cv.chain[0].hash {
        PeerStateView::Confirmed(ti, th)
    } else {
        PeerStateView::Ignore
    };
    match spec_find_peer(cv.peers, a) {
        None => ClientView {
            peers: cv.peers.push(PeerView { addr: a, karma: 0, state: st }),
            ..cv
        },
        Some(i) => ClientView { peers: cv.peers.update(i, spec_with_state(cv.peers[i], st)), ..cv },
    }
}

/// Whether an announcement of block `b` goes to peer `p`: only confirmed
/// peers whose advertised tip is not ahead of the block.
pub open spec fn spec_should_announce(p: PeerView, b: BlockView) -> bool {
    match p.state {
        PeerStateView::Confirmed(i, _) => i <= b.index,
        _ => false,
    }
}

/// The announcements of block `b` queued for a peer table, in table order.
pub open spec fn spec_announcements(ps: Seq<PeerView>, b: BlockView) -> Seq<OutgoingView>
    decreases ps.len(),
{
    if ps.len() == 0 {
        Seq::empty()
    } else {
        let rest = spec_announcements(ps.drop_first(), b);
        if spec_should_announce(ps.first(), b) {
            seq![
                OutgoingView { dest: Some(ps.first().addr), msg: MessageView::BlockAnnounce(b) },
            ] + rest
        } else {
            rest
        }
    }
}

/// Taking one more peer extends the announcement queue by that peer's
/// announcement, if it gets one.
proof fn lemma_announcements_snoc(ps: Seq<PeerView>, b: BlockView, k: int)
    requires
        0 <= k < ps.len(),
    ensures
        spec_announcements(ps.take(k + 1), b) == spec_announcements(ps.take(k), b) + (if spec_should_announce(
            ps[k],
            b,
        ) {
            seq![OutgoingView { dest: Some(ps[k].addr), msg: MessageView::BlockAnnounce(b) }]
        } else {
            Seq::empty()
        }),
    decreases k,
{
    let entry = if spec_should_announce(ps[k], b) {
        seq![OutgoingView { dest: Some(ps[k].addr), msg: MessageView::BlockAnnounce(b) }]
    } else {
        Seq::<OutgoingView>::empty()
    };
    if k == 0 {
        assert(ps.take(0) =~= Seq::empty());
        assert(ps.take(1).first() == ps[0]);
        assert(ps.take(1).drop_first() =~= Seq::empty());
        assert(spec_announcements(Seq::empty(), b) == Seq::<OutgoingView>::empty());
        assert(spec_announcements(ps.take(1), b) =~= entry);
        assert(spec_announcements(ps.take(0), b) + entry =~= entry);
    } else {
        let w = ps.drop_first();
        lemma_announcements_snoc(w, b, k - 1);
        assert(ps.take(k + 1).first() == ps[0]);
        assert(ps.take(k + 1).drop_first() =~= w.take(k));
        assert(ps.take(k).first() == ps[0]);
        assert(ps.take(k).drop_first() =~= w.take(k - 1));
        assert(w[k - 1] == ps[k]);
        if spec_should_announce(ps[0], b) {
            let head = seq![
                OutgoingView { dest: Some(ps[0].addr), msg: MessageView::BlockAnnounce(b) },
            ];
            assert(head + (spec_announcements(w.take(k - 1), b) + entry) =~= (head
                + spec_announcements(w.take(k - 1), b)) + entry);
        }
    }
}

/// The client after a block has arrived, as `handle_block` leaves it: a
/// valid tip is appended; a block from the future is kept off the chain but
/// still rebroadcast; anything else is dropped. When asked to broadcast,
/// the block is announced to every confirmed peer not ahead of it.
pub open spec fn spec_handle_block(cv: ClientView, b: BlockView, broadcast: bool) -> ClientView {
    let st = crate::blockchain::spec_status(cv.chain, b);
    ClientView {
        chain: if st == crate::blockchain::BlockStatus::ValidTip {
            cv.chain.push(b)
        } else {
            cv.chain
        },
        queue: if broadcast && (st == crate::blockchain::BlockStatus::ValidTip || st
            == crate::blockchain::BlockStatus::PotentiallyValid) {
            cv.queue + spec_announcements(cv.peers, b)
        } else {
            cv.queue
        },
        ..cv
    }
}

/// The reply to a status request: our genesis hash, tip index, and tip
/// hash.
pub open spec fn spec_status_reply(cv: ClientView, a: AddrView) -> OutgoingView {
    OutgoingView {
        dest: Some(a),
        msg: MessageView::StatusResponse(cv.chain[0].hash, cv.chain.last().index, cv.chain.last().hash),
    }
}

/// The client after one inbound message has been dispatched, not counting
/// the bookkeeping of `add_peer` that precedes every dispatch.
pub open spec fn spec_dispatch(cv: ClientView, a: AddrView, m: MessageView) -> ClientView {
    match m {
        MessageView::Ping => ClientView {
            queue: cv.queue.push(OutgoingView { dest: Some(a), msg: MessageView::Pong }),
            ..cv
        },
        MessageView::Pong => spec_mark_peer_exists(cv, a),
        MessageView::PeerRequest => cv,
        MessageView::PeerResponse(_) => cv,
        MessageView::StatusRequest => ClientView {
            queue: cv.queue.push(spec_status_reply(cv, a)),
            ..cv
        },
        MessageView::StatusResponse(gh, ti, th) => spec_handle_peer_status(cv, a, gh, ti, th),
        MessageView::BlockRequest(i) => if i < cv.chain.len() {
            ClientView {
                queue: cv.queue.push(
                    OutgoingView { dest: Some(a), msg: MessageView::BlockResponse(cv.chain[i as int]) },
                ),
                ..cv
            }
        } else {
            cv
        },
        MessageView::BlockResponse(b) => spec_handle_block(cv, b, false),
        MessageView::BlockAnnounce(b) => spec_handle_block(cv, b, true),
    }
}

/// The client after one inbound datagram: the sender's peer record is
/// created or charged, then the message is dispatched.
pub open spec fn spec_handle_message(cv: ClientView, a: AddrView, m: MessageView) -> ClientView {
    spec_dispatch(spec_add_peer(cv, a), a, m)
}

impl Client {
    /// Records that the peer at the given address answered a ping: a
    /// speculative peer advances to `Existent` and is asked for its status.
    pub fn mark_peer_exists(&mut self, addr: SockAddr)
        requires
            old(self)@.wf(),
        ensures
            final(self)@.wf(),
            final(self)@ == spec_mark_peer_exists(old(self)@, addr@),
    {
        proof {
            lemma_first_peer_index(old(self)@.peers, addr@, 0);
        }
        match self.find_peer(&addr) {
            None => {
                let mut p = Peer::new(addr);
                p.state = PeerState::Existent;
                self.peers.push(p);
                proof {
                    let fresh = PeerView { addr: addr@, karma: 0, state: PeerStateView::Existent };
                    assert(peers_view(self.peers@) =~= old(self)@.peers.push(fresh));
                    lemma_peers_push_unique(old(self)@.peers, fresh);
                }
            },
            Some(i) => {
                let speculative = match self.peers[i].state {
                    PeerState::Speculative => true,
                    _ => false,
                };
                if speculative {
                    let updated = Peer { state: PeerState::Existent, ..self.peers[i] };
                    self.peers.set(i, updated);
                    self.send_queue.push(
                        Outgoing { dest: Some(addr), msg: Message::StatusRequest },
                    );
                    proof {
                        let next = spec_with_state(
                            old(self)@.peers[i as int],
                            PeerStateView::Existent,
                        );
                        assert(peers_view(self.peers@) =~= old(self)@.peers.update(i as int, next));
                        assert(queue_view(self.send_queue@) =~= old(self)@.queue.push(
                            OutgoingView { dest: Some(addr@), msg: MessageView::StatusRequest },
                        ));
                        lemma_peers_update_unique(old(self)@.peers, i as int, next);
                    }
                }
            },
        }
    }

    /// Handles a peer's status report: if its genesis hash matches ours the
    /// peer is confirmed with its advertised tip; otherwise it is ignored.
    pub fn handle_peer_status(
        &mut self,
        addr: SockAddr,
        genesis_hash: crate::blockchain::Hash,
        tip_index: u64,
        tip_hash: crate::blockchain::Hash,
    )
        requires
            old(self)@.wf(),
        ensures
            final(self)@.wf(),
            final(self)@ == spec_handle_peer_status(
                old(self)@,
                addr@,
                genesis_hash@,
                tip_index,
                tip_hash@,
            ),
    {
        proof {
            lemma_first_peer_index(old(self)@.peers, addr@, 0);
        }
        let same = crate::blockchain::hash_eq(&self.chain.genesis().hash, &genesis_hash);
        let state = if same {
            PeerState::Confirmed(tip_index, tip_hash)
        } else {
            PeerState::Ignore
        };
        let ghost st = state@;
        match self.find_peer(&addr) {
            None => {
                let mut p = Peer::new(addr);
                p.state = state;
                self.peers.push(p);
                proof {
                    let fresh = PeerView { addr: addr@, karma: 0, state: st };
                    assert(peers_view(self.peers@) =~= old(self)@.peers.push(fresh));
                    lemma_peers_push_unique(old(self)@.peers, fresh);
                }
            },
            Some(i) => {
                let updated = Peer { state, ..self.peers[i] };
                self.peers.set(i, updated);
                proof {
                    let next = spec_with_state(old(self)@.peers[i as int], st);
                    assert(peers_view(self.peers@) =~= old(self)@.peers.update(i as int, next));
                    lemma_peers_update_unique(old(self)@.peers, i as int, next);
                }
            },
        }
    }

    /// Handles a received block: a valid tip is appended to the chain; a
    /// block from beyond our tip is left alone; anything else is dropped.
    /// With `broadcast` set, a block that was not dropped is announced to
    /// every confirmed peer whose advertised tip is not ahead of it.
    #[verifier::loop_isolation(false)]
    pub fn handle_block(&mut self, block: Block, broadcast: bool)
        requires
            old(self)@.wf(),
            block@.wf(),
            old(self)@.chain.len() < u64::MAX,
        ensures
            final(self)@.wf(),
            final(self)@ == spec_handle_block(old(self)@, block@, broadcast),
    {
        let ghost cv = old(self)@;
        let ghost st = crate::blockchain::spec_status(cv.chain, block@);
        let status = self.chain.status(&block);
        match status {
            crate::blockchain::BlockStatus::ValidTip => {
                let pushed = self.chain.push(block.duplicate());
                proof {
                    crate::blockchain::lemma_chain_valid_push(cv.chain, block@);
                }
            },
            crate::blockchain::BlockStatus::PotentiallyValid => {},
            _ => {
                proof {
                    assert(self@ =~= spec_handle_block(cv, block@, broadcast));
                }
                return ;
            },
        }
        if broadcast {
            let ghost q0 = queue_view(self.send_queue@);
            let n = self.peers.len();
            let mut k: usize = 0;
            proof {
                assert(peers_view(self.peers@).take(0) =~= Seq::empty());
                assert(spec_announcements(Seq::empty(), block@) == Seq::<OutgoingView>::empty());
                assert(q0 + Seq::<OutgoingView>::empty() =~= q0);
            }
            while k < n
                invariant
                    k <= n,
                    n == self.peers@.len(),
                    peers_view(self.peers@) == cv.peers,
                    self@.chain == (if st == crate::blockchain::BlockStatus::ValidTip {
                        cv.chain.push(block@)
                    } else {
                        cv.chain
                    }),
                    self@.discovery_ping_interval == cv.discovery_ping_interval,
                    self@.max_karma == cv.max_karma,
                    self@.status_check_interval == cv.status_check_interval,
                    queue_view(self.send_queue@) == q0 + spec_announcements(
                        cv.peers.take(k as int),
                        block@,
                    ),
                decreases n - k,
            {
                let announce = match self.peers[k].state {
                    PeerState::Confirmed(i, _) => i <= block.index,
                    _ => false,
                };
                proof {
                    lemma_announcements_snoc(cv.peers, block@, k as int);
                    assert(cv.peers[k as int] == self.peers@[k as int]@);
                    assert(announce == spec_should_announce(cv.peers[k as int], block@));
                }
                if announce {
                    let ghost qk = queue_view(self.send_queue@);
                    let dest = Some(self.peers[k].addr);
                    let entry = Outgoing { dest, msg: Message::BlockAnnounce(block.duplicate()) };
                    let ghost ev = entry@;
                    self.send_queue.push(entry);
                    proof {
                        assert(queue_view(self.send_queue@) =~= qk.push(ev));
                        assert(ev == (OutgoingView {
                            dest: Some(cv.peers[k as int].addr),
                            msg: MessageView::BlockAnnounce(block@),
                        }));
                        assert(spec_announcements(cv.peers.take(k + 1), block@)
                            == spec_announcements(cv.peers.take(k as int), block@) + seq![ev]);
                        assert(qk.push(ev) =~= q0 + spec_announcements(
                            cv.peers.take(k + 1),
                            block@,
                        ));
                    }
                } else {
                    proof {
                        assert(spec_announcements(cv.peers.take(k + 1), block@) =~= spec_announcements(
                            cv.peers.take(k as int),
                            block@,
                        ));
                    }
                }
                k = k + 1;
            }
            proof {
                assert(cv.peers.take(cv.peers.len() as int) =~= cv.peers);
                assert(self@.queue =~= cv.queue + spec_announcements(cv.peers, block@));
                assert(self@ =~= spec_handle_block(cv, block@, broadcast));
            }
        } else {
            proof {
                assert(self@ =~= spec_handle_block(cv, block@, broadcast));
            }
        }
    }

    /// Mines a new block holding the given data onto the tip of the chain
    /// and queues an announcement of it for broadcast.
    pub fn mine(&mut self, data: Vec<u8>)
        requires
            old(self)@.wf(),
            data@.len() <= MAX_DATA_LEN,
            old(self)@.chain.len() < u64::MAX,
        ensures
            final(self)@.wf(),
            exists|t: u64|
                final(self)@ == (ClientView {
                    chain: old(self)@.chain.push(
                        #[trigger] crate::blockchain::merge::spec_mine_block(
                            old(self)@.chain.last(),
                            t,
                            data@,
                        ),
                    ),
                    queue: old(self)@.queue.push(
                        OutgoingView {
                            dest: None,
                            msg: MessageView::BlockAnnounce(
                                crate::blockchain::merge::spec_mine_block(
                                    old(self)@.chain.last(),
                                    t,
                                    data@,
                                ),
                            ),
                        },
                    ),
                    ..old(self)@
                }),
    {
        let ghost cv = old(self)@;
        proof {
            crate::blockchain::lemma_tip_index(cv.chain);
        }
        let block = self.chain.mine(data);
        self.send_queue.push(Outgoing { dest: None, msg: Message::BlockAnnounce(block) });
        proof {
            let t = self.chain@.last().timestamp;
            let mined = crate::blockchain::merge::spec_mine_block(cv.chain.last(), t, data@);
            crate::blockchain::lemma_chain_valid_push(cv.chain, mined);
            assert(queue_view(self.send_queue@) =~= cv.queue.push(
                OutgoingView { dest: None, msg: MessageView::BlockAnnounce(mined) },
            ));
            assert(final(self)@ == (ClientView {
                chain: cv.chain.push(mined),
                queue: cv.queue.push(
                    OutgoingView { dest: None, msg: MessageView::BlockAnnounce(mined) },
                ),
                ..cv
            }));
        }
    }

    /// Handles one inbound datagram: the sender's peer record is created or
    /// charged, then the message is dispatched by kind. Peer-gossip messages
    /// are accepted for wire compatibility but not acted on.
    pub fn handle_message(&mut self, addr: SockAddr, msg: Message)
        requires
            old(self)@.wf(),
            msg@.wf(),
            old(self)@.chain.len() < u64::MAX,
        ensures
            final(self)@.wf(),
            final(self)@ == spec_handle_message(old(self)@, addr@, msg@),
    {
        let ghost cv = old(self)@;
        self.add_peer(addr);
        let ghost mid = self@;
        proof {
            assert(mid == spec_add_peer(cv, addr@));
        }
        match msg {
            Message::Ping => {
                self.send_queue.push(Outgoing { dest: Some(addr), msg: Message::Pong });
                proof {
                    assert(queue_view(self.send_queue@) =~= mid.queue.push(
                        OutgoingView { dest: Some(addr@), msg: MessageView::Pong },
                    ));
                }
            },
            Message::Pong => {
                self.mark_peer_exists(addr);
            },
            Message::PeerRequest => {},
            Message::PeerResponse(_) => {},
            Message::StatusRequest => {
                let gh = self.chain.genesis().hash;
                let tip = self.chain.tip();
                let ti = tip.index;
                let th = tip.hash;
                self.send_queue.push(
                    Outgoing { dest: Some(addr), msg: Message::StatusResponse(gh, ti, th) },
                );
                proof {
                    assert(queue_view(self.send_queue@) =~= mid.queue.push(
                        spec_status_reply(mid, addr@),
                    ));
                }
            },
            Message::StatusResponse(gh, ti, th) => {
                self.handle_peer_status(addr, gh, ti, th);
            },
            Message::BlockRequest(i) => {
                if i < self.chain.len() {
                    let b = self.chain.index(i).duplicate();
                    self.send_queue.push(
                        Outgoing { dest: Some(addr), msg: Message::BlockResponse(b) },
                    );
                    proof {
                        assert(queue_view(self.send_queue@) =~= mid.queue.push(
                            OutgoingView {
                                dest: Some(addr@),
                                msg: MessageView::BlockResponse(mid.chain[i as int]),
                            },
                        ));
                    }
                }
            },
            Message::BlockResponse(b) => {
                self.handle_block(b, false);
            },
            Message::BlockAnnounce(b) => {
                self.handle_block(b, true);
            },
        }
    }

    /// Whether this address should receive a broadcast of the given
    /// message: block announcements go only to confirmed peers whose
    /// advertised tip is not ahead of the block; every other broadcast goes
    /// to all confirmed peers.
    pub open spec fn spec_is_target(p: PeerView, m: MessageView) -> bool {
        match m {
            MessageView::BlockAnnounce(b) => spec_should_announce(p, b),
            _ => p.state is Confirmed,
        }
    }

    /// The addresses a broadcast of `m` goes to, in table order.
    pub open spec fn spec_broadcast_targets(ps: Seq<PeerView>, m: MessageView) -> Seq<AddrView>
        decreases ps.len(),
    {
        if ps.len() == 0 {
            Seq::empty()
        } else {
            let rest = Client::spec_broadcast_targets(ps.drop_first(), m);
            if Client::spec_is_target(ps.first(), m) {
                seq![ps.first().addr] + rest
            } else {
                rest
            }
        }
    }

    /// Resolves a broadcast: the addresses of every peer that should
    /// receive the given message.
    pub fn broadcast_targets(&self, msg: &Message) -> (out: Vec<SockAddr>)
        ensures
            out@.map_values(|a: SockAddr| a@) == Client::spec_broadcast_targets(
                self@.peers,
                msg@,
            ),
    {
        let ghost ps = self@.peers;
        let mut out: Vec<SockAddr> = Vec::new();
        let n = self.peers.len();
        let mut k: usize = 0;
        proof {
            assert(ps.take(0) =~= Seq::empty());
            assert(out@.map_values(|a: SockAddr| a@) =~= Client::spec_broadcast_targets(
                ps.take(0),
                msg@,
            ));
        }
        while k < n
            invariant
                k <= n,
                n == self.peers@.len(),
                ps == peers_view(self.peers@),
                ps == self@.peers,
                out@.map_values(|a: SockAddr| a@) == Client::spec_broadcast_targets(
                    ps.take(k as int),
                    msg@,
                ),
            decreases n - k,
        {
            let p = &self.peers[k];
            let is_target = match (&p.state, msg) {
                (PeerState::Confirmed(i, _), Message::BlockAnnounce(b)) => *i <= b.index,
                (PeerState::Confirmed(_, _), Message::Ping) => true,
                (PeerState::Confirmed(_, _), Message::Pong) => true,
                (PeerState::Confirmed(_, _), Message::PeerRequest) => true,
                (PeerState::Confirmed(_, _), Message::PeerResponse(_)) => true,
                (PeerState::Confirmed(_, _), Message::StatusRequest) => true,
                (PeerState::Confirmed(_, _), Message::StatusResponse(_, _, _)) => true,
                (PeerState::Confirmed(_, _), Message::BlockRequest(_)) => true,
                (PeerState::Confirmed(_, _), Message::BlockResponse(_)) => true,
                _ => false,
            };
            let ghost pre = out@.map_values(|a: SockAddr| a@);
            proof {
                lemma_broadcast_targets_snoc(ps, msg@, k as int);
                assert(is_target == Client::spec_is_target(ps[k as int], msg@));
            }
            if is_target {
                out.push(p.addr);
                proof {
                    assert(out@.map_values(|a: SockAddr| a@) =~= pre.push(ps[k as int].addr));
                    assert(pre.push(ps[k as int].addr) =~= pre + seq![ps[k as int].addr]);
                    assert(out@.map_values(|a: SockAddr| a@) =~= Client::spec_broadcast_targets(
                        ps.take(k + 1),
                        msg@,
                    ));
                }
            } else {
                proof {
                    assert(Client::spec_broadcast_targets(ps.take(k + 1), msg@)
                        =~= Client::spec_broadcast_targets(ps.take(k as int), msg@));
                }
            }
            k = k + 1;
        }
        proof {
            assert(ps.take(ps.len() as int) =~= ps);
        }
        out
    }

    /// Checks the client invariant at run time, together with there being
    /// room to mine at least one more block.
    pub fn is_well_formed(&self) -> (b: bool)
        ensures
            b == (self@.wf() && self@.chain.len() < u64::MAX),
    {
        if !self.chain.is_valid() {
            return false;
        }
        if !self.chain.check_wf() {
            return false;
        }
        if !self.chain.has_room() {
            return false;
        }
        let n = self.peers.len();
        let mut i: usize = 0;
        while i < n
            invariant
                i <= n,
                n == self.peers@.len(),
                self@.peers == peers_view(self.peers@),
                forall|x: int, y: int|
                    0 <= x < y < self@.peers.len() && x < i ==> (#[trigger] self@.peers[x]).addr
                        != (#[trigger] self@.peers[y]).addr,
            decreases n - i,
        {
            let mut j: usize = i + 1;
            while j < n
                invariant
                    i < j <= n,
                    n == self.peers@.len(),
                    self@.peers == peers_view(self.peers@),
                    forall|y: int|
                        i < y < j ==> self@.peers[i as int].addr != (#[trigger] self@.peers[y]).addr,
                decreases n - j,
            {
                if self.peers[i].addr.same_as(&self.peers[j].addr) {
                    proof {
                        assert(!peers_unique(self@.peers)) by {
                            assert(self@.peers[i as int].addr == self.peers@[i as int].addr@);
                            assert(self@.peers[j as int].addr == self.peers@[j as int].addr@);
                        }
                    }
                    return false;
                }
                j = j + 1;
            }
            i = i + 1;
        }
        proof {
            assert(peers_unique(self@.peers));
        }
        true
    }
}

/// Taking one more peer extends the broadcast targets by that peer's
/// address, if it is a target.
proof fn lemma_broadcast_targets_snoc(ps: Seq<PeerView>, m: MessageView, k: int)
    requires
        0 <= k < ps.len(),
    ensures
        Client::spec_broadcast_targets(ps.take(k + 1), m) == Client::spec_broadcast_targets(
            ps.take(k),
            m,
        ) + (if Client::spec_is_target(ps[k], m) {
            seq![ps[k].addr]
        } else {
            Seq::empty()
        }),
    decreases k,
{
    let entry = if Client::spec_is_target(ps[k], m) {
        seq![ps[k].addr]
    } else {
        Seq::<AddrView>::empty()
    };
    if k == 0 {
        assert(ps.take(0) =~= Seq::empty());
        assert(ps.take(1).first() == ps[0]);
        assert(ps.take(1).drop_first() =~= Seq::empty());
        assert(Client::spec_broadcast_targets(Seq::empty(), m) == Seq::<AddrView>::empty());
        assert(Client::spec_broadcast_targets(ps.take(1), m) =~= entry);
        assert(Client::spec_broadcast_targets(ps.take(0), m) + entry =~= entry);
    } else {
        let w = ps.drop_first();
        lemma_broadcast_targets_snoc(w, m, k - 1);
        assert(ps.take(k + 1).first() == ps[0]);
        assert(ps.take(k + 1).drop_first() =~= w.take(k));
        assert(ps.take(k).first() == ps[0]);
        assert(ps.take(k).drop_first() =~= w.take(k - 1));
        assert(w[k - 1] == ps[k]);
        if Client::spec_is_target(ps[0], m) {
            let head = seq![ps[0].addr];
            assert(head + (Client::spec_broadcast_targets(w.take(k - 1), m) + entry) =~= (head
                + Client::spec_broadcast_targets(w.take(k - 1), m)) + entry);
        }
    }
}

/// Updating a peer without changing its address keeps the table free of
/// duplicates.
proof fn lemma_peers_update_unique(ps: Seq<PeerView>, i: int, p: PeerView)
    requires
        peers_unique(ps),
        0 <= i < ps.len(),
        p.addr == ps[i].addr,
    ensures
        peers_unique(ps.update(i, p)),
{
}

/// Adding a peer whose address is new keeps the table free of duplicates.
proof fn lemma_peers_push_unique(ps: Seq<PeerView>, p: PeerView)
    requires
        peers_unique(ps),
        forall|j: int| 0 <= j < ps.len() ==> (#[trigger] ps[j]).addr != p.addr,
    ensures
        peers_unique(ps.push(p)),
{
}

} // verus!
