//! Parsing protocol messages from their wire form. Parsing is strict: a
//! datagram must be consumed exactly, and an oversized peer count is
//! rejected.

use vstd::bytes::{
    lemma_auto_spec_u16_to_from_le_bytes, lemma_auto_spec_u64_to_from_le_bytes,
    spec_u16_from_le_bytes, spec_u16_to_le_bytes, spec_u64_from_le_bytes, spec_u64_to_le_bytes,
    u16_from_le_bytes, u64_from_le_bytes,
};
use vstd::prelude::*;
use vstd::slice::{slice_index_get, slice_subrange};

use crate::blockchain::parse::spec_parse_block;
use crate::p2p::message::MAX_PEERS;
use crate::p2p::serialize::{spec_serialize_addr, spec_serialize_addrs};
use crate::p2p::{AddrView, Message, MessageView, SockAddr};

verus! {

/// The socket address at the head of a byte string, if any, together with
/// the number of bytes it occupies: a family tag (4 or 6), the address
/// bytes, and the little-endian port.
pub open spec fn spec_parse_addr(s: Seq<u8>) -> Option<(AddrView, int)> {
    if s.len() >= 7 && s[0] == 4 {
        Some((AddrView::V4(s.subrange(1, 5), spec_u16_from_le_bytes(s.subrange(5, 7))), 7))
    } else if s.len() >= 19 && s[0] == 6 {
        Some((AddrView::V6(s.subrange(1, 17), spec_u16_from_le_bytes(s.subrange(17, 19))), 19))
    } else {
        None
    }
}

/// The first `n` socket addresses at the head of a byte string, if present,
/// together with the number of bytes they occupy.
pub open spec fn spec_parse_addrs(s: Seq<u8>, n: nat) -> Option<(Seq<AddrView>, int)>
    decreases n,
{
    if n == 0 {
        Some((Seq::empty(), 0))
    } else {
        match spec_parse_addr(s) {
            None => None,
            Some((a, c)) => match spec_parse_addrs(s.skip(c), (n - 1) as nat) {
                None => None,
                Some((rest, c2)) => Some((seq![a] + rest, c + c2)),
            },
        }
    }
}

/// The message a datagram decodes to, if any: a tag byte chooses the kind,
/// the payload follows, and the datagram must be consumed exactly.
pub open spec fn spec_parse_message(s: Seq<u8>) -> Option<MessageView> {
    if s.len() == 0 {
        None
    } else if s[0] == 0 {
        if s.len() == 1 {
            Some(MessageView::Ping)
        } else {
            None
        }
    } else if s[0] == 1 {
        if s.len() == 1 {
            Some(MessageView::Pong)
        } else {
            None
        }
    } else if s[0] == 2 {
        if s.len() == 1 {
            Some(MessageView::PeerRequest)
        } else {
            None
        }
    } else if s[0] == 3 {
        if s.len() < 2 || s[1] > MAX_PEERS as u8 {
            None
        } else {
            match spec_parse_addrs(s.skip(2), s[1] as nat) {
                None => None,
                Some((addrs, c)) => if c == s.len() - 2 {
                    Some(MessageView::PeerResponse(addrs))
                } else {
                    None
                },
            }
        }
    } else if s[0] == 4 {
        if s.len() == 1 {
            Some(MessageView::StatusRequest)
        } else {
            None
        }
    } else if s[0] == 5 {
        if s.len() == 73 {
            Some(
                MessageView::StatusResponse(
                    s.subrange(1, 33),
                    spec_u64_from_le_bytes(s.subrange(33, 41)),
                    s.subrange(41, 73),
                ),
            )
        } else {
            None
        }
    } else if s[0] == 6 {
        if s.len() == 9 {
            Some(MessageView::BlockRequest(spec_u64_from_le_bytes(s.subrange(1, 9))))
        } else {
            None
        }
    } else if s[0] == 7 {
        match spec_parse_block(s.skip(1)) {
            None => None,
            Some(b) => Some(MessageView::BlockResponse(b)),
        }
    } else if s[0] == 8 {
        match spec_parse_block(s.skip(1)) {
            None => None,
            Some(b) => Some(MessageView::BlockAnnounce(b)),
        }
    } else {
        None
    }
}

/// Round trip for one address: parsing a buffer that starts with the wire
/// form of a well-formed address yields that address and consumes exactly
/// its wire form.
pub proof fn lemma_addr_round_trip(a: AddrView, suffix: Seq<u8>)
    requires
        a.wf(),
    ensures
        spec_parse_addr(spec_serialize_addr(a) + suffix) == Some(
            (a, spec_serialize_addr(a).len() as int),
        ),
{
    lemma_auto_spec_u16_to_from_le_bytes();
    let s = spec_serialize_addr(a) + suffix;
    match a {
        AddrView::V4(ip, port) => {
            assert(s[0] == 4);
            assert(s.subrange(1, 5) =~= ip);
            assert(s.subrange(5, 7) =~= spec_u16_to_le_bytes(port));
        },
        AddrView::V6(ip, port) => {
            assert(s[0] == 6);
            assert(s.subrange(1, 17) =~= ip);
            assert(s.subrange(17, 19) =~= spec_u16_to_le_bytes(port));
        },
    }
}

/// Round trip for an address list: parsing a buffer that starts with the
/// wire forms of well-formed addresses yields those addresses and consumes
/// exactly their wire forms.
pub proof fn lemma_addrs_round_trip(v: Seq<AddrView>, suffix: Seq<u8>)
    requires
        forall|j: int| 0 <= j < v.len() ==> (#[trigger] v[j]).wf(),
    ensures
        spec_parse_addrs(spec_serialize_addrs(v) + suffix, v.len()) == Some(
            (v, spec_serialize_addrs(v).len() as int),
        ),
    decreases v.len(),
{
    if v.len() == 0 {
        assert(v =~= Seq::<AddrView>::empty());
        assert(spec_serialize_addrs(v) + suffix =~= suffix);
    } else {
        let a0 = v.first();
        let rest = v.drop_first();
        let s = spec_serialize_addrs(v) + suffix;
        assert(s =~= spec_serialize_addr(a0) + (spec_serialize_addrs(rest) + suffix));
        lemma_addr_round_trip(a0, spec_serialize_addrs(rest) + suffix);
        let c0 = spec_serialize_addr(a0).len() as int;
        assert(s.skip(c0) =~= spec_serialize_addrs(rest) + suffix);
        assert(forall|j: int| 0 <= j < rest.len() ==> (#[trigger] rest[j]).wf()) by {
            assert(forall|j: int| 0 <= j < rest.len() ==> rest[j] == v[j + 1]);
        }
        lemma_addrs_round_trip(rest, suffix);
        assert(seq![a0] + rest =~= v);
    }
}

/// Round trip: parsing the wire form of a well-formed message yields
/// exactly that message.
pub proof fn lemma_message_round_trip(m: MessageView)
    requires
        m.wf(),
    ensures
        spec_parse_message(crate::p2p::serialize::spec_serialize_message(m)) == Some(m),
{
    lemma_auto_spec_u64_to_from_le_bytes();
    let s = crate::p2p::serialize::spec_serialize_message(m);
    match m {
        MessageView::Ping => {},
        MessageView::Pong => {},
        MessageView::PeerRequest => {},
        MessageView::StatusRequest => {},
        MessageView::PeerResponse(addrs) => {
            let body = crate::p2p::serialize::spec_serialize_addrs(addrs);
            assert(s[0] == 3 && s[1] == addrs.len() as u8);
            assert(s.skip(2) =~= body + Seq::<u8>::empty());
            lemma_addrs_round_trip(addrs, Seq::<u8>::empty());
            assert(body + Seq::<u8>::empty() =~= body);
            assert(s[1] as nat == addrs.len());
            assert(spec_parse_addrs(s.skip(2), s[1] as nat) == Some((addrs, body.len() as int)));
            assert(body.len() == s.len() - 2);
        },
        MessageView::StatusResponse(gh, ti, th) => {
            assert(s.len() == 73 && s[0] == 5);
            assert(s.subrange(1, 33) =~= gh);
            assert(s.subrange(33, 41) =~= spec_u64_to_le_bytes(ti));
            assert(s.subrange(41, 73) =~= th);
        },
        MessageView::BlockRequest(i) => {
            assert(s.len() == 9 && s[0] == 6);
            assert(s.subrange(1, 9) =~= spec_u64_to_le_bytes(i));
        },
        MessageView::BlockResponse(b) => {
            assert(s[0] == 7);
            assert(s.skip(1) =~= crate::blockchain::serialize::spec_serialize_block(b));
            crate::blockchain::parse::lemma_block_round_trip(b);
        },
        MessageView::BlockAnnounce(b) => {
            assert(s[0] == 8);
            assert(s.skip(1) =~= crate::blockchain::serialize::spec_serialize_block(b));
            crate::blockchain::parse::lemma_block_round_trip(b);
        },
    }
}

/// Soundness for one address: a byte string whose head parses as an address
/// starts with exactly that address's wire form.
proof fn lemma_addr_parse_sound(s: Seq<u8>, a: AddrView, c: int)
    requires
        spec_parse_addr(s) == Some((a, c)),
    ensures
        a.wf(),
        c == spec_serialize_addr(a).len(),
        0 < c <= s.len(),
        s.take(c) == spec_serialize_addr(a),
{
    lemma_auto_spec_u16_to_from_le_bytes();
    if s.len() >= 7 && s[0] == 4 {
        assert(spec_u16_to_le_bytes(spec_u16_from_le_bytes(s.subrange(5, 7))) == s.subrange(5, 7));
        assert(s.take(7) =~= spec_serialize_addr(a));
    } else {
        assert(spec_u16_to_le_bytes(spec_u16_from_le_bytes(s.subrange(17, 19))) == s.subrange(
            17,
            19,
        ));
        assert(s.take(19) =~= spec_serialize_addr(a));
    }
}

/// Soundness for an address list: a byte string whose head parses as `n`
/// addresses starts with exactly their wire forms.
proof fn lemma_addrs_parse_sound(s: Seq<u8>, n: nat, addrs: Seq<AddrView>, c: int)
    requires
        spec_parse_addrs(s, n) == Some((addrs, c)),
    ensures
        addrs.len() == n,
        forall|j: int| 0 <= j < addrs.len() ==> (#[trigger] addrs[j]).wf(),
        c == spec_serialize_addrs(addrs).len(),
        0 <= c <= s.len(),
        s.take(c) == spec_serialize_addrs(addrs),
    decreases n,
{
    if n == 0 {
        assert(s.take(0) =~= Seq::<u8>::empty());
        assert(spec_serialize_addrs(addrs) == Seq::<u8>::empty());
    } else {
        let (a, c1) = spec_parse_addr(s)->Some_0;
        let (rest, c2) = spec_parse_addrs(s.skip(c1), (n - 1) as nat)->Some_0;
        lemma_addr_parse_sound(s, a, c1);
        lemma_addrs_parse_sound(s.skip(c1), (n - 1) as nat, rest, c2);
        assert(addrs == seq![a] + rest);
        assert(addrs.first() == a);
        assert(addrs.drop_first() =~= rest);
        assert(spec_serialize_addrs(addrs) == spec_serialize_addr(a) + spec_serialize_addrs(rest));
        assert(s.take(c) =~= spec_serialize_addr(a) + spec_serialize_addrs(rest)) by {
            assert(forall|x: int|
                0 <= x < c2 ==> s.skip(c1).take(c2)[x] == #[trigger] s.take(c)[x + c1]);
            assert(forall|x: int| 0 <= x < c1 ==> s.take(c1)[x] == #[trigger] s.take(c)[x]);
        }
    }
}

/// Soundness: a datagram that parses as a message is exactly that message's
/// wire form, and the message is well formed. Together with the round trip
/// above, every message has one canonical datagram.
pub proof fn lemma_message_parse_sound(s: Seq<u8>, m: MessageView)
    requires
        spec_parse_message(s) == Some(m),
    ensures
        s == crate::p2p::serialize::spec_serialize_message(m),
        m.wf(),
{
    lemma_auto_spec_u64_to_from_le_bytes();
    let t = crate::p2p::serialize::spec_serialize_message(m);
    if s[0] == 0 || s[0] == 1 || s[0] == 2 || s[0] == 4 {
        assert(s =~= t);
    } else if s[0] == 3 {
        let n = s[1] as nat;
        let (addrs, c) = spec_parse_addrs(s.skip(2), n)->Some_0;
        lemma_addrs_parse_sound(s.skip(2), n, addrs, c);
        assert(addrs.len() as u8 == s[1]);
        assert(s =~= t) by {
            assert(forall|x: int|
                0 <= x < c ==> s.skip(2).take(c)[x] == #[trigger] s[x + 2]);
        }
    } else if s[0] == 5 {
        assert(spec_u64_to_le_bytes(spec_u64_from_le_bytes(s.subrange(33, 41))) == s.subrange(
            33,
            41,
        ));
        assert(s =~= t);
    } else if s[0] == 6 {
        assert(spec_u64_to_le_bytes(spec_u64_from_le_bytes(s.subrange(1, 9))) == s.subrange(1, 9));
        assert(s =~= t);
    } else {
        let b = spec_parse_block(s.skip(1))->Some_0;
        crate::blockchain::parse::lemma_block_parse_sound(s.skip(1), b);
        assert(s =~= t) by {
            assert(forall|x: int| 0 <= x < s.len() - 1 ==> s.skip(1)[x] == #[trigger] s[x + 1]);
        }
    }
}

/// Parses the socket address at offset `pos` of `msg`, returning it with
/// the offset just past it.
fn parse_addr_at(msg: &[u8], pos: usize) -> (r: Option<(SockAddr, usize)>)
    requires
        pos <= msg@.len(),
    ensures
        match r {
            Some(p) => {
                &&& spec_parse_addr(msg@.skip(pos as int)) == Some((p.0@, p.1 - pos))
                &&& pos < p.1 <= msg@.len()
            },
            None => spec_parse_addr(msg@.skip(pos as int)) is None,
        },
{
    let ghost tail = msg@.skip(pos as int);
    if pos >= msg.len() {
        return None;
    }
    let family = *slice_index_get(msg, pos);
    proof {
        assert(tail[0] == msg@[pos as int]);
    }
    if family == 4 {
        if msg.len() - pos < 7 {
            return None;
        }
        let ip = crate::util::bytes_to_array::<4>(slice_subrange(msg, pos + 1, pos + 5));
        let port = u16_from_le_bytes(slice_subrange(msg, pos + 5, pos + 7));
        proof {
            assert(msg@.subrange(pos + 1, pos + 5) =~= tail.subrange(1, 5));
            assert(msg@.subrange(pos + 5, pos + 7) =~= tail.subrange(5, 7));
        }
        Some((SockAddr::V4(ip, port), pos + 7))
    } else if family == 6 {
        if msg.len() - pos < 19 {
            return None;
        }
        let ip = crate::util::bytes_to_array::<16>(slice_subrange(msg, pos + 1, pos + 17));
        let port = u16_from_le_bytes(slice_subrange(msg, pos + 17, pos + 19));
        proof {
            assert(msg@.subrange(pos + 1, pos + 17) =~= tail.subrange(1, 17));
            assert(msg@.subrange(pos + 17, pos + 19) =~= tail.subrange(17, 19));
        }
        Some((SockAddr::V6(ip, port), pos + 19))
    } else {
        None
    }
}

impl Message {
    /// Attempts to parse a message from a datagram; the datagram must be
    /// consumed exactly.
    pub fn parse_from(msg: &[u8]) -> (r: Option<Message>)
        ensures
            match r {
                Some(m) => spec_parse_message(msg@) == Some(m@) && m@.wf(),
                None => spec_parse_message(msg@) is None,
            },
    {
        if msg.len() == 0 {
            return None;
        }
        let tag = *slice_index_get(msg, 0);
        if tag == 0 {
            if msg.len() == 1 {
                Some(Message::Ping)
            } else {
                None
            }
        } else if tag == 1 {
            if msg.len() == 1 {
                Some(Message::Pong)
            } else {
                None
            }
        } else if tag == 2 {
            if msg.len() == 1 {
                Some(Message::PeerRequest)
            } else {
                None
            }
        } else if tag == 3 {
            Message::parse_peer_response(msg)
        } else if tag == 4 {
            if msg.len() == 1 {
                Some(Message::StatusRequest)
            } else {
                None
            }
        } else if tag == 5 {
            if msg.len() != 73 {
                return None;
            }
            let gh = crate::blockchain::Hash::from_slice(slice_subrange(msg, 1, 33));
            let ti = u64_from_le_bytes(slice_subrange(msg, 33, 41));
            let th = crate::blockchain::Hash::from_slice(slice_subrange(msg, 41, 73));
            Some(Message::StatusResponse(gh, ti, th))
        } else if tag == 6 {
            if msg.len() != 9 {
                return None;
            }
            let i = u64_from_le_bytes(slice_subrange(msg, 1, 9));
            Some(Message::BlockRequest(i))
        } else if tag == 7 {
            proof {
                assert(msg@.subrange(1, msg@.len() as int) =~= msg@.skip(1));
            }
            match crate::blockchain::Block::parse_from(slice_subrange(msg, 1, msg.len())) {
                None => None,
                Some(b) => Some(Message::BlockResponse(b)),
            }
        } else if tag == 8 {
            proof {
                assert(msg@.subrange(1, msg@.len() as int) =~= msg@.skip(1));
            }
            match crate::blockchain::Block::parse_from(slice_subrange(msg, 1, msg.len())) {
                None => None,
                Some(b) => Some(Message::BlockAnnounce(b)),
            }
        } else {
            None
        }
    }

    /// Parses the payload of a `PeerResponse`: a count byte of at most
    /// eight, then that many addresses, consuming the datagram exactly.
    fn parse_peer_response(msg: &[u8]) -> (r: Option<Message>)
        requires
            msg@.len() >= 1,
            msg@[0] == 3,
        ensures
            match r {
                Some(m) => spec_parse_message(msg@) == Some(m@) && m@.wf(),
                None => spec_parse_message(msg@) is None,
            },
    {
        if msg.len() < 2 {
            return None;
        }
        let n = *slice_index_get(msg, 1);
        if n > MAX_PEERS as u8 {
            return None;
        }
        let ghost target = spec_parse_addrs(msg@.skip(2), n as nat);
        let mut addrs: Vec<SockAddr> = Vec::new();
        let mut pos: usize = 2;
        let mut k: u8 = 0;
        proof {
            assert(addrs@.map_values(|a: SockAddr| a@) =~= Seq::<AddrView>::empty());
        }
        while k < n
            invariant
                msg@.len() >= 2,
                msg@[0] == 3,
                n == msg@[1],
                n <= MAX_PEERS as u8,
                target == spec_parse_addrs(msg@.skip(2), n as nat),
                k <= n,
                2 <= pos <= msg@.len(),
                addrs@.len() == k as int,
                forall|j: int| 0 <= j < addrs@.len() ==> (#[trigger] addrs@[j]@).wf(),
                match spec_parse_addrs(msg@.skip(pos as int), (n - k) as nat) {
                    None => target is None,
                    Some(p) => target == Some(
                        (addrs@.map_values(|a: SockAddr| a@) + p.0, pos - 2 + p.1),
                    ),
                },
            decreases n - k,
        {
            let ghost pre_views = addrs@.map_values(|a: SockAddr| a@);
            match parse_addr_at(msg, pos) {
                None => {
                    return None;
                },
                Some((addr, next)) => {
                    proof {
                        assert(msg@.skip(pos as int).skip((next - pos) as int) =~= msg@.skip(
                            next as int,
                        ));
                        assert(addr@.wf()) by {
                            let t = msg@.skip(pos as int);
                            if t[0] == 4 {
                                assert(t.subrange(1, 5).len() == 4);
                            } else {
                                assert(t.subrange(1, 17).len() == 16);
                            }
                        }
                    }
                    addrs.push(addr);
                    proof {
                        assert(addrs@.map_values(|a: SockAddr| a@) =~= pre_views.push(addr@));
                        if let Some(p2) = spec_parse_addrs(msg@.skip(next as int), (n - k - 1) as nat) {
                            assert(seq![addr@] + p2.0 =~= spec_parse_addrs(
                                msg@.skip(pos as int),
                                (n - k) as nat,
                            )->Some_0.0);
                            assert(pre_views.push(addr@) + p2.0 =~= pre_views + (seq![addr@]
                                + p2.0));
                        }
                    }
                    pos = next;
                    k = k + 1;
                },
            }
        }
        proof {
            assert(spec_parse_addrs(msg@.skip(pos as int), 0) == Some(
                (Seq::<AddrView>::empty(), 0int),
            ));
            assert(addrs@.map_values(|a: SockAddr| a@) + Seq::<AddrView>::empty() =~= addrs@.map_values(
                |a: SockAddr| a@,
            ));
        }
        if pos != msg.len() {
            return None;
        }
        Some(Message::PeerResponse(addrs))
    }
}

} // verus!
