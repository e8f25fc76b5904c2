//! The wire form of protocol messages: a tag byte followed by the payload,
//! all integers little endian.

use vstd::bytes::{spec_u16_to_le_bytes, spec_u64_to_le_bytes, u16_to_le_bytes, u64_to_le_bytes};
use vstd::prelude::*;

use crate::blockchain::serialize::spec_serialize_block;
use crate::p2p::{AddrView, Message, MessageView, SockAddr};
use crate::util::append_bytes;

verus! {

/// The wire form of one socket address: a family tag (4 or 6), the address
/// bytes, and the little-endian port.
pub open spec fn spec_serialize_addr(a: AddrView) -> Seq<u8> {
    match a {
        AddrView::V4(ip, port) => seq![4u8] + ip + spec_u16_to_le_bytes(port),
        AddrView::V6(ip, port) => seq![6u8] + ip + spec_u16_to_le_bytes(port),
    }
}

/// The wire form of a list of socket addresses, one after the other.
pub open spec fn spec_serialize_addrs(v: Seq<AddrView>) -> Seq<u8>
    decreases v.len(),
{
    if v.len() == 0 {
        Seq::empty()
    } else {
        spec_serialize_addr(v.first()) + spec_serialize_addrs(v.drop_first())
    }
}

/// The wire form of a message.
pub open spec fn spec_serialize_message(m: MessageView) -> Seq<u8> {
    match m {
        MessageView::Ping => seq![0u8],
        MessageView::Pong => seq![1u8],
        MessageView::PeerRequest => seq![2u8],
        MessageView::PeerResponse(addrs) => seq![3u8, addrs.len() as u8] + spec_serialize_addrs(
            addrs,
        ),
        MessageView::StatusRequest => seq![4u8],
        MessageView::StatusResponse(gh, ti, th) => seq![5u8] + gh + spec_u64_to_le_bytes(ti) + th,
        MessageView::BlockRequest(i) => seq![6u8] + spec_u64_to_le_bytes(i),
        MessageView::BlockResponse(b) => seq![7u8] + spec_serialize_block(b),
        MessageView::BlockAnnounce(b) => seq![8u8] + spec_serialize_block(b),
    }
}

/// Serializing one more address extends the wire form of the list by that
/// address's wire form.
pub proof fn lemma_serialize_addrs_snoc(v: Seq<AddrView>, k: int)
    requires
        0 <= k < v.len(),
    ensures
        spec_serialize_addrs(v.take(k + 1)) == spec_serialize_addrs(v.take(k))
            + spec_serialize_addr(v[k]),
    decreases k,
{
    if k == 0 {
        assert(v.take(0) =~= Seq::empty());
        assert(v.take(1).drop_first() =~= Seq::empty());
        assert(v.take(1).first() == v[0]);
        assert(spec_serialize_addrs(Seq::<AddrView>::empty()) == Seq::<u8>::empty());
        assert(spec_serialize_addrs(v.take(1)) == spec_serialize_addr(v[0]) + Seq::<u8>::empty());
        assert(spec_serialize_addr(v[0]) + Seq::<u8>::empty() =~= spec_serialize_addr(v[0]));
        assert(spec_serialize_addrs(v.take(0)) + spec_serialize_addr(v[0]) =~= spec_serialize_addr(
            v[0],
        ));
    } else {
        let w = v.drop_first();
        lemma_serialize_addrs_snoc(w, k - 1);
        assert(v.take(k + 1).first() == v[0]);
        assert(v.take(k + 1).drop_first() =~= w.take(k));
        assert(v.take(k).first() == v[0]);
        assert(v.take(k).drop_first() =~= w.take(k - 1));
        assert(w[k - 1] == v[k]);
        assert(spec_serialize_addr(v[0]) + (spec_serialize_addrs(w.take(k - 1))
            + spec_serialize_addr(v[k])) =~= (spec_serialize_addr(v[0]) + spec_serialize_addrs(
            w.take(k - 1),
        )) + spec_serialize_addr(v[k]));
    }
}

/// Appends the wire form of one socket address to `w`.
pub fn write_addr_to(addr: &SockAddr, w: &mut Vec<u8>)
    ensures
        final(w)@ == old(w)@ + spec_serialize_addr(addr@),
{
    match addr {
        SockAddr::V4(ip, port) => {
            w.push(4u8);
            append_bytes(w, ip.as_slice());
            let p = u16_to_le_bytes(*port);
            append_bytes(w, p.as_slice());
        },
        SockAddr::V6(ip, port) => {
            w.push(6u8);
            append_bytes(w, ip.as_slice());
            let p = u16_to_le_bytes(*port);
            append_bytes(w, p.as_slice());
        },
    }
    proof {
        assert(w@ =~= old(w)@ + spec_serialize_addr(addr@));
    }
}

impl Message {
    /// Appends the wire form of the message to `w`.
    pub fn write_to(&self, w: &mut Vec<u8>)
        requires
            self@.wf(),
        ensures
            final(w)@ == old(w)@ + spec_serialize_message(self@),
    {
        match self {
            Message::Ping => {
                w.push(0u8);
                proof {
                    assert(w@ =~= old(w)@ + spec_serialize_message(self@));
                }
            },
            Message::Pong => {
                w.push(1u8);
                proof {
                    assert(w@ =~= old(w)@ + spec_serialize_message(self@));
                }
            },
            Message::PeerRequest => {
                w.push(2u8);
                proof {
                    assert(w@ =~= old(w)@ + spec_serialize_message(self@));
                }
            },
            Message::PeerResponse(peers) => {
                let ghost pv = peers@.map_values(|a: SockAddr| a@);
                w.push(3u8);
                w.push(peers.len() as u8);
                let ghost head = old(w)@ + seq![3u8, peers@.len() as u8];
                proof {
                    assert(w@ =~= head);
                    assert(pv.take(0) =~= Seq::empty());
                    assert(w@ =~= head + spec_serialize_addrs(pv.take(0)));
                }
                let mut k: usize = 0;
                while k < peers.len()
                    invariant
                        k <= peers@.len(),
                        pv == peers@.map_values(|a: SockAddr| a@),
                        pv.len() == peers@.len(),
                        w@ == head + spec_serialize_addrs(pv.take(k as int)),
                    decreases peers@.len() - k,
                {
                    write_addr_to(&peers[k], w);
                    proof {
                        lemma_serialize_addrs_snoc(pv, k as int);
                        assert(pv[k as int] == peers@[k as int]@);
                        assert(w@ =~= head + spec_serialize_addrs(pv.take(k + 1)));
                    }
                    k = k + 1;
                }
                proof {
                    assert(pv.take(pv.len() as int) =~= pv);
                    assert(w@ =~= old(w)@ + spec_serialize_message(self@));
                }
            },
            Message::StatusRequest => {
                w.push(4u8);
                proof {
                    assert(w@ =~= old(w)@ + spec_serialize_message(self@));
                }
            },
            Message::StatusResponse(gh, ti, th) => {
                w.push(5u8);
                append_bytes(w, gh.0.as_slice());
                let t = u64_to_le_bytes(*ti);
                append_bytes(w, t.as_slice());
                append_bytes(w, th.0.as_slice());
                proof {
                    assert(w@ =~= old(w)@ + spec_serialize_message(self@));
                }
            },
            Message::BlockRequest(i) => {
                w.push(6u8);
                let t = u64_to_le_bytes(*i);
                append_bytes(w, t.as_slice());
                proof {
                    assert(w@ =~= old(w)@ + spec_serialize_message(self@));
                }
            },
            Message::BlockResponse(b) => {
                w.push(7u8);
                b.write_to(w);
                proof {
                    assert(w@ =~= old(w)@ + spec_serialize_message(self@));
                }
            },
            Message::BlockAnnounce(b) => {
                w.push(8u8);
                b.write_to(w);
                proof {
                    assert(w@ =~= old(w)@ + spec_serialize_message(self@));
                }
            },
        }
    }

    /// Returns the wire form of the message.
    pub fn serialize(&self) -> (out: Vec<u8>)
        requires
            self@.wf(),
        ensures
            out@ == spec_serialize_message(self@),
    {
        let mut out: Vec<u8> = Vec::new();
        self.write_to(&mut out);
        proof {
            assert(out@ =~= spec_serialize_message(self@));
        }
        out
    }
}

} // verus!
