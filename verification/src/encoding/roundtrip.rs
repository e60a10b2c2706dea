//! What a read gives back of a write: the laws of the wire encoding.
use vstd::prelude::*;

use super::header::{header_well_formed, header_wire, parse_header, HeaderView};
use super::message::{
    message_wire, parse_key, parse_message, parse_version, spec_header, version_wire, zero_ray,
    MessageView, Version, ID_MSG_BROADCAST, ID_MSG_FIND_NODES, ID_MSG_NODES, ID_MSG_PING,
    ID_MSG_PONG,
};
use super::payload::broadcast::{broadcast_wire, parse_broadcast, BroadcastView};
use super::payload::nodes::{
    ip_wire, nodes_wire, parse_nodes, parse_peer, parse_peers, peer_wire, peers_wire, IpView,
    PeerInfoView,
};
use super::{from_le_u16, from_le_u32, le_u16, lemma_le_u16, lemma_le_u32};
use crate::kbucket::key::{le_u32, valid_nonce};

verus! {

/// A version whose numbers fit the wire fields.
pub open spec fn version_fits(v: Version) -> bool {
    v.major < 256 && v.minor < 65536 && v.patch < 65536
}

/// A peer entry whose address and key have their wire lengths, and whose IPv6
/// address does not start with a zero byte (such an address reads back as
/// IPv4).
pub open spec fn peer_well_formed(p: PeerInfoView) -> bool {
    &&& p.id.len() == 16
    &&& match p.ip {
        IpView::V4(b) => b.len() == 4,
        IpView::V6(b) => b.len() == 16 && b[0] != 0,
    }
}

/// A header that can be written and read back.
pub open spec fn header_readable(h: HeaderView) -> bool {
    header_well_formed(h) && valid_nonce(h.id, h.nonce)
}

/// A message that can be written and read back.
pub open spec fn message_well_formed(m: MessageView) -> bool {
    &&& header_readable(spec_header(m))
    &&& match m {
        MessageView::Ping(_, v) => version_fits(v),
        MessageView::Pong(_, v) => version_fits(v),
        MessageView::FindNodes(_, v, k) => version_fits(v) && k.len() == 16,
        MessageView::Nodes(_, v, n) => version_fits(v) && n.len() < 65536 && forall|i: int|
            0 <= i < n.len() ==> #[trigger] peer_well_formed(n[i]),
        MessageView::Broadcast(_, b, _) => b.frame.len() < 0x1_0000_0000,
    }
}

/// The message read back from the wire: a broadcast loses its ray.
pub open spec fn as_received(m: MessageView) -> MessageView {
    match m {
        MessageView::Broadcast(h, b, _) => MessageView::Broadcast(h, b, zero_ray()),
        _ => m,
    }
}

proof fn lemma_header_roundtrip(h: HeaderView, rest: Seq<u8>)
    requires
        header_readable(h),
    ensures
        header_wire(h).len() == 25,
        parse_header(header_wire(h) + rest) == Ok::<(HeaderView, nat), super::EncodingError>(
            (h, 25),
        ),
{
    lemma_le_u16(h.sender_port, Seq::empty());
    let s = header_wire(h) + rest;
    assert(s.subrange(0, 16) =~= h.id);
    assert(s.subrange(16, 20) =~= h.nonce);
    assert(s.subrange(20, 22) =~= le_u16(h.sender_port));
    assert(s.subrange(23, 25) =~= h.reserved);
}

proof fn lemma_header_prefix(s: Seq<u8>)
    ensures
        parse_header(s) matches Ok((h, n)) ==> n <= s.len() && s.take(n as int) == header_wire(h)
            && header_readable(h),
{
    if let Ok((h, n)) = parse_header(s) {
        lemma_le_u16(0, s.subrange(20, 22));
        assert(s.take(n as int) =~= header_wire(h));
    }
}

proof fn lemma_version_roundtrip(v: Version, rest: Seq<u8>)
    requires
        version_fits(v),
    ensures
        version_wire(v).len() == 5,
        parse_version(version_wire(v) + rest) == Ok::<(Version, nat), super::EncodingError>(
            (v, 5),
        ),
{
    lemma_le_u16(v.minor as u16, Seq::empty());
    lemma_le_u16(v.patch as u16, Seq::empty());
    let s = version_wire(v) + rest;
    assert(s.subrange(1, 3) =~= le_u16(v.minor as u16));
    assert(s.subrange(3, 5) =~= le_u16(v.patch as u16));
}

proof fn lemma_version_prefix(s: Seq<u8>)
    ensures
        parse_version(s) matches Ok((v, n)) ==> n <= s.len() && s.take(n as int) == version_wire(v)
            && version_fits(v),
{
    if let Ok((v, n)) = parse_version(s) {
        lemma_le_u16(0, s.subrange(1, 3));
        let a = s.subrange(1, 3);
        lemma_le_u16(0, s.subrange(3, 5));
        assert(s.take(n as int) =~= version_wire(v));
    }
}

proof fn lemma_peer_roundtrip(p: PeerInfoView, rest: Seq<u8>)
    requires
        peer_well_formed(p),
    ensures
        parse_peer(peer_wire(p) + rest) == Ok::<(PeerInfoView, nat), super::EncodingError>(
            (p, peer_wire(p).len()),
        ),
{
    lemma_le_u16(p.port, Seq::empty());
    let s = peer_wire(p) + rest;
    match p.ip {
        IpView::V4(b) => {
            assert(s[0] == 0);
            assert(s.subrange(1, 5) =~= b);
            assert(s.subrange(5, 7) =~= le_u16(p.port));
            assert(s.subrange(7, 23) =~= p.id);
        },
        IpView::V6(b) => {
            assert(s[0] == b[0]);
            assert(s.subrange(0, 16) =~= b);
            assert(s.subrange(16, 18) =~= le_u16(p.port));
            assert(s.subrange(18, 34) =~= p.id);
        },
    }
}

proof fn lemma_peer_prefix(s: Seq<u8>)
    ensures
        parse_peer(s) matches Ok((p, n)) ==> n <= s.len() && s.take(n as int) == peer_wire(p)
            && peer_well_formed(p),
{
    if let Ok((p, n)) = parse_peer(s) {
        if s[0] == 0 {
            lemma_le_u16(0, s.subrange(5, 7));
        } else {
            lemma_le_u16(0, s.subrange(16, 18));
        }
        assert(s.take(n as int) =~= peer_wire(p));
    }
}

proof fn lemma_peers_roundtrip(ps: Seq<PeerInfoView>, rest: Seq<u8>)
    requires
        forall|i: int| 0 <= i < ps.len() ==> #[trigger] peer_well_formed(ps[i]),
    ensures
        parse_peers(peers_wire(ps) + rest, ps.len()) == Ok::<
            (Seq<PeerInfoView>, nat),
            super::EncodingError,
        >((ps, peers_wire(ps).len())),
    decreases ps.len(),
{
    if ps.len() > 0 {
        let init = ps.drop_last();
        let last = ps.last();
        assert(peer_well_formed(ps[ps.len() - 1]));
        assert forall|i: int| 0 <= i < init.len() implies #[trigger] peer_well_formed(init[i]) by {
            assert(init[i] == ps[i]);
            assert(peer_well_formed(ps[i]));
        }
        let tail = peer_wire(last) + rest;
        assert(peers_wire(ps) + rest =~= peers_wire(init) + tail);
        lemma_peers_roundtrip(init, tail);
        assert((peers_wire(init) + tail).skip(peers_wire(init).len() as int) =~= tail);
        lemma_peer_roundtrip(last, rest);
        assert(init.push(last) =~= ps);
        assert(peers_wire(init).len() + peer_wire(last).len() == peers_wire(ps).len());
    } else {
        assert(ps =~= Seq::<PeerInfoView>::empty());
    }
}

proof fn lemma_peers_prefix(s: Seq<u8>, k: nat)
    ensures
        parse_peers(s, k) matches Ok((ps, n)) ==> n <= s.len() && s.take(n as int) == peers_wire(ps)
            && ps.len() == k && forall|i: int| 0 <= i < ps.len() ==> #[trigger] peer_well_formed(
            ps[i]),
    decreases k,
{
    if k > 0 {
        lemma_peers_prefix(s, (k - 1) as nat);
        if let Ok((ps0, n0)) = parse_peers(s, (k - 1) as nat) {
            let t = s.skip(n0 as int);
            lemma_peer_prefix(t);
            if let Ok((p, m)) = parse_peer(t) {
                let ps = ps0.push(p);
                assert(ps.drop_last() =~= ps0);
                assert(s.take((n0 + m) as int) =~= s.take(n0 as int) + t.take(m as int));
                assert forall|i: int| 0 <= i < ps.len() implies #[trigger] peer_well_formed(ps[i]) by {
                    if i < ps0.len() {
                        assert(ps[i] == ps0[i]);
                    }
                }
            }
        }
    }
}

proof fn lemma_nodes_roundtrip(ps: Seq<PeerInfoView>, rest: Seq<u8>)
    requires
        ps.len() < 65536,
        forall|i: int| 0 <= i < ps.len() ==> #[trigger] peer_well_formed(ps[i]),
    ensures
        parse_nodes(nodes_wire(ps) + rest) == Ok::<(Seq<PeerInfoView>, nat), super::EncodingError>(
            (ps, nodes_wire(ps).len()),
        ),
{
    lemma_le_u16(ps.len() as u16, Seq::empty());
    let s = nodes_wire(ps) + rest;
    assert(s.subrange(0, 2) =~= le_u16(ps.len() as u16));
    assert(s.skip(2) =~= peers_wire(ps) + rest);
    lemma_peers_roundtrip(ps, rest);
}

proof fn lemma_nodes_prefix(s: Seq<u8>)
    ensures
        parse_nodes(s) matches Ok((ps, n)) ==> n <= s.len() && s.take(n as int) == nodes_wire(ps)
            && ps.len() < 65536 && forall|i: int| 0 <= i < ps.len() ==> #[trigger] peer_well_formed(
            ps[i]),
{
    if s.len() >= 2 {
        let k = from_le_u16(s.subrange(0, 2));
        lemma_le_u16(0, s.subrange(0, 2));
        lemma_peers_prefix(s.skip(2), k as nat);
        if let Ok((ps, n)) = parse_nodes(s) {
            assert(s.take(n as int) =~= s.subrange(0, 2) + s.skip(2).take((n - 2) as int));
        }
    }
}

proof fn lemma_broadcast_roundtrip(b: BroadcastView, rest: Seq<u8>)
    requires
        b.frame.len() < 0x1_0000_0000,
    ensures
        parse_broadcast(broadcast_wire(b) + rest) == Ok::<(BroadcastView, nat), super::EncodingError>(
            (b, broadcast_wire(b).len()),
        ),
{
    lemma_le_u32(b.frame.len() as u32, Seq::empty());
    let s = broadcast_wire(b) + rest;
    assert(s.subrange(1, 5) =~= le_u32(b.frame.len() as u32));
    assert(s.subrange(5, 5 + b.frame.len() as int) =~= b.frame);
}

proof fn lemma_broadcast_prefix(s: Seq<u8>)
    ensures
        parse_broadcast(s) matches Ok((b, n)) ==> n <= s.len() && s.take(n as int)
            == broadcast_wire(b) && b.frame.len() < 0x1_0000_0000,
{
    if let Ok((b, n)) = parse_broadcast(s) {
        lemma_le_u32(0, s.subrange(1, 5));
        assert(s.take(n as int) =~= broadcast_wire(b));
    }
}

/// Law: reading back what was written for a well-formed message gives the
/// message back (a broadcast with a zero ray, the ray not being on the wire)
/// and consumes exactly the bytes written, whatever follows them.
#[verifier::rlimit(40)]
pub proof fn lemma_message_roundtrip(m: MessageView, rest: Seq<u8>)
    requires
        message_well_formed(m),
    ensures
        parse_message(message_wire(m) + rest) == Ok::<(MessageView, nat), super::EncodingError>(
            (as_received(m), message_wire(m).len()),
        ),
{
    let h = spec_header(m);
    let s = message_wire(m) + rest;
    lemma_header_roundtrip(h, Seq::empty());
    let body = s.skip(26);
    let hr = s.skip(1);
    match m {
        MessageView::Ping(_, v) | MessageView::Pong(_, v) => {
            assert(hr =~= header_wire(h) + (version_wire(v) + rest));
            lemma_header_roundtrip(h, version_wire(v) + rest);
            assert(body =~= version_wire(v) + rest);
            lemma_version_roundtrip(v, rest);
        },
        MessageView::FindNodes(_, v, k) => {
            assert(hr =~= header_wire(h) + (version_wire(v) + k + rest));
            lemma_header_roundtrip(h, version_wire(v) + k + rest);
            assert(body =~= version_wire(v) + (k + rest));
            lemma_version_roundtrip(v, k + rest);
            assert(body.skip(5) =~= k + rest);
            assert((k + rest).subrange(0, 16) =~= k);
        },
        MessageView::Nodes(_, v, n) => {
            assert(hr =~= header_wire(h) + (version_wire(v) + nodes_wire(n) + rest));
            lemma_header_roundtrip(h, version_wire(v) + nodes_wire(n) + rest);
            assert(body =~= version_wire(v) + (nodes_wire(n) + rest));
            lemma_version_roundtrip(v, nodes_wire(n) + rest);
            assert(body.skip(5) =~= nodes_wire(n) + rest);
            lemma_nodes_roundtrip(n, rest);
        },
        MessageView::Broadcast(_, b, _) => {
            assert(hr =~= header_wire(h) + (broadcast_wire(b) + rest));
            lemma_header_roundtrip(h, broadcast_wire(b) + rest);
            assert(body =~= broadcast_wire(b) + rest);
            lemma_broadcast_roundtrip(b, rest);
        },
    }
}

/// Law: whatever is read from a byte string is well formed, and the bytes it
/// was read from are exactly what writing it gives back.
pub proof fn lemma_message_prefix(s: Seq<u8>)
    ensures
        parse_message(s) matches Ok((m, n)) ==> {
            &&& n <= s.len()
            &&& s.take(n as int) == message_wire(m)
            &&& message_well_formed(m)
            &&& as_received(m) == m
        },
{
    if let Ok((m, n)) = parse_message(s) {
        let hr = s.skip(1);
        lemma_header_prefix(hr);
        let body = s.skip(26);
        let t = s[0];
        assert(hr.take(25) =~= s.subrange(1, 26));
        if t == ID_MSG_PING || t == ID_MSG_PONG {
            lemma_version_prefix(body);
            assert(s.take(n as int) =~= seq![t] + hr.take(25) + body.take(5));
        } else if t == ID_MSG_FIND_NODES {
            lemma_version_prefix(body);
            let b2 = body.skip(5);
            assert(s.take(n as int) =~= seq![t] + hr.take(25) + body.take(5) + b2.take(16));
        } else if t == ID_MSG_NODES {
            lemma_version_prefix(body);
            let b2 = body.skip(5);
            lemma_nodes_prefix(b2);
            let nn = (n - 31) as int;
            assert(s.take(n as int) =~= seq![t] + hr.take(25) + body.take(5) + b2.take(nn));
        } else {
            lemma_broadcast_prefix(body);
            let bn = (n - 26) as int;
            assert(s.take(n as int) =~= seq![t] + hr.take(25) + body.take(bn));
        }
    }
}

} // verus!
