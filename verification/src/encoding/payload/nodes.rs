//! The payload of a `Nodes` message: a list of peer addresses and keys.
use vstd::prelude::*;

use crate::encoding::{
    from_le_u16, le_u16, push_bytes, push_u16, read_array_16, read_array_4, read_u16,
    EncodingError, Marshallable,
};

verus! {

/// An IP address, version 4 or 6.
#[derive(Debug, PartialEq, Eq, Clone, Copy)]
pub enum IpInfo {
    IPv4([u8; 4]),
    IPv6([u8; 16]),
}

/// Model of an IP address: its octets.
pub enum IpView {
    V4(Seq<u8>),
    V6(Seq<u8>),
}

impl View for IpInfo {
    type V = IpView;

    open spec fn view(&self) -> IpView {
        match self {
            IpInfo::IPv4(b) => IpView::V4(b@),
            IpInfo::IPv6(b) => IpView::V6(b@),
        }
    }
}

/// Address and key of a peer as carried in a `Nodes` message.
#[derive(Debug, PartialEq, Eq, Clone, Copy)]
pub struct PeerEncodedInfo {
    pub ip: IpInfo,
    pub port: u16,
    pub id: [u8; 16],
}

/// Model of a peer entry.
pub struct PeerInfoView {
    pub ip: IpView,
    pub port: u16,
    pub id: Seq<u8>,
}

impl View for PeerEncodedInfo {
    type V = PeerInfoView;

    open spec fn view(&self) -> PeerInfoView {
        PeerInfoView { ip: self.ip@, port: self.port, id: self.id@ }
    }
}

/// A list of peers.
#[derive(Debug, PartialEq, Clone)]
pub struct NodePayload {
    pub peers: Vec<PeerEncodedInfo>,
}

impl View for NodePayload {
    type V = Seq<PeerInfoView>;

    open spec fn view(&self) -> Seq<PeerInfoView> {
        self.peers@.map_values(|p: PeerEncodedInfo| p@)
    }
}

/// Bytes of an encoded IP address: an IPv4 address is led by a zero byte,
/// an IPv6 address is written bare. A reader tells them apart by the first
/// byte, so an IPv6 address whose first byte is zero reads back as IPv4.
pub open spec fn ip_wire(ip: IpView) -> Seq<u8> {
    match ip {
        IpView::V4(b) => seq![0u8] + b,
        IpView::V6(b) => b,
    }
}

/// Bytes of an encoded peer entry: address, port (little endian), key.
pub open spec fn peer_wire(p: PeerInfoView) -> Seq<u8> {
    ip_wire(p.ip) + le_u16(p.port) + p.id
}

/// What reading a peer entry from the start of `s` yields. After a zero
/// byte come the four bytes of an IPv4 address; otherwise the first 16 bytes
/// are an IPv6 address.
pub open spec fn parse_peer(s: Seq<u8>) -> Result<(PeerInfoView, nat), EncodingError> {
    if s.len() < 1 {
        Err(EncodingError::UnexpectedEof)
    } else {
        let (ip, off) = if s[0] == 0 {
            (IpView::V4(s.subrange(1, 5)), 5int)
        } else {
            (IpView::V6(s.subrange(0, 16)), 16int)
        };
        if s.len() < off + 18 {
            Err(EncodingError::UnexpectedEof)
        } else {
            Ok(
                (
                    PeerInfoView {
                        ip,
                        port: from_le_u16(s.subrange(off, off + 2)),
                        id: s.subrange(off + 2, off + 18),
                    },
                    (off + 18) as nat,
                ),
            )
        }
    }
}

/// Bytes of a sequence of peer entries, one after the other.
pub open spec fn peers_wire(ps: Seq<PeerInfoView>) -> Seq<u8>
    decreases ps.len(),
{
    if ps.len() == 0 {
        Seq::empty()
    } else {
        peers_wire(ps.drop_last()) + peer_wire(ps.last())
    }
}

/// What reading `k` peer entries, one after the other, from `s` yields.
pub open spec fn parse_peers(s: Seq<u8>, k: nat) -> Result<(Seq<PeerInfoView>, nat), EncodingError>
    decreases k,
{
    if k == 0 {
        Ok((Seq::empty(), 0))
    } else {
        match parse_peers(s, (k - 1) as nat) {
            Err(e) => Err(e),
            Ok((ps, n)) => match parse_peer(s.skip(n as int)) {
                Err(e) => Err(e),
                Ok((p, m)) => Ok((ps.push(p), n + m)),
            },
        }
    }
}

/// Bytes of an encoded node list: the count as a little-endian `u16`
/// (truncated), then the entries.
pub open spec fn nodes_wire(ps: Seq<PeerInfoView>) -> Seq<u8> {
    le_u16(ps.len() as u16) + peers_wire(ps)
}

/// What reading a node list from the start of `s` yields.
pub open spec fn parse_nodes(s: Seq<u8>) -> Result<(Seq<PeerInfoView>, nat), EncodingError> {
    if s.len() < 2 {
        Err(EncodingError::UnexpectedEof)
    } else {
        match parse_peers(s.skip(2), from_le_u16(s.subrange(0, 2)) as nat) {
            Err(e) => Err(e),
            Ok((ps, n)) => Ok((ps, n + 2)),
        }
    }
}

proof fn lemma_parse_peer_bound(s: Seq<u8>)
    ensures
        parse_peer(s) matches Ok((p, n)) ==> 0 < n <= s.len(),
{
}

proof fn lemma_parse_peers_bound(s: Seq<u8>, k: nat)
    ensures
        parse_peers(s, k) matches Ok((ps, n)) ==> n <= s.len() && ps.len() == k,
    decreases k,
{
    if k > 0 {
        lemma_parse_peers_bound(s, (k - 1) as nat);
        if let Ok((ps, n)) = parse_peers(s, (k - 1) as nat) {
            lemma_parse_peer_bound(s.skip(n as int));
        }
    }
}

/// A node list read from `s` never consumes more than `s`.
pub proof fn lemma_parse_nodes_bound(s: Seq<u8>)
    ensures
        parse_nodes(s) matches Ok((ps, n)) ==> n <= s.len(),
{
    if s.len() >= 2 {
        lemma_parse_peers_bound(s.skip(2), from_le_u16(s.subrange(0, 2)) as nat);
    }
}

proof fn lemma_parse_peers_err(s: Seq<u8>, k: nat, m: nat)
    requires
        k <= m,
        parse_peers(s, k) is Err,
    ensures
        parse_peers(s, m) == parse_peers(s, k),
    decreases m - k,
{
    if k < m {
        lemma_parse_peers_err(s, k, (m - 1) as nat);
    }
}

impl Marshallable for PeerEncodedInfo {
    open spec fn wire(v: PeerInfoView) -> Seq<u8> {
        peer_wire(v)
    }

    open spec fn parse(data: Seq<u8>) -> Result<(PeerInfoView, nat), EncodingError> {
        parse_peer(data)
    }

    fn marshal_binary(&self, writer: &mut Vec<u8>) -> (r: Result<(), EncodingError>) {
        let ghost start = writer@;
        match &self.ip {
            IpInfo::IPv4(bytes) => {
                writer.push(0u8);
                push_bytes(writer, bytes.as_slice());
            },
            IpInfo::IPv6(bytes) => {
                push_bytes(writer, bytes.as_slice());
            },
        }
        push_u16(writer, self.port);
        push_bytes(writer, self.id.as_slice());
        assert(writer@ =~= start + peer_wire(self@));
        Ok(())
    }

    fn unmarshal_binary(reader: &[u8]) -> (r: Result<(Self, usize), EncodingError>) {
        if reader.len() < 1 {
            return Err(EncodingError::UnexpectedEof);
        }
        let off: usize = if reader[0] == 0u8 { 5 } else { 16 };
        if reader.len() < off + 18 {
            return Err(EncodingError::UnexpectedEof);
        }
        let ip = if reader[0] == 0u8 {
            IpInfo::IPv4(read_array_4(reader, 1))
        } else {
            IpInfo::IPv6(read_array_16(reader, 0))
        };
        let port = read_u16(reader, off);
        let id = read_array_16(reader, off + 2);
        let p = PeerEncodedInfo { ip, port, id };
        assert(p@ == parse_peer(reader@)->Ok_0.0);
        Ok((p, off + 18))
    }
}

impl Marshallable for NodePayload {
    open spec fn wire(v: Seq<PeerInfoView>) -> Seq<u8> {
        nodes_wire(v)
    }

    open spec fn parse(data: Seq<u8>) -> Result<(Seq<PeerInfoView>, nat), EncodingError> {
        parse_nodes(data)
    }

    fn marshal_binary(&self, writer: &mut Vec<u8>) -> (r: Result<(), EncodingError>) {
        let ghost start = writer@;
        let len = self.peers.len() as u16;
        push_u16(writer, len);
        let mut i: usize = 0;
        while i < self.peers.len()
            invariant
                i <= self.peers@.len(),
                len == self.peers@.len() as u16,
                writer@ == start + le_u16(len) + peers_wire(self@.take(i as int)),
            decreases self.peers@.len() - i,
        {
            let _ = self.peers[i].marshal_binary(writer);
            proof {
                let t = self@.take(i + 1);
                assert(t.drop_last() =~= self@.take(i as int));
                assert(t.last() == self.peers@[i as int]@);
            }
            i = i + 1;
        }
        assert(self@.take(self.peers@.len() as int) =~= self@);
        assert(self@.len() == self.peers@.len());
        Ok(())
    }

    fn unmarshal_binary(reader: &[u8]) -> (r: Result<(Self, usize), EncodingError>) {
        if reader.len() < 2 {
            return Err(EncodingError::UnexpectedEof);
        }
        let count = read_u16(reader, 0);
        let ghost rest = reader@.skip(2);
        let mut peers: Vec<PeerEncodedInfo> = Vec::new();
        let mut off: usize = 2;
        let mut k: u16 = 0;
        assert(parse_peers(rest, 0) == Ok::<(Seq<PeerInfoView>, nat), EncodingError>((Seq::empty(), 0)));
        assert(peers@.map_values(|p: PeerEncodedInfo| p@) =~= Seq::<PeerInfoView>::empty());
        while k < count
            invariant
                k <= count,
                2 <= off <= reader@.len(),
                rest == reader@.skip(2),
                count == from_le_u16(reader@.subrange(0, 2)),
                parse_peers(rest, k as nat) == Ok::<(Seq<PeerInfoView>, nat), EncodingError>(
                    (peers@.map_values(|p: PeerEncodedInfo| p@), (off - 2) as nat),
                ),
            decreases count - k,
        {
            let tail = vstd::slice::slice_subrange(reader, off, reader.len());
            assert(tail@ =~= rest.skip(off - 2));
            match PeerEncodedInfo::unmarshal_binary(tail) {
                Err(e) => {
                    proof {
                        lemma_parse_peers_err(rest, (k + 1) as nat, count as nat);
                    }
                    return Err(e);
                },
                Ok((p, n)) => {
                    proof {
                        lemma_parse_peer_bound(tail@);
                    }
                    let ghost old_peers = peers@;
                    peers.push(p);
                    assert(peers@.map_values(|q: PeerEncodedInfo| q@) =~= old_peers.map_values(
                        |q: PeerEncodedInfo| q@,
                    ).push(p@));
                    off = off + n;
                    k = k + 1;
                },
            }
        }
        Ok((NodePayload { peers }, off))
    }
}

} // verus!
