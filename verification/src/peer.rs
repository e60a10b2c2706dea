//! Peers: their socket address, identity derivation and wire forms.
use vstd::prelude::*;

use crate::encoding::header::{Header, HeaderView};
use crate::encoding::le_u16;
use crate::encoding::payload::nodes::{IpView, PeerInfoView};
use crate::encoding::payload::{IpInfo, PeerEncodedInfo};
use crate::encoding::push_bytes;
use crate::encoding::push_u16;
use crate::hashing::{blake2s256, spec_blake2s256};
use crate::kbucket::key::{le_u32, produced_nonce_ok};
use crate::kbucket::{BinaryID, BinaryKey, Node, NodeEvictionStatus};
use crate::K_ID_LEN_BYTES;

verus! {

/// A UDP socket address: IP address and port.
#[derive(Debug, PartialEq, Eq, Clone, Copy)]
pub struct SocketAddress {
    pub ip: IpInfo,
    pub port: u16,
}

/// The value stored in routing-table nodes: the peer's address.
#[derive(Debug, PartialEq, Eq, Clone, Copy)]
pub struct PeerInfo {
    pub address: SocketAddress,
}

/// A routing-table node describing a peer.
pub type PeerNode = Node<PeerInfo>;

impl PeerInfo {
    /// The peer's socket address.
    pub fn address(&self) -> (r: &SocketAddress)
        ensures
            *r == self.address,
    {
        &self.address
    }
}

/// The octets of an IP address.
pub open spec fn octets(ip: IpView) -> Seq<u8> {
    match ip {
        IpView::V4(b) => b,
        IpView::V6(b) => b,
    }
}

/// The key of a peer: the first 16 bytes of the BLAKE2s-256 digest of its
/// port (little endian) followed by its IP octets.
pub open spec fn spec_compute_id(ip: IpView, port: u16) -> Seq<u8> {
    spec_blake2s256(le_u16(port) + octets(ip)).subrange(0, K_ID_LEN_BYTES as int)
}

/// Computes the key of the peer at `ip` and `port`.
pub fn compute_id(ip: &IpInfo, port: u16) -> (r: BinaryKey)
    ensures
        r@ == spec_compute_id(ip@, port),
{
    let mut data: Vec<u8> = Vec::new();
    push_u16(&mut data, port);
    match ip {
        IpInfo::IPv4(o) => push_bytes(&mut data, o.as_slice()),
        IpInfo::IPv6(o) => push_bytes(&mut data, o.as_slice()),
    }
    let digest = blake2s256(data.as_slice());
    let mut r = [0u8; 16];
    let mut i: usize = 0;
    while i < K_ID_LEN_BYTES
        invariant
            i <= K_ID_LEN_BYTES,
            digest@.len() == 32,
            r@.len() == 16,
            forall|j: int| 0 <= j < i ==> r@[j] == digest@[j],
        decreases K_ID_LEN_BYTES - i,
    {
        r[i] = digest[i];
        i = i + 1;
    }
    assert(r@ =~= digest@.subrange(0, 16));
    r
}

/// Whether two keys are equal.
pub fn keys_equal(a: &[u8; 16], b: &[u8; 16]) -> (r: bool)
    ensures
        r == (a@ == b@),
{
    let mut i: usize = 0;
    while i < 16
        invariant
            i <= 16,
            a@.len() == 16,
            b@.len() == 16,
            forall|j: int| 0 <= j < i ==> a@[j] == b@[j],
        decreases 16 - i,
    {
        if a[i] != b[i] {
            return false;
        }
        i = i + 1;
    }
    assert(a@ =~= b@);
    true
}

/// The entry describing a node in a `Nodes` message.
pub open spec fn peer_info_view(n: PeerNode) -> PeerInfoView {
    PeerInfoView { ip: n.value.address.ip@, port: n.value.address.port, id: n.id.key() }
}

impl PeerEncodedInfo {
    /// The socket address of the entry.
    pub fn to_socket_address(&self) -> (r: SocketAddress)
        ensures
            r == (SocketAddress { ip: self.ip, port: self.port }),
    {
        SocketAddress { ip: self.ip, port: self.port }
    }
}

/// The header model of a node: its identity, port and network, no reserved
/// bits set.
pub open spec fn spec_header_of(n: PeerNode) -> HeaderView {
    HeaderView {
        id: n.id.key(),
        nonce: n.id.nonce_bytes(),
        sender_port: n.value.address.port,
        network_id: n.network_id,
        reserved: seq![0u8, 0u8],
    }
}

impl Node<PeerInfo> {
    /// Builds the node of the peer at `address`, generating its identity
    /// (see `BinaryID::generate`); seen now (the wall clock is read).
    pub fn generate(address: SocketAddress, network_id: u8) -> (r: Option<Self>)
        ensures
            r is None <==> forall|m: u32|
                !#[trigger] produced_nonce_ok(spec_compute_id(address.ip@, address.port), m),
            r matches Some(n) ==> {
                &&& n.id.key() == spec_compute_id(address.ip@, address.port)
                &&& n.value.address == address
                &&& n.network_id == network_id
                &&& n.eviction_status == NodeEvictionStatus::NotRequested
                &&& exists|k: u32|
                    #![trigger le_u32(k)]
                    {
                        &&& n.id.nonce_bytes() == le_u32(k)
                        &&& produced_nonce_ok(n.id.key(), k)
                        &&& forall|m: u32| m < k ==> !#[trigger] produced_nonce_ok(n.id.key(), m)
                    }
            },
    {
        let binary = compute_id(&address.ip, address.port);
        match BinaryID::generate(binary) {
            Some(id) => Some(Node::new(id, PeerInfo { address }, network_id)),
            None => None,
        }
    }

    /// The node of the peer at `address` with identity `id`, seen at `now`.
    pub fn from_socket_at(address: SocketAddress, id: BinaryID, network_id: u8, now: u64) -> (r: Self)
        ensures
            r == Node::new_spec(id, PeerInfo { address }, network_id, now),
    {
        Node::new_at(id, PeerInfo { address }, network_id, now)
    }

    /// The node of the peer at `address` with identity `id`, seen now (the
    /// wall clock is read).
    pub fn from_socket(address: SocketAddress, id: BinaryID, network_id: u8) -> (r: Self)
        ensures
            exists|now: u64| r == Node::new_spec(id, PeerInfo { address }, network_id, now),
    {
        Node::new(id, PeerInfo { address }, network_id)
    }

    /// The header identity matches the key derived from `ip` and the
    /// header's port.
    pub fn verify_header(header: &Header, ip: &IpInfo) -> (r: bool)
        ensures
            r == (header.binary_id.key() == spec_compute_id(ip@, header.sender_port)),
    {
        let expected = compute_id(ip, header.sender_port);
        keys_equal(header.binary_id.as_binary(), &expected)
    }

    /// The header describing this node.
    pub fn to_header(&self) -> (r: Header)
        ensures
            r == (Header {
                binary_id: self.id,
                sender_port: self.value.address.port,
                network_id: self.network_id,
                reserved: r.reserved,
            }),
            r.reserved@ == seq![0u8, 0u8],
            r@ == spec_header_of(*self),
    {
        let reserved = [0u8, 0u8];
        assert(reserved@ =~= seq![0u8, 0u8]);
        Header {
            binary_id: *self.id(),
            sender_port: self.value.address.port,
            reserved,
            network_id: self.network_id,
        }
    }

    /// The entry describing this node in a `Nodes` message.
    pub fn as_peer_info(&self) -> (r: PeerEncodedInfo)
        ensures
            r@ == peer_info_view(*self),
    {
        PeerEncodedInfo {
            id: *self.id().as_binary(),
            ip: self.value.address.ip,
            port: self.value.address.port,
        }
    }
}

} // verus!
