//! Kadcast messages and their wire encoding.
use vstd::prelude::*;

use super::header::{header_wire, parse_header, Header, HeaderView, HEADER_LEN};
use super::payload::broadcast::{broadcast_wire, parse_broadcast, BroadcastView};
use super::payload::nodes::{nodes_wire, parse_nodes, PeerInfoView};
use super::payload::{BroadcastPayload, NodePayload};
use super::{from_le_u16, le_u16, push_bytes, push_u16, read_array_16, read_u16, EncodingError, Marshallable};
use crate::kbucket::BinaryKey;

verus! {

/// Wire id of `Ping`.
pub const ID_MSG_PING: u8 = 0;

/// Wire id of `Pong`.
pub const ID_MSG_PONG: u8 = 1;

/// Wire id of `FindNodes`.
pub const ID_MSG_FIND_NODES: u8 = 2;

/// Wire id of `Nodes`.
pub const ID_MSG_NODES: u8 = 3;

/// Wire id of `Broadcast`.
pub const ID_MSG_BROADCAST: u8 = 10;

/// The protocol version a peer announces (major, minor and patch numbers).
#[derive(Debug, PartialEq, Eq, Clone, Copy)]
pub struct Version {
    pub major: u64,
    pub minor: u64,
    pub patch: u64,
}

impl View for Version {
    type V = Version;

    open spec fn view(&self) -> Version {
        *self
    }
}

impl Version {
    /// Builds a version from its three numbers.
    pub fn new(major: u64, minor: u64, patch: u64) -> (r: Version)
        ensures
            r == (Version { major, minor, patch }),
    {
        Version { major, minor, patch }
    }
}

/// Bytes of an encoded version: the major number as one byte, minor and patch
/// numbers as little-endian `u16` (each truncated).
pub open spec fn version_wire(v: Version) -> Seq<u8> {
    seq![v.major as u8] + le_u16(v.minor as u16) + le_u16(v.patch as u16)
}

/// What reading a version from the start of `s` yields.
pub open spec fn parse_version(s: Seq<u8>) -> Result<(Version, nat), EncodingError> {
    if s.len() < 5 {
        Err(EncodingError::UnexpectedEof)
    } else {
        Ok(
            (
                Version {
                    major: s[0] as u64,
                    minor: from_le_u16(s.subrange(1, 3)) as u64,
                    patch: from_le_u16(s.subrange(3, 5)) as u64,
                },
                5,
            ),
        )
    }
}

/// What reading a key from the start of `s` yields.
pub open spec fn parse_key(s: Seq<u8>) -> Result<(Seq<u8>, nat), EncodingError> {
    if s.len() < 16 {
        Err(EncodingError::UnexpectedEof)
    } else {
        Ok((s.subrange(0, 16), 16))
    }
}

impl Marshallable for Version {
    open spec fn wire(v: Version) -> Seq<u8> {
        version_wire(v)
    }

    open spec fn parse(data: Seq<u8>) -> Result<(Version, nat), EncodingError> {
        parse_version(data)
    }

    fn marshal_binary(&self, writer: &mut Vec<u8>) -> (r: Result<(), EncodingError>) {
        let ghost start = writer@;
        writer.push(self.major as u8);
        push_u16(writer, self.minor as u16);
        push_u16(writer, self.patch as u16);
        assert(writer@ =~= start + version_wire(*self));
        Ok(())
    }

    fn unmarshal_binary(reader: &[u8]) -> (r: Result<(Self, usize), EncodingError>) {
        if reader.len() < 5 {
            return Err(EncodingError::UnexpectedEof);
        }
        let v = Version::new(reader[0] as u64, read_u16(reader, 1) as u64, read_u16(reader, 3) as u64);
        Ok((v, 5))
    }
}

impl Marshallable for [u8; 16] {
    open spec fn wire(v: Seq<u8>) -> Seq<u8> {
        v
    }

    open spec fn parse(data: Seq<u8>) -> Result<(Seq<u8>, nat), EncodingError> {
        parse_key(data)
    }

    fn marshal_binary(&self, writer: &mut Vec<u8>) -> (r: Result<(), EncodingError>) {
        push_bytes(writer, self.as_slice());
        Ok(())
    }

    fn unmarshal_binary(reader: &[u8]) -> (r: Result<(Self, usize), EncodingError>) {
        if reader.len() < 16 {
            return Err(EncodingError::UnexpectedEof);
        }
        Ok((read_array_16(reader, 0), 16))
    }
}

/// A Kadcast message.
#[derive(Debug, PartialEq, Clone)]
pub enum Message {
    Ping(Header, Version),
    Pong(Header, Version),
    FindNodes(Header, Version, BinaryKey),
    Nodes(Header, Version, NodePayload),
    Broadcast(Header, BroadcastPayload, [u8; 32]),
}

/// Model of a message.
pub enum MessageView {
    Ping(HeaderView, Version),
    Pong(HeaderView, Version),
    FindNodes(HeaderView, Version, Seq<u8>),
    Nodes(HeaderView, Version, Seq<PeerInfoView>),
    Broadcast(HeaderView, BroadcastView, Seq<u8>),
}

impl View for Message {
    type V = MessageView;

    open spec fn view(&self) -> MessageView {
        match self {
            Message::Ping(h, v) => MessageView::Ping(h@, *v),
            Message::Pong(h, v) => MessageView::Pong(h@, *v),
            Message::FindNodes(h, v, k) => MessageView::FindNodes(h@, *v, k@),
            Message::Nodes(h, v, n) => MessageView::Nodes(h@, *v, n@),
            Message::Broadcast(h, b, r) => MessageView::Broadcast(h@, b@, r@),
        }
    }
}

/// The wire id of a message kind.
pub open spec fn spec_type_byte(m: MessageView) -> u8 {
    match m {
        MessageView::Ping(..) => ID_MSG_PING,
        MessageView::Pong(..) => ID_MSG_PONG,
        MessageView::FindNodes(..) => ID_MSG_FIND_NODES,
        MessageView::Nodes(..) => ID_MSG_NODES,
        MessageView::Broadcast(..) => ID_MSG_BROADCAST,
    }
}

/// The header of a message model.
pub open spec fn spec_header(m: MessageView) -> HeaderView {
    match m {
        MessageView::Ping(h, _) => h,
        MessageView::Pong(h, _) => h,
        MessageView::FindNodes(h, _, _) => h,
        MessageView::Nodes(h, _, _) => h,
        MessageView::Broadcast(h, _, _) => h,
    }
}

/// Bytes of an encoded message: the kind, the header, then the version (for
/// every kind but `Broadcast`) and the payload. The ray of a broadcast is not
/// on the wire.
pub open spec fn message_wire(m: MessageView) -> Seq<u8> {
    seq![spec_type_byte(m)] + header_wire(spec_header(m)) + match m {
        MessageView::Ping(_, v) => version_wire(v),
        MessageView::Pong(_, v) => version_wire(v),
        MessageView::FindNodes(_, v, k) => version_wire(v) + k,
        MessageView::Nodes(_, v, n) => version_wire(v) + nodes_wire(n),
        MessageView::Broadcast(_, b, _) => broadcast_wire(b),
    }
}

/// Thirty-two zero bytes: the ray of a broadcast read from the wire.
pub open spec fn zero_ray() -> Seq<u8> {
    Seq::new(32, |i: int| 0u8)
}

/// What reading a message from the start of `s` yields: the kind byte and the
/// header are read first; an unknown kind is reported after the header.
pub open spec fn parse_message(s: Seq<u8>) -> Result<(MessageView, nat), EncodingError> {
    if s.len() < 1 {
        Err(EncodingError::UnexpectedEof)
    } else {
        match parse_header(s.skip(1)) {
            Err(e) => Err(e),
            Ok((h, hn)) => {
                let rest = s.skip((1 + hn) as int);
                let t = s[0];
                if t == ID_MSG_PING || t == ID_MSG_PONG {
                    match parse_version(rest) {
                        Err(e) => Err(e),
                        Ok((v, vn)) => Ok(
                            (
                                if t == ID_MSG_PING {
                                    MessageView::Ping(h, v)
                                } else {
                                    MessageView::Pong(h, v)
                                },
                                1 + hn + vn,
                            ),
                        ),
                    }
                } else if t == ID_MSG_FIND_NODES {
                    match parse_version(rest) {
                        Err(e) => Err(e),
                        Ok((v, vn)) => match parse_key(rest.skip(vn as int)) {
                            Err(e) => Err(e),
                            Ok((k, kn)) => Ok((MessageView::FindNodes(h, v, k), 1 + hn + vn + kn)),
                        },
                    }
                } else if t == ID_MSG_NODES {
                    match parse_version(rest) {
                        Err(e) => Err(e),
                        Ok((v, vn)) => match parse_nodes(rest.skip(vn as int)) {
                            Err(e) => Err(e),
                            Ok((n, nn)) => Ok((MessageView::Nodes(h, v, n), 1 + hn + vn + nn)),
                        },
                    }
                } else if t == ID_MSG_BROADCAST {
                    match parse_broadcast(rest) {
                        Err(e) => Err(e),
                        Ok((b, bn)) => Ok(
                            (MessageView::Broadcast(h, b, zero_ray()), 1 + hn + bn),
                        ),
                    }
                } else {
                    Err(EncodingError::InvalidMessageType(t))
                }
            },
        }
    }
}

/// Thirty-two zero bytes.
pub fn zero_ray_array() -> (r: [u8; 32])
    ensures
        r@ == zero_ray(),
{
    let mut r = [0u8; 32];
    let mut i: usize = 0;
    while i < 32
        invariant
            i <= 32,
            r@.len() == 32,
            forall|j: int| 0 <= j < i ==> r@[j] == 0u8,
        decreases 32 - i,
    {
        r[i] = 0u8;
        i = i + 1;
    }
    assert(r@ =~= zero_ray());
    r
}

impl Message {
    /// A broadcast message with a zero ray.
    pub fn broadcast(header: Header, payload: BroadcastPayload) -> (r: Self)
        ensures
            r@ == MessageView::Broadcast(header@, payload@, zero_ray()),
    {
        Message::Broadcast(header, payload, zero_ray_array())
    }

    /// The wire id of this message's kind.
    pub fn type_byte(&self) -> (r: u8)
        ensures
            r == spec_type_byte(self@),
    {
        match self {
            Message::Ping(..) => ID_MSG_PING,
            Message::Pong(..) => ID_MSG_PONG,
            Message::FindNodes(..) => ID_MSG_FIND_NODES,
            Message::Nodes(..) => ID_MSG_NODES,
            Message::Broadcast(..) => ID_MSG_BROADCAST,
        }
    }

    /// The header of this message.
    pub open spec fn header_spec(&self) -> Header {
        match self {
            Message::Ping(h, ..) => *h,
            Message::Pong(h, ..) => *h,
            Message::FindNodes(h, ..) => *h,
            Message::Nodes(h, ..) => *h,
            Message::Broadcast(h, ..) => *h,
        }
    }

    /// The header of this message.
    pub fn header(&self) -> (r: &Header)
        ensures
            r@ == spec_header(self@),
            *r == self.header_spec(),
    {
        match self {
            Message::Ping(header, ..) => header,
            Message::Pong(header, ..) => header,
            Message::FindNodes(header, ..) => header,
            Message::Nodes(header, ..) => header,
            Message::Broadcast(header, ..) => header,
        }
    }

    /// The encoding of this message.
    pub fn bytes(&self) -> (r: Result<Vec<u8>, EncodingError>)
        ensures
            r matches Ok(b) && b@ == message_wire(self@),
    {
        let mut bytes: Vec<u8> = Vec::new();
        match self.marshal_binary(&mut bytes) {
            Ok(()) => Ok(bytes),
            Err(e) => Err(e),
        }
    }

    /// The version announced by this message; broadcasts carry none.
    pub fn version(&self) -> (r: Option<&Version>)
        ensures
            match self {
                Message::Ping(_, v) => r == Some(v),
                Message::Pong(_, v) => r == Some(v),
                Message::FindNodes(_, v, _) => r == Some(v),
                Message::Nodes(_, v, _) => r == Some(v),
                Message::Broadcast(..) => r is None,
            },
    {
        match self {
            Message::Ping(_, version) => Some(version),
            Message::Pong(_, version) => Some(version),
            Message::FindNodes(_, version, _) => Some(version),
            Message::Nodes(_, version, _) => Some(version),
            _ => None,
        }
    }
}

impl Marshallable for Message {
    open spec fn wire(v: MessageView) -> Seq<u8> {
        message_wire(v)
    }

    open spec fn parse(data: Seq<u8>) -> Result<(MessageView, nat), EncodingError> {
        parse_message(data)
    }

    fn marshal_binary(&self, writer: &mut Vec<u8>) -> (r: Result<(), EncodingError>) {
        let ghost start = writer@;
        writer.push(self.type_byte());
        let _ = self.header().marshal_binary(writer);
        let ghost mid = writer@;
        match self {
            Message::Ping(_, version) | Message::Pong(_, version) => {
                let _ = version.marshal_binary(writer);
            },
            Message::FindNodes(_, version, target) => {
                let _ = version.marshal_binary(writer);
                let _ = target.marshal_binary(writer);
            },
            Message::Nodes(_, version, node_payload) => {
                let _ = version.marshal_binary(writer);
                let _ = node_payload.marshal_binary(writer);
            },
            Message::Broadcast(_, broadcast_payload, ..) => {
                let _ = broadcast_payload.marshal_binary(writer);
            },
        };
        assert(writer@ =~= start + message_wire(self@));
        Ok(())
    }

    fn unmarshal_binary(reader: &[u8]) -> (r: Result<(Self, usize), EncodingError>) {
        if reader.len() < 1 {
            return Err(EncodingError::UnexpectedEof);
        }
        let message_type = reader[0];
        let after_type = vstd::slice::slice_subrange(reader, 1, reader.len());
        assert(after_type@ =~= reader@.skip(1));
        let header = match Header::unmarshal_binary(after_type) {
            Ok((h, _)) => h,
            Err(e) => return Err(e),
        };
        let off: usize = 1 + HEADER_LEN;
        let rest = vstd::slice::slice_subrange(reader, off, reader.len());
        assert(rest@ =~= reader@.skip(off as int));
        if message_type == ID_MSG_PING || message_type == ID_MSG_PONG {
            let (version, vn) = match Version::unmarshal_binary(rest) {
                Ok(x) => x,
                Err(e) => return Err(e),
            };
            let m = if message_type == ID_MSG_PING {
                Message::Ping(header, version)
            } else {
                Message::Pong(header, version)
            };
            Ok((m, off + vn))
        } else if message_type == ID_MSG_FIND_NODES {
            let (version, vn) = match Version::unmarshal_binary(rest) {
                Ok(x) => x,
                Err(e) => return Err(e),
            };
            let rest2 = vstd::slice::slice_subrange(rest, vn, rest.len());
            assert(rest2@ =~= rest@.skip(vn as int));
            let (target, kn) = match <[u8; 16] as Marshallable>::unmarshal_binary(rest2) {
                Ok(x) => x,
                Err(e) => return Err(e),
            };
            Ok((Message::FindNodes(header, version, target), off + vn + kn))
        } else if message_type == ID_MSG_NODES {
            let (version, vn) = match Version::unmarshal_binary(rest) {
                Ok(x) => x,
                Err(e) => return Err(e),
            };
            let rest2 = vstd::slice::slice_subrange(rest, vn, rest.len());
            assert(rest2@ =~= rest@.skip(vn as int));
            let (payload, pn) = match NodePayload::unmarshal_binary(rest2) {
                Ok(x) => x,
                Err(e) => return Err(e),
            };
            proof {
                super::payload::nodes::lemma_parse_nodes_bound(rest2@);
            }
            Ok((Message::Nodes(header, version, payload), off + vn + pn))
        } else if message_type == ID_MSG_BROADCAST {
            let (payload, bn) = match BroadcastPayload::unmarshal_binary(rest) {
                Ok(x) => x,
                Err(e) => return Err(e),
            };
            Ok((Message::broadcast(header, payload), off + bn))
        } else {
            Err(EncodingError::InvalidMessageType(message_type))
        }
    }
}

} // verus!
