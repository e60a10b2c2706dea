//! The payload of a broadcast message: a height and an opaque frame.
use vstd::prelude::*;

use crate::encoding::{from_le_u32, push_bytes, push_u32, read_u32, EncodingError, Marshallable};
use crate::kbucket::key::le_u32;

verus! {

/// Model of a broadcast payload.
pub struct BroadcastView {
    pub height: u8,
    pub frame: Seq<u8>,
}

/// The payload of a broadcast message.
#[derive(Debug, PartialEq, Clone)]
pub struct BroadcastPayload {
    pub height: u8,
    pub gossip_frame: Vec<u8>,
}

impl View for BroadcastPayload {
    type V = BroadcastView;

    open spec fn view(&self) -> BroadcastView {
        BroadcastView { height: self.height, frame: self.gossip_frame@ }
    }
}

/// Bytes of an encoded broadcast payload: height, frame length as a
/// little-endian `u32` (truncated), then the frame.
pub open spec fn broadcast_wire(v: BroadcastView) -> Seq<u8> {
    seq![v.height] + le_u32(v.frame.len() as u32) + v.frame
}

/// What reading a broadcast payload from the start of `s` yields.
pub open spec fn parse_broadcast(s: Seq<u8>) -> Result<(BroadcastView, nat), EncodingError> {
    if s.len() < 5 {
        Err(EncodingError::UnexpectedEof)
    } else {
        let len = from_le_u32(s.subrange(1, 5)) as nat;
        if s.len() < 5 + len {
            Err(EncodingError::UnexpectedEof)
        } else {
            Ok((BroadcastView { height: s[0], frame: s.subrange(5, 5 + len as int) }, 5 + len))
        }
    }
}

impl Marshallable for BroadcastPayload {
    open spec fn wire(v: BroadcastView) -> Seq<u8> {
        broadcast_wire(v)
    }

    open spec fn parse(data: Seq<u8>) -> Result<(BroadcastView, nat), EncodingError> {
        parse_broadcast(data)
    }

    fn marshal_binary(&self, writer: &mut Vec<u8>) -> (r: Result<(), EncodingError>) {
        let ghost start = writer@;
        writer.push(self.height);
        let len = self.gossip_frame.len() as u32;
        push_u32(writer, len);
        push_bytes(writer, self.gossip_frame.as_slice());
        assert(writer@ =~= start + broadcast_wire(self@));
        Ok(())
    }

    fn unmarshal_binary(reader: &[u8]) -> (r: Result<(Self, usize), EncodingError>) {
        if reader.len() < 5 {
            return Err(EncodingError::UnexpectedEof);
        }
        let height = reader[0];
        let gossip_length = read_u32(reader, 1) as usize;
        if reader.len() - 5 < gossip_length {
            return Err(EncodingError::UnexpectedEof);
        }
        let frame = vstd::slice::slice_to_vec(vstd::slice::slice_subrange(reader, 5, 5 + gossip_length));
        let p = BroadcastPayload { height, gossip_frame: frame };
        assert(p@ == parse_broadcast(reader@)->Ok_0.0);
        Ok((p, 5 + gossip_length))
    }
}

} // verus!
