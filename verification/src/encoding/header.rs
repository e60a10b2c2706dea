//! The header carried by every message: sender identity, port and network.
use vstd::prelude::*;

use super::{
    from_le_u16, le_u16, push_bytes, push_u16, read_array_16, read_array_2, read_array_4,
    read_u16, EncodingError, Marshallable,
};
use crate::kbucket::key::valid_nonce;
use crate::kbucket::BinaryID;

verus! {

/// Model of a header: identifier key and nonce, sender port, network id and
/// the reserved bytes.
pub struct HeaderView {
    pub id: Seq<u8>,
    pub nonce: Seq<u8>,
    pub sender_port: u16,
    pub network_id: u8,
    pub reserved: Seq<u8>,
}

/// Encoded size of a header.
pub const HEADER_LEN: usize = 25;

/// The header of a network message.
#[derive(Debug, PartialEq, Clone, Copy)]
pub struct Header {
    pub binary_id: BinaryID,
    pub sender_port: u16,
    pub network_id: u8,
    pub reserved: [u8; 2],
}

impl View for Header {
    type V = HeaderView;

    open spec fn view(&self) -> HeaderView {
        HeaderView {
            id: self.binary_id.key(),
            nonce: self.binary_id.nonce_bytes(),
            sender_port: self.sender_port,
            network_id: self.network_id,
            reserved: self.reserved@,
        }
    }
}

/// The header model has the field lengths of the wire format.
pub open spec fn header_well_formed(h: HeaderView) -> bool {
    &&& h.id.len() == 16
    &&& h.nonce.len() == 4
    &&& h.reserved.len() == 2
}

/// Bytes of an encoded header: key, nonce, port (little endian), network id
/// and reserved bytes.
pub open spec fn header_wire(h: HeaderView) -> Seq<u8> {
    h.id + h.nonce + le_u16(h.sender_port) + seq![h.network_id] + h.reserved
}

/// What reading a header from the start of `s` yields.
pub open spec fn parse_header(s: Seq<u8>) -> Result<(HeaderView, nat), EncodingError> {
    if s.len() < 20 {
        Err(EncodingError::UnexpectedEof)
    } else if !valid_nonce(s.subrange(0, 16), s.subrange(16, 20)) {
        Err(EncodingError::InvalidNonce)
    } else if s.len() < 25 {
        Err(EncodingError::UnexpectedEof)
    } else {
        Ok(
            (
                HeaderView {
                    id: s.subrange(0, 16),
                    nonce: s.subrange(16, 20),
                    sender_port: from_le_u16(s.subrange(20, 22)),
                    network_id: s[22],
                    reserved: s.subrange(23, 25),
                },
                25,
            ),
        )
    }
}

impl Header {
    /// Returns the identifier of the sender.
    pub fn binary_id(&self) -> (r: &BinaryID)
        ensures
            *r == self.binary_id,
    {
        &self.binary_id
    }

    /// The model of a header built from real values has the field lengths of
    /// the wire format.
    pub proof fn lemma_view_well_formed(&self)
        ensures
            header_well_formed(self@),
    {
        self.binary_id.lemma_shape();
    }
}

impl Marshallable for Header {
    open spec fn wire(v: HeaderView) -> Seq<u8> {
        header_wire(v)
    }

    open spec fn parse(data: Seq<u8>) -> Result<(HeaderView, nat), EncodingError> {
        parse_header(data)
    }

    fn marshal_binary(&self, writer: &mut Vec<u8>) -> (r: Result<(), EncodingError>) {
        if !self.binary_id.verify_nonce() {
            return Err(EncodingError::InvalidNonce);
        }
        let ghost start = writer@;
        push_bytes(writer, self.binary_id.as_binary().as_slice());
        push_bytes(writer, self.binary_id.nonce().as_slice());
        push_u16(writer, self.sender_port);
        writer.push(self.network_id);
        push_bytes(writer, self.reserved.as_slice());
        assert(writer@ =~= start + header_wire(self@));
        Ok(())
    }

    fn unmarshal_binary(reader: &[u8]) -> (r: Result<(Self, usize), EncodingError>) {
        if reader.len() < 20 {
            return Err(EncodingError::UnexpectedEof);
        }
        let id = read_array_16(reader, 0);
        let nonce = read_array_4(reader, 16);
        let binary_id = match BinaryID::from_nonce(id, nonce) {
            Ok(b) => b,
            Err(e) => return Err(e),
        };
        if reader.len() < 25 {
            return Err(EncodingError::UnexpectedEof);
        }
        let sender_port = read_u16(reader, 20);
        let network_id = reader[22];
        let reserved = read_array_2(reader, 23);
        let h = Header { binary_id, sender_port, network_id, reserved };
        assert(h@ == parse_header(reader@)->Ok_0.0);
        Ok((h, HEADER_LEN))
    }
}

} // verus!
