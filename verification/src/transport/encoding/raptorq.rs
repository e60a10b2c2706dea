//! Chunked broadcast frames: a ray id, the RaptorQ transmission information,
//! then one encoded packet.
use vstd::prelude::*;

pub mod decoder;
pub mod encoder;
pub mod safe;

use safe::{spec_safe_oti, OtiFields, SafeObjectTransmissionInformation, TransmissionInformationError};
use crate::encoding::payload::broadcast::{broadcast_wire, BroadcastPayload};
use crate::encoding::{read_array_12, read_array_32, read_array_44, EncodingError, Marshallable};
use crate::hashing::{blake2s256, spec_blake2s256};

verus! {

/// Size of the RaptorQ transmission information.
pub const TRANSMISSION_INFO_SIZE: usize = 12;

/// Size of a ray id (BLAKE2s-256).
pub const RAY_ID_SIZE: usize = 32;

/// Size of the chunk header: ray id and transmission information.
pub const CHUNKED_HEADER_SIZE: usize = 44;

/// Minimum size of an encoded RaptorQ packet.
pub const MIN_ENCODING_PACKET_SIZE: usize = 5;

/// Minimum size of a chunked frame.
pub const MIN_CHUNKED_SIZE: usize = 49;

/// The ray id of a broadcast payload: the digest of its encoding without the
/// height byte.
pub open spec fn spec_ray_id(p: crate::encoding::payload::broadcast::BroadcastView) -> Seq<u8> {
    spec_blake2s256(broadcast_wire(p).skip(1))
}

/// Law: the ray id of a broadcast payload does not depend on its height, so
/// a frame keeps its ray id while its height changes from hop to hop.
pub proof fn lemma_ray_id_ignores_height(p: crate::encoding::payload::broadcast::BroadcastView, height: u8)
    ensures
        spec_ray_id(crate::encoding::payload::broadcast::BroadcastView { height, frame: p.frame }) == spec_ray_id(p),
{
    let q = crate::encoding::payload::broadcast::BroadcastView { height, frame: p.frame };
    assert(broadcast_wire(q).skip(1) =~= broadcast_wire(p).skip(1));
}

impl BroadcastPayload {
    /// The encoding of this payload.
    pub fn bytes(&self) -> (r: Result<Vec<u8>, EncodingError>)
        ensures
            r matches Ok(b) && b@ == broadcast_wire(self@),
    {
        let mut bytes: Vec<u8> = Vec::new();
        match self.marshal_binary(&mut bytes) {
            Ok(()) => Ok(bytes),
            Err(e) => Err(e),
        }
    }

    /// The ray id of this payload (the height does not take part).
    pub fn generate_ray_id(&self) -> (r: Result<[u8; 32], EncodingError>)
        ensures
            r matches Ok(id) && id@ == spec_ray_id(self@),
    {
        let bytes = match self.bytes() {
            Ok(b) => b,
            Err(e) => return Err(e),
        };
        let tail = vstd::slice::slice_subrange(bytes.as_slice(), 1, bytes.len());
        assert(tail@ =~= broadcast_wire(self@).skip(1));
        Ok(blake2s256(tail))
    }
}

/// Checking the transmission information of a chunk: refused as
/// `spec_safe_oti` refuses it, or when its transfer length is not below
/// `max_udp_len`.
pub open spec fn spec_checked_info(b: Seq<u8>, max_udp_len: u64) -> Result<
    (OtiFields, nat),
    TransmissionInformationError,
> {
    match spec_safe_oti(b) {
        Err(e) => Err(e),
        Ok((fields, blocks)) => if fields.transfer_length < max_udp_len {
            Ok((fields, blocks))
        } else {
            Err(TransmissionInformationError::TransferLengthExceeded)
        },
    }
}

/// A broadcast payload long enough to be a chunk.
pub struct ChunkedPayload<'a>(pub &'a BroadcastPayload);

impl<'a> ChunkedPayload<'a> {
    /// Views `value` as a chunk; fails with `UnexpectedEof` when its frame
    /// is shorter than `MIN_CHUNKED_SIZE`.
    pub fn try_from(value: &'a BroadcastPayload) -> (r: Result<Self, EncodingError>)
        ensures
            value.gossip_frame@.len() < MIN_CHUNKED_SIZE ==> r is Err && r == Err::<Self, EncodingError>(
                EncodingError::UnexpectedEof,
            ),
            value.gossip_frame@.len() >= MIN_CHUNKED_SIZE ==> (r matches Ok(c) && c.0 == value),
    {
        if value.gossip_frame.len() < MIN_CHUNKED_SIZE {
            Err(EncodingError::UnexpectedEof)
        } else {
            Ok(ChunkedPayload(value))
        }
    }

    /// The frame of the chunk.
    pub open spec fn frame(&self) -> Seq<u8> {
        self.0.gossip_frame@
    }

    /// The ray id: the first 32 bytes of the frame.
    pub fn ray_id(&self) -> (r: [u8; 32])
        requires
            self.frame().len() >= MIN_CHUNKED_SIZE,
        ensures
            r@ == self.frame().subrange(0, 32),
    {
        read_array_32(self.0.gossip_frame.as_slice(), 0)
    }

    /// The RaptorQ transmission information: bytes 32 to 44 of the frame.
    pub fn transmission_info_bytes(&self) -> (r: [u8; 12])
        requires
            self.frame().len() >= MIN_CHUNKED_SIZE,
        ensures
            r@ == self.frame().subrange(32, 44),
    {
        read_array_12(self.0.gossip_frame.as_slice(), RAY_ID_SIZE)
    }

    /// The chunk header: the first 44 bytes of the frame.
    pub fn header(&self) -> (r: [u8; 44])
        requires
            self.frame().len() >= MIN_CHUNKED_SIZE,
        ensures
            r@ == self.frame().subrange(0, 44),
    {
        read_array_44(self.0.gossip_frame.as_slice(), 0)
    }

    /// The encoded packet: the frame after the header.
    pub fn encoded_chunk(&self) -> (r: &[u8])
        requires
            self.frame().len() >= MIN_CHUNKED_SIZE,
        ensures
            r@ == self.frame().skip(CHUNKED_HEADER_SIZE as int),
    {
        let f = self.0.gossip_frame.as_slice();
        let r = vstd::slice::slice_subrange(f, CHUNKED_HEADER_SIZE, f.len());
        assert(r@ =~= self.frame().skip(CHUNKED_HEADER_SIZE as int));
        r
    }

    /// The validated transmission information; its transfer length must be
    /// below `max_udp_len`.
    pub fn transmission_info(&self, max_udp_len: u64) -> (r: Result<
        SafeObjectTransmissionInformation,
        TransmissionInformationError,
    >)
        requires
            self.frame().len() >= MIN_CHUNKED_SIZE,
        ensures
            match spec_checked_info(self.frame().subrange(32, 44), max_udp_len) {
                Err(e) => r == Err::<SafeObjectTransmissionInformation, TransmissionInformationError>(e),
                Ok((fields, blocks)) => r matches Ok(info) && info.inner == fields && info.max_blocks
                    == blocks && info.bytes@ == self.frame().subrange(32, 44) && spec_safe_oti(
                    info.bytes@,
                ) == Ok::<(OtiFields, nat), TransmissionInformationError>((fields, blocks)),
            },
    {
        let slice = self.transmission_info_bytes();
        let info = match SafeObjectTransmissionInformation::try_from(slice.as_slice()) {
            Ok(i) => i,
            Err(e) => return Err(e),
        };
        if info.inner.transfer_length < max_udp_len {
            Ok(info)
        } else {
            Err(TransmissionInformationError::TransferLengthExceeded)
        }
    }
}

} // verus!
