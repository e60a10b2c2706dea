//! Splitting broadcast frames into RaptorQ chunks.
use vstd::prelude::*;

use raptorq::Encoder as ExtEncoder;

use super::super::Configurable;
use super::decoder::raptorq_decoded;
use super::safe::spec_safe_oti;
use super::{spec_ray_id, CHUNKED_HEADER_SIZE, RAY_ID_SIZE, TRANSMISSION_INFO_SIZE};
use crate::encoding::header::Header;
use crate::encoding::message::Message;
use crate::encoding::payload::broadcast::BroadcastPayload;
use crate::encoding::{push_bytes, EncodingError};

verus! {

/// Largest accepted MTU.
pub const MAX_MTU: u16 = 8192;

/// Smallest accepted MTU.
pub const MIN_MTU: u16 = 1296;

/// Default MTU.
pub const DEFAULT_MTU: u16 = 1300;

/// Default minimum number of repair packets per source block.
pub const DEFAULT_MIN_REPAIR_PACKETS_PER_BLOCK: u32 = 5;

/// Largest number of repair packets per block for which every packet of a
/// block, source and repair, gets an encoding symbol id below 2^24, however
/// many source symbols (at most 56403) the block has.
pub const MAX_REPAIR_PACKETS_PER_BLOCK: u32 = 16_720_813;

/// What `raptorq` produces for `data` with the given MTU and number of
/// repair packets per block: the serialized transmission information and the
/// serialized packets, in order.
pub uninterp spec fn raptorq_encoding(data: Seq<u8>, mtu: u16, repair_packets: u32) -> (
    Seq<u8>,
    Seq<Seq<u8>>,
);

/// What `raptorq` guarantees of the encoding `(info, packets)` of `data`:
/// the transmission information passes the checks of `spec_safe_oti`, with
/// the transfer length of `data` and at least one sub-block; every packet is
/// a 4-byte payload id and one symbol, and names one of the source blocks;
/// and a decoder built from `info` and handed the packets in order returns
/// nothing until some packet, on which it returns `data`.
pub open spec fn raptorq_round_trips(info: Seq<u8>, packets: Seq<Seq<u8>>, data: Seq<u8>) -> bool {
    &&& spec_safe_oti(info) matches Ok((f, blocks)) && f.transfer_length == data.len() && f.sub_blocks > 0
        && forall|k: int|
        0 <= k < packets.len() ==> (#[trigger] packets[k]).len() == 4 + f.symbol_size && packets[k][0] < blocks
    &&& exists|k: int|
        0 < k <= packets.len() && raptorq_decoded(info, #[trigger] packets.take(k)) == Some(data) && forall|j: int|
            0 < j < k ==> raptorq_decoded(info, #[trigger] packets.take(j)) is None
}

/// Calls `raptorq::Encoder::with_defaults(data, mtu)`, then
/// `get_config().serialize()` and `get_encoded_packets(repair_packets)`, each
/// packet serialized.
///
/// Trusted: the result is `raptorq_encoding` of the arguments, and it round
/// trips (`raptorq_round_trips`): `with_defaults` builds, for an MTU of at
/// least 1296, a symbol size of at most the MTU aligned to 8, at least one
/// sub-block and as many source blocks as the blocks it splits the data
/// into, with at most 56403 symbols each; every packet serializes a 4-byte
/// payload id (its first byte the source block number) and one symbol; the
/// packets come block by block, source symbols first, so that raptorq's
/// decoder completes the object on the last source packet of the last block,
/// as raptorq's own round-trip tests check. `requires` keeps out an empty object, on which raptorq
/// divides by zero, objects whose length does not fit a `u32` (the length a
/// broadcast frame carries on the wire), and repair counts for which
/// `PayloadId::new` would be handed a symbol id of 2^24 or more and panic.
#[verifier::external_body]
fn raptorq_encode(data: &[u8], mtu: u16, repair_packets: u32) -> (r: ([u8; 12], Vec<Vec<u8>>))
    requires
        MIN_MTU <= mtu <= MAX_MTU,
        0 < data@.len() <= u32::MAX,
        repair_packets <= MAX_REPAIR_PACKETS_PER_BLOCK,
    ensures
        (r.0@, r.1@.map_values(|p: Vec<u8>| p@)) == raptorq_encoding(data@, mtu, repair_packets),
        raptorq_round_trips(r.0@, r.1@.map_values(|p: Vec<u8>| p@), data@),
{
    let encoder = ExtEncoder::with_defaults(data, mtu);
    let info = encoder.get_config().serialize();
    let mut packets = Vec::new();
    for packet in encoder.get_encoded_packets(repair_packets) {
        packets.push(packet.serialize());
    }
    (info, packets)
}

/// Encoder configuration. The FEC redundancy factor, a float, is held by
/// the caller, which turns it into an estimated number of repair packets.
#[derive(Debug, Clone, Copy, PartialEq, Eq)]
pub struct RaptorQEncoderConf {
    pub min_repair_packets_per_block: u32,
    pub mtu: u16,
}

impl RaptorQEncoderConf {
    /// The default configuration.
    pub open spec fn spec_default() -> Self {
        RaptorQEncoderConf {
            min_repair_packets_per_block: DEFAULT_MIN_REPAIR_PACKETS_PER_BLOCK,
            mtu: DEFAULT_MTU,
        }
    }
}

impl Default for RaptorQEncoderConf {
    fn default() -> (r: Self)
        ensures
            r == RaptorQEncoderConf::spec_default(),
    {
        RaptorQEncoderConf {
            min_repair_packets_per_block: DEFAULT_MIN_REPAIR_PACKETS_PER_BLOCK,
            mtu: DEFAULT_MTU,
        }
    }
}

/// Splits broadcast frames into RaptorQ chunks.
pub struct RaptorQEncoder {
    conf: RaptorQEncoderConf,
}

/// The MTU kept by `configure`: out-of-range values fall back to the default.
pub open spec fn spec_clamp_mtu(mtu: u16) -> u16 {
    if mtu > MAX_MTU || mtu < MIN_MTU {
        DEFAULT_MTU
    } else {
        mtu
    }
}

/// The number of repair packets per block: the estimate, but at least the
/// configured minimum.
pub open spec fn spec_repair_packets(estimate: u32, min: u32) -> u32 {
    if estimate < min {
        min
    } else {
        estimate
    }
}

/// The chunks of a broadcast: one broadcast per packet, framed by the ray id
/// and the transmission information, carrying the ray id.
pub open spec fn chunks_are(
    r: Seq<Message>,
    header: Header,
    payload: BroadcastPayload,
    encoding: (Seq<u8>, Seq<Seq<u8>>),
) -> bool {
    &&& r.len() == encoding.1.len()
    &&& forall|k: int|
        0 <= k < r.len() ==> (#[trigger] r[k] matches Message::Broadcast(h, p, ray) && h == header
            && p.height == payload.height && ray@ == spec_ray_id(payload@) && p.gossip_frame@
            == spec_ray_id(payload@) + encoding.0 + encoding.1[k])
}

/// Law: every chunk the encoder makes of a broadcast starts with the ray id
/// of the broadcast and the transmission information, then carries one
/// packet; all chunks of a broadcast thus share their chunk header, the key
/// under which the decoder gathers them.
pub proof fn lemma_chunks_share_header(
    r: Seq<Message>,
    header: Header,
    payload: BroadcastPayload,
    encoding: (Seq<u8>, Seq<Seq<u8>>),
)
    requires
        chunks_are(r, header, payload, encoding),
        encoding.0.len() == TRANSMISSION_INFO_SIZE,
        spec_ray_id(payload@).len() == RAY_ID_SIZE,
    ensures
        forall|k: int|
            0 <= k < r.len() ==> (#[trigger] r[k] matches Message::Broadcast(h, p, _) && p.gossip_frame@.take(
                CHUNKED_HEADER_SIZE as int,
            ) == spec_ray_id(payload@) + encoding.0 && p.gossip_frame@.skip(CHUNKED_HEADER_SIZE as int)
                == encoding.1[k]),
{
    assert forall|k: int| 0 <= k < r.len() implies (#[trigger] r[k] matches Message::Broadcast(h, p, _)
        && p.gossip_frame@.take(CHUNKED_HEADER_SIZE as int) == spec_ray_id(payload@) + encoding.0
        && p.gossip_frame@.skip(CHUNKED_HEADER_SIZE as int) == encoding.1[k]) by {
        if let Message::Broadcast(h, p, _) = r[k] {
            let f = p.gossip_frame@;
            assert(f == spec_ray_id(payload@) + encoding.0 + encoding.1[k]);
            assert(f.take(CHUNKED_HEADER_SIZE as int) =~= spec_ray_id(payload@) + encoding.0);
            assert(f.skip(CHUNKED_HEADER_SIZE as int) =~= encoding.1[k]);
        }
    }
}

impl RaptorQEncoder {
    /// The MTU is in range.
    #[verifier::type_invariant]
    spec fn mtu_in_range(self) -> bool {
        MIN_MTU <= self.conf.mtu <= MAX_MTU
    }

    /// The configuration in use.
    pub closed spec fn conf(&self) -> RaptorQEncoderConf {
        self.conf
    }

    /// The MTU in use.
    pub fn mtu(&self) -> (r: u16)
        ensures
            r == self.conf().mtu,
            MIN_MTU <= r <= MAX_MTU,
    {
        proof {
            use_type_invariant(self);
        }
        self.conf.mtu
    }

    /// The number of repair packets per block for a frame whose estimate is
    /// `repair_estimate`: the estimate, but at least the configured minimum.
    pub fn repair_packets(&self, repair_estimate: u32) -> (r: u32)
        ensures
            r == spec_repair_packets(repair_estimate, self.conf().min_repair_packets_per_block),
    {
        proof {
            use_type_invariant(self);
        }
        if repair_estimate < self.conf.min_repair_packets_per_block {
            self.conf.min_repair_packets_per_block
        } else {
            repair_estimate
        }
    }

    /// The chunks of `msg`: for a broadcast, one per RaptorQ packet (see
    /// `chunks_are`); any other message alone.
    pub open spec fn encodes(&self, msg: Message, repair_estimate: u32, r: Seq<Message>) -> bool {
        match msg {
            Message::Broadcast(header, payload, _) => {
                let encoding = raptorq_encoding(
                    payload.gossip_frame@,
                    self.conf().mtu,
                    spec_repair_packets(repair_estimate, self.conf().min_repair_packets_per_block),
                );
                &&& chunks_are(r, header, payload, encoding)
                &&& encoding.0.len() == TRANSMISSION_INFO_SIZE
                &&& spec_ray_id(payload@).len() == RAY_ID_SIZE
                &&& raptorq_round_trips(encoding.0, encoding.1, payload.gossip_frame@)
            },
            _ => r == seq![msg],
        }
    }

    /// Splits a broadcast into chunks, with `max(repair_estimate,
    /// min_repair_packets_per_block)` repair packets per block; other
    /// messages are sent as they are. A broadcast frame must not be empty.
    pub fn encode(&self, msg: Message, repair_estimate: u32) -> (r: Result<Vec<Message>, EncodingError>)
        requires
            msg matches Message::Broadcast(_, p, _) ==> 0 < p.gossip_frame@.len() <= u32::MAX
                && spec_repair_packets(repair_estimate, self.conf().min_repair_packets_per_block)
                <= MAX_REPAIR_PACKETS_PER_BLOCK,
        ensures
            r matches Ok(v) && self.encodes(msg, repair_estimate, v@),
    {
        proof {
            use_type_invariant(self);
        }
        match msg {
            Message::Broadcast(header, payload, _) => {
                let repair_packets = self.repair_packets(repair_estimate);
                let (info, packets) = raptorq_encode(payload.gossip_frame.as_slice(), self.conf.mtu, repair_packets);
                let ray_id = match payload.generate_ray_id() {
                    Ok(id) => id,
                    Err(e) => return Err(e),
                };
                let mut raptorq_header: Vec<u8> = Vec::new();
                push_bytes(&mut raptorq_header, ray_id.as_slice());
                push_bytes(&mut raptorq_header, info.as_slice());
                let ghost enc = raptorq_encoding(payload.gossip_frame@, self.conf.mtu, repair_packets);
                let mut messages: Vec<Message> = Vec::new();
                let mut k: usize = 0;
                while k < packets.len()
                    invariant
                        k <= packets@.len(),
                        (info@, packets@.map_values(|p: Vec<u8>| p@)) == enc,
                        raptorq_header@ == spec_ray_id(payload@) + info@,
                        ray_id@ == spec_ray_id(payload@),
                        messages@.len() == k,
                        forall|t: int|
                            0 <= t < k ==> (#[trigger] messages@[t] matches Message::Broadcast(h, p, ray)
                                && h == header && p.height == payload.height && ray@ == spec_ray_id(
                                payload@,
                            ) && p.gossip_frame@ == spec_ray_id(payload@) + enc.0 + enc.1[t]),
                    decreases packets@.len() - k,
                {
                    let mut gossip_frame: Vec<u8> = Vec::new();
                    push_bytes(&mut gossip_frame, raptorq_header.as_slice());
                    push_bytes(&mut gossip_frame, packets[k].as_slice());
                    assert(enc.1[k as int] == packets@[k as int]@);
                    messages.push(
                        Message::Broadcast(
                            header,
                            BroadcastPayload { height: payload.height, gossip_frame },
                            ray_id,
                        ),
                    );
                    k = k + 1;
                }
                Ok(messages)
            },
            _ => {
                let mut v: Vec<Message> = Vec::new();
                v.push(msg);
                Ok(v)
            },
        }
    }
}

impl Configurable for RaptorQEncoder {
    type TConf = RaptorQEncoderConf;

    fn default_configuration() -> (r: Self::TConf)
        ensures
            r == RaptorQEncoderConf::spec_default(),
    {
        RaptorQEncoderConf::default()
    }

    fn configure(conf: &Self::TConf) -> (r: Self)
        ensures
            r.conf() == (RaptorQEncoderConf { mtu: spec_clamp_mtu(conf.mtu), ..*conf }),
    {
        let mut c = *conf;
        let mtu = c.mtu;
        if mtu > MAX_MTU {
            c.mtu = DEFAULT_MTU;
        }
        if mtu < MIN_MTU {
            c.mtu = DEFAULT_MTU;
        }
        RaptorQEncoder { conf: c }
    }
}

} // verus!
