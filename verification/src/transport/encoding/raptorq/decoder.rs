//! Joining RaptorQ chunks back into broadcast frames.
use vstd::prelude::*;


use super::encoder::{raptorq_encoding, raptorq_round_trips, spec_repair_packets, RaptorQEncoder};
use super::safe::{spec_partition, spec_safe_oti, OtiFields, SafeObjectTransmissionInformation, TransmissionInformationError};
use super::{spec_checked_info, spec_ray_id, ChunkedPayload, CHUNKED_HEADER_SIZE, MIN_CHUNKED_SIZE};
use crate::clock::{elapsed, elapsed_millis, now_millis};
use crate::encoding::header::Header;
use crate::encoding::message::Message;
use crate::encoding::payload::broadcast::{BroadcastPayload, BroadcastView};
use crate::encoding::{bytes_equal, EncodingError};
use crate::transport::encoding::Configurable;

verus! {

/// Default time (ms) a message stays in the cache.
pub const DEFAULT_CACHE_TTL: u64 = 60_000;

/// Default period (ms) of the cache pruning.
pub const DEFAULT_CACHE_PRUNE_EVERY: u64 = 30_000;

/// Default largest accepted transfer length.
pub const DEFAULT_MAX_UDP_LEN: u64 = 10_485_760;

/// Decoder configuration.
#[derive(Debug, Clone, Copy, PartialEq, Eq)]
pub struct RaptorQDecoderConf {
    /// How long (ms) a message stays in the cache.
    pub cache_ttl: u64,
    /// Period (ms) of the cache pruning.
    pub cache_prune_every: u64,
    /// Largest accepted transfer length.
    pub max_udp_len: u64,
}

impl RaptorQDecoderConf {
    /// The default configuration.
    pub open spec fn spec_default() -> Self {
        RaptorQDecoderConf {
            cache_ttl: DEFAULT_CACHE_TTL,
            cache_prune_every: DEFAULT_CACHE_PRUNE_EVERY,
            max_udp_len: DEFAULT_MAX_UDP_LEN,
        }
    }
}

#[verifier::external_type_specification]
#[verifier::external_body]
pub struct ExDecoder(raptorq::Decoder);

/// Calls `raptorq::ObjectTransmissionInformation::deserialize` on `info`,
/// then `raptorq::Decoder::new` with the result.
///
/// Trusted: nothing is claimed of the decoder. `requires` lets through only
/// transmission information that passes the checks of `spec_safe_oti`, which
/// bound what the constructor allocates.
#[verifier::external_body]
fn raptorq_decoder_new(info: &[u8; 12]) -> raptorq::Decoder
    requires
        spec_safe_oti(info@) is Ok,
{
    raptorq::Decoder::new(raptorq::ObjectTransmissionInformation::deserialize(info))
}

/// What `raptorq::Decoder::decode` returns on the last of `packets`, the
/// decoder having been built by `raptorq::Decoder::new` from the serialized
/// transmission information `info` and handed `packets` one by one, in order
/// (each deserialized by `raptorq::EncodingPacket::deserialize`).
pub uninterp spec fn raptorq_decoded(info: Seq<u8>, packets: Seq<Seq<u8>>) -> Option<Seq<u8>>;

/// The bytes held by an optional vector.
pub open spec fn opt_bytes(v: Option<Vec<u8>>) -> Option<Seq<u8>> {
    match v {
        Some(b) => Some(b@),
        None => None,
    }
}

/// A RaptorQ decoder with the transmission information it was built from,
/// and the packets it was handed so far.
pub struct BlockDecoder {
    decoder: raptorq::Decoder,
    oti: OtiFields,
    blocks: usize,
    info: Ghost<Seq<u8>>,
    packets: Ghost<Seq<Seq<u8>>>,
}

/// Calls `raptorq::EncodingPacket::deserialize` on `packet`, then
/// `raptorq::Decoder::decode` with it on the decoder of `d`: the whole object
/// once every source block is complete.
///
/// Trusted: the result is `raptorq_decoded` of the transmission information
/// the decoder was built from and of the packets it was handed, this one
/// last (raptorq's decoding depends on nothing else); the packet joins those
/// handed, and the transmission information kept beside the decoder is not
/// touched. `requires` keeps out the packets on which raptorq panics: a
/// source block the decoder does not have, a payload that is not one symbol
/// long, and a decoder built with no sub-block.
#[verifier::external_body]
fn raptorq_decode(d: &mut BlockDecoder, packet: &[u8]) -> (r: Option<Vec<u8>>)
    requires
        packet@.len() == 4 + old(d).oti().symbol_size,
        packet@[0] < old(d).blocks(),
        old(d).oti().sub_blocks > 0,
    ensures
        opt_bytes(r) == raptorq_decoded(old(d).info(), old(d).packets().push(packet@)),
        final(d).packets() == old(d).packets().push(packet@),
        final(d).info() == old(d).info(),
        final(d).oti() == old(d).oti(),
        final(d).blocks() == old(d).blocks(),
{
    d.decoder.decode(raptorq::EncodingPacket::deserialize(packet))
}

impl BlockDecoder {
    /// The transmission information of the decoder.
    pub closed spec fn oti(&self) -> OtiFields {
        self.oti
    }

    /// The number of source blocks of the decoder.
    pub closed spec fn blocks(&self) -> usize {
        self.blocks
    }

    /// The serialized transmission information the decoder was built from.
    pub closed spec fn info(&self) -> Seq<u8> {
        self.info@
    }

    /// The packets handed to the decoder so far, in order.
    pub closed spec fn packets(&self) -> Seq<Seq<u8>> {
        self.packets@
    }

    /// Builds the decoder of a checked transmission information.
    pub fn new(info: &SafeObjectTransmissionInformation) -> (d: Self)
        requires
            spec_safe_oti(info.bytes@) == Ok::<(OtiFields, nat), TransmissionInformationError>(
                (info.inner, info.max_blocks as nat),
            ),
        ensures
            d.oti() == info.inner,
            d.blocks() == info.max_blocks,
            d.info() == info.bytes@,
            d.packets() == Seq::<Seq<u8>>::empty(),
    {
        BlockDecoder {
            decoder: raptorq_decoder_new(&info.bytes),
            oti: info.inner,
            blocks: info.max_blocks,
            info: Ghost(info.bytes@),
            packets: Ghost(Seq::empty()),
        }
    }
}

/// Model of a cache entry's status.
pub enum CacheState {
    /// Chunks are being collected, by a decoder with the given number of
    /// source blocks, symbol size and number of sub-blocks, built from the
    /// serialized transmission information `info` and handed `packets`.
    Receiving {
        expire_on: u64,
        max_height: u8,
        max_blocks: usize,
        symbol_size: u16,
        sub_blocks: u16,
        info: Seq<u8>,
        packets: Seq<Seq<u8>>,
    },
    /// The message was decoded already.
    Processed { expire_on: u64 },
}

/// The status of a cache entry.
pub enum CacheStatus {
    /// A decoder, the expiry time (ms) and the highest broadcast height seen.
    Receiving(BlockDecoder, u64, u8),
    /// The expiry time (ms).
    Processed(u64),
}

/// When a status expires.
pub open spec fn expire_on(st: CacheState) -> u64 {
    match st {
        CacheState::Receiving { expire_on, .. } => expire_on,
        CacheState::Processed { expire_on } => expire_on,
    }
}

/// Whether a status has expired at `now`.
pub open spec fn spec_expired(st: CacheState, now: u64) -> bool {
    expire_on(st) < now
}

impl CacheStatus {
    /// Model of the status.
    pub open spec fn state(&self) -> CacheState {
        match self {
            CacheStatus::Receiving(d, e, h) => CacheState::Receiving {
                expire_on: *e,
                max_height: *h,
                max_blocks: d.blocks(),
                symbol_size: d.oti().symbol_size,
                sub_blocks: d.oti().sub_blocks,
                info: d.info(),
                packets: d.packets(),
            },
            CacheStatus::Processed(e) => CacheState::Processed { expire_on: *e },
        }
    }

    /// Whether the status has expired at `now`.
    pub fn expired(&self, now: u64) -> (r: bool)
        ensures
            r == spec_expired(self.state(), now),
    {
        let expire_on = match self {
            CacheStatus::Receiving(_, e, _) => *e,
            CacheStatus::Processed(e) => *e,
        };
        expire_on < now
    }
}

/// A cache entry: the chunk header (ray id and transmission information) and
/// its status.
pub struct CacheEntry {
    key: [u8; 44],
    status: CacheStatus,
}

impl CacheEntry {
    /// Model of the entry.
    pub closed spec fn view_entry(&self) -> (Seq<u8>, CacheState) {
        (self.key@, self.status.state())
    }
}

/// Model of the cache, in insertion order.
pub type CacheView = Seq<(Seq<u8>, CacheState)>;

/// No two entries share a key.
pub open spec fn distinct_keys(c: CacheView) -> bool {
    forall|i: int, j: int| 0 <= i < j < c.len() ==> c[i].0 != c[j].0
}

/// Whether some entry has `key`.
pub open spec fn has_key(c: CacheView, key: Seq<u8>) -> bool {
    exists|i: int| 0 <= i < c.len() && c[i].0 == key
}

/// The position of the entry with `key`.
pub open spec fn index_of(c: CacheView, key: Seq<u8>) -> int {
    choose|i: int| 0 <= i < c.len() && c[i].0 == key
}

/// The entries that have not expired at `now`.
pub open spec fn spec_prune(c: CacheView, now: u64) -> CacheView {
    c.filter(|e: (Seq<u8>, CacheState)| !spec_expired(e.1, now))
}

/// The cache and pruning time after the periodic pruning: done when more
/// than `every` ms have elapsed since the last one.
pub open spec fn maybe_prune(c: CacheView, last: u64, now: u64, every: u64) -> (CacheView, u64) {
    if elapsed(now, last) > every {
        (spec_prune(c, now), now)
    } else {
        (c, last)
    }
}

/// The expiry of an entry made or refreshed at `now`.
pub open spec fn expiry(now: u64, ttl: u64) -> u64 {
    if now + ttl > u64::MAX {
        u64::MAX
    } else {
        (now + ttl) as u64
    }
}

/// A receiving status with the highest height raised to `height`.
pub open spec fn raise_height(st: CacheState, height: u8) -> CacheState {
    match st {
        CacheState::Receiving { expire_on, max_height, max_blocks, symbol_size, sub_blocks, info, packets } => {
            CacheState::Receiving {
                expire_on,
                max_height: if height > max_height {
                    height
                } else {
                    max_height
                },
                max_blocks,
                symbol_size,
                sub_blocks,
                info,
                packets,
            }
        },
        _ => st,
    }
}

/// Whether an encoded packet can go to the decoder of a receiving status:
/// its source block exists, it is one symbol long, and the decoder has
/// sub-blocks.
pub open spec fn packet_fits(st: CacheState, packet: Seq<u8>) -> bool {
    match st {
        CacheState::Receiving { max_blocks, symbol_size, sub_blocks, .. } => packet.len() == 4
            + symbol_size && packet[0] < max_blocks && sub_blocks > 0,
        _ => false,
    }
}

/// A receiving status once `packet` is handed to its decoder.
pub open spec fn with_packet(st: CacheState, packet: Seq<u8>) -> CacheState {
    match st {
        CacheState::Receiving { expire_on, max_height, max_blocks, symbol_size, sub_blocks, info, packets } => {
            CacheState::Receiving {
                expire_on,
                max_height,
                max_blocks,
                symbol_size,
                sub_blocks,
                info,
                packets: packets.push(packet),
            }
        },
        _ => st,
    }
}

/// What the decoder of a receiving status returns when handed `packet`.
pub open spec fn decoded_with(st: CacheState, packet: Seq<u8>) -> Option<Seq<u8>> {
    match st {
        CacheState::Receiving { info, packets, .. } => raptorq_decoded(info, packets.push(packet)),
        _ => None,
    }
}

/// The highest height of a status (zero when processed).
pub open spec fn max_height_of(st: CacheState) -> u8 {
    match st {
        CacheState::Receiving { max_height, .. } => max_height,
        _ => 0,
    }
}

/// The cache once the chunk with header `key` is known: a new receiving
/// entry is added for an unknown header.
pub open spec fn spec_with_entry(
    c: CacheView,
    key: Seq<u8>,
    height: u8,
    info: (OtiFields, nat),
    expire: u64,
) -> CacheView {
    if has_key(c, key) {
        c
    } else {
        c.push(
            (
                key,
                CacheState::Receiving {
                    expire_on: expire,
                    max_height: height,
                    max_blocks: info.1 as usize,
                    symbol_size: info.0.symbol_size,
                    sub_blocks: info.0.sub_blocks,
                    info: key.subrange(32, 44),
                    packets: Seq::empty(),
                },
            ),
        )
    }
}

/// Joins RaptorQ chunks back into broadcast frames, remembering the frames
/// already decoded so that they are delivered once. The cache maps 44-byte
/// chunk headers to their status; it is a vector of entries with distinct
/// keys (see `wf`), in insertion order, since vstd's map specifications
/// hold only for key types it knows to obey its key model (integers and
/// the like), which a byte array is not.
pub struct RaptorQDecoder {
    cache: Vec<CacheEntry>,
    last_pruned: u64,
    conf: RaptorQDecoderConf,
}

/// What decoding a broadcast chunk at `now` does, when its chunk header is
/// (or becomes) the entry `i` of `c1`; `r` and `post` are the result and the
/// decoder after the call. A chunk that fits is handed to the RaptorQ
/// decoder of its entry; when that decoder returns an object whose ray id is
/// the chunk's, the object is delivered as a broadcast at the highest height
/// seen, and the entry is marked processed.
pub open spec fn chunk_step(
    c1: CacheView,
    pre: RaptorQDecoder,
    post: RaptorQDecoder,
    header: Header,
    payload: BroadcastView,
    now: u64,
    r: Option<Message>,
) -> bool {
    let key = payload.frame.take(CHUNKED_HEADER_SIZE as int);
    let i = index_of(c1, key);
    let st = c1[i].1;
    let every = pre.conf().cache_prune_every;
    match st {
        CacheState::Processed { .. } => {
            let pruned = maybe_prune(c1, pre.last_pruned(), now, every);
            &&& r is None
            &&& post.entries() == pruned.0
            &&& post.last_pruned() == pruned.1
        },
        CacheState::Receiving { .. } => {
            let raised = raise_height(st, payload.height);
            let c2 = c1.update(i, (key, raised));
            let height = max_height_of(raised);
            let packet = payload.frame.skip(CHUNKED_HEADER_SIZE as int);
            if !packet_fits(st, packet) {
                &&& r is None
                &&& post.entries() == c2
                &&& post.last_pruned() == pre.last_pruned()
            } else {
                let c3 = c1.update(i, (key, with_packet(raised, packet)));
                let out = decoded_with(st, packet);
                if out is Some && spec_ray_id(BroadcastView { height, frame: out->Some_0 }) == key.take(32) {
                    let done = c3.update(
                        i,
                        (key, CacheState::Processed { expire_on: expiry(now, pre.conf().cache_ttl) }),
                    );
                    let pruned = maybe_prune(done, pre.last_pruned(), now, every);
                    &&& r matches Some(Message::Broadcast(h, p, ray))
                    &&& h == header
                    &&& p.height == height
                    &&& p.gossip_frame@ == out->Some_0
                    &&& ray@ == key.take(32)
                    &&& post.entries() == pruned.0
                    &&& post.last_pruned() == pruned.1
                } else {
                    let pruned = maybe_prune(c3, pre.last_pruned(), now, every);
                    &&& r is None
                    &&& post.entries() == pruned.0
                    &&& post.last_pruned() == pruned.1
                }
            }
        },
    }
}

/// What decoding `message` at `now` does: `r` and `post` are the result
/// and the decoder after the call. Messages other than broadcasts pass
/// through; a chunk too short fails with `UnexpectedEof`, and a chunk with an
/// unknown header and refused transmission information fails with
/// `InvalidTransmissionInfo`, the decoder untouched.
pub open spec fn decode_step(
    pre: RaptorQDecoder,
    post: RaptorQDecoder,
    message: Message,
    now: u64,
    r: Result<Option<Message>, EncodingError>,
) -> bool {
    &&& post.conf() == pre.conf()
    &&& match message {
        Message::Broadcast(header, payload, _) => {
            let frame = payload.gossip_frame@;
            let key = frame.take(CHUNKED_HEADER_SIZE as int);
            let info = spec_checked_info(frame.subrange(32, 44), pre.conf().max_udp_len);
            if frame.len() < MIN_CHUNKED_SIZE {
                &&& r == Err::<Option<Message>, EncodingError>(EncodingError::UnexpectedEof)
                &&& post.entries() == pre.entries()
                &&& post.last_pruned() == pre.last_pruned()
            } else if !has_key(pre.entries(), key) && info is Err {
                &&& r == Err::<Option<Message>, EncodingError>(
                    EncodingError::InvalidTransmissionInfo(info->Err_0),
                )
                &&& post.entries() == pre.entries()
                &&& post.last_pruned() == pre.last_pruned()
            } else {
                let c1 = spec_with_entry(
                    pre.entries(),
                    key,
                    payload.height,
                    info->Ok_0,
                    expiry(now, pre.conf().cache_ttl),
                );
                r matches Ok(d) && chunk_step(c1, pre, post, header, payload@, now, d)
            }
        },
        _ => r == Ok::<Option<Message>, EncodingError>(Some(message)) && post.entries()
            == pre.entries() && post.last_pruned() == pre.last_pruned(),
    }
}

/// Law: after a pruning at `now`, no entry of the cache has expired, and
/// every entry that had not expired is still there.
pub proof fn lemma_prune_keeps_live(c: CacheView, now: u64)
    ensures
        forall|i: int| 0 <= i < spec_prune(c, now).len() ==> !spec_expired(#[trigger] spec_prune(c, now)[i].1, now),
        forall|i: int| 0 <= i < c.len() && !spec_expired(c[i].1, now) ==> #[trigger] spec_prune(c, now).contains(c[i]),
{
    broadcast use vstd::seq_lib::group_filter_ensures;
}

/// Law: once a broadcast was decoded, its other chunks (same chunk header)
/// are not delivered again while its entry stays in the cache.
pub proof fn lemma_processed_not_redelivered(
    pre: RaptorQDecoder,
    post: RaptorQDecoder,
    message: Message,
    now: u64,
    r: Result<Option<Message>, EncodingError>,
)
    requires
        decode_step(pre, post, message, now, r),
        message matches Message::Broadcast(_, payload, _) && payload.gossip_frame@.len() >= MIN_CHUNKED_SIZE
            && has_key(pre.entries(), payload.gossip_frame@.take(CHUNKED_HEADER_SIZE as int)) && pre.entries()[index_of(
            pre.entries(),
            payload.gossip_frame@.take(CHUNKED_HEADER_SIZE as int),
        )].1 is Processed,
    ensures
        r == Ok::<Option<Message>, EncodingError>(None),
{
}

/// The chunk header of a message, when it is a broadcast long enough to be
/// a chunk.
pub open spec fn chunk_key(m: Message) -> Option<Seq<u8>> {
    match m {
        Message::Broadcast(_, p, _) => if p.gossip_frame@.len() >= MIN_CHUNKED_SIZE {
            Some(p.gossip_frame@.take(CHUNKED_HEADER_SIZE as int))
        } else {
            None
        },
        _ => None,
    }
}

/// An entry that has not expired at `now` survives the periodic pruning.
proof fn lemma_live_entry_kept(c: CacheView, j: int, last: u64, now: u64, every: u64)
    requires
        0 <= j < c.len(),
        !spec_expired(c[j].1, now),
    ensures
        maybe_prune(c, last, now, every).0.contains(c[j]),
{
    lemma_prune_keeps_live(c, now);
    if elapsed(now, last) <= every {
        assert(c[j] == c[j]);
    }
}

/// One decoding step at a time no later than `e` keeps the processed entry
/// `(key, e)`, and answers a chunk with that header with nothing.
proof fn lemma_processed_entry_stays(
    pre: RaptorQDecoder,
    post: RaptorQDecoder,
    m: Message,
    now: u64,
    r: Result<Option<Message>, EncodingError>,
    key: Seq<u8>,
    e: u64,
)
    requires
        pre.wf(),
        decode_step(pre, post, m, now, r),
        pre.entries().contains((key, CacheState::Processed { expire_on: e })),
        now <= e,
    ensures
        post.entries().contains((key, CacheState::Processed { expire_on: e })),
        chunk_key(m) == Some(key) ==> r == Ok::<Option<Message>, EncodingError>(None),
{
    let entry = (key, CacheState::Processed { expire_on: e });
    let c = pre.entries();
    let j = choose|j: int| 0 <= j < c.len() && c[j] == entry;
    assert(has_key(c, key));
    match m {
        Message::Broadcast(header, payload, _) => {
            let frame = payload.gossip_frame@;
            let k2 = frame.take(CHUNKED_HEADER_SIZE as int);
            let info = spec_checked_info(frame.subrange(32, 44), pre.conf().max_udp_len);
            if frame.len() >= MIN_CHUNKED_SIZE && !(!has_key(c, k2) && info is Err) {
                let c1 = spec_with_entry(c, k2, payload.height, info->Ok_0, expiry(now, pre.conf().cache_ttl));
                assert(c1[j] == entry);
                if !has_key(c, k2) {
                    assert(c1[c1.len() - 1].0 == k2);
                }
                assert(has_key(c1, k2));
                let i = index_of(c1, k2);
                assert(distinct_keys(c1)) by {
                    if !has_key(c, k2) {
                        assert forall|a: int, b: int| 0 <= a < b < c1.len() implies c1[a].0 != c1[b].0 by {
                            if b == c1.len() - 1 {
                                assert(c1[a] == c[a]);
                            }
                        }
                    }
                }
                if k2 == key {
                    assert(i == j);
                }
                let every = pre.conf().cache_prune_every;
                let st = c1[i].1;
                assert(!spec_expired(entry.1, now));
                match st {
                    CacheState::Processed { .. } => {
                        lemma_live_entry_kept(c1, j, pre.last_pruned(), now, every);
                    },
                    CacheState::Receiving { .. } => {
                        assert(i != j);
                        let raised = raise_height(st, payload.height);
                        let c2 = c1.update(i, (k2, raised));
                        let packet = frame.skip(CHUNKED_HEADER_SIZE as int);
                        let c3 = c1.update(i, (k2, with_packet(raised, packet)));
                        let done = c3.update(
                            i,
                            (k2, CacheState::Processed { expire_on: expiry(now, pre.conf().cache_ttl) }),
                        );
                        assert(c2[j] == entry);
                        assert(c3[j] == entry);
                        assert(done[j] == entry);
                        lemma_live_entry_kept(c3, j, pre.last_pruned(), now, every);
                        lemma_live_entry_kept(done, j, pre.last_pruned(), now, every);
                    },
                }
            }
        },
        _ => {},
    }
}

/// Law: once the chunks of a broadcast were decoded (its entry is processed
/// until `e`), no later call up to time `e` delivers a chunk with the same
/// chunk header, whatever the calls in between: `decoders[k]` is the decoder
/// before the call on `messages[k]` at `times[k]`, which returned
/// `results[k]`.
pub proof fn lemma_no_redelivery(
    decoders: Seq<RaptorQDecoder>,
    messages: Seq<Message>,
    times: Seq<u64>,
    results: Seq<Result<Option<Message>, EncodingError>>,
    key: Seq<u8>,
    e: u64,
)
    requires
        decoders.len() == messages.len() + 1,
        times.len() == messages.len(),
        results.len() == messages.len(),
        forall|k: int| 0 <= k < decoders.len() ==> (#[trigger] decoders[k]).wf(),
        forall|k: int|
            0 <= k < messages.len() ==> decode_step(
                decoders[k],
                decoders[k + 1],
                #[trigger] messages[k],
                times[k],
                results[k],
            ),
        forall|k: int| 0 <= k < times.len() ==> #[trigger] times[k] <= e,
        decoders[0].entries().contains((key, CacheState::Processed { expire_on: e })),
    ensures
        forall|k: int|
            0 <= k < messages.len() && chunk_key(#[trigger] messages[k]) == Some(key) ==> results[k] == Ok::<
                Option<Message>,
                EncodingError,
            >(None),
    decreases messages.len(),
{
    let n: int = messages.len() as int;
    if n > 0 {
        let d2 = decoders.drop_last();
        let m2 = messages.drop_last();
        let t2 = times.drop_last();
        let r2 = results.drop_last();
        assert forall|k: int| 0 <= k < d2.len() implies (#[trigger] d2[k]).wf() by {
            assert(d2[k] == decoders[k]);
        }
        assert forall|k: int| 0 <= k < m2.len() implies decode_step(d2[k], d2[k + 1], #[trigger] m2[k], t2[k], r2[k]) by {
            assert(m2[k] == messages[k]);
        }
        assert forall|k: int| 0 <= k < t2.len() implies #[trigger] t2[k] <= e by {
            assert(t2[k] == times[k]);
        }
        lemma_no_redelivery(d2, m2, t2, r2, key, e);
        lemma_processed_entry_kept(decoders, messages, times, results, key, e, n - 1);
        assert(decoders[n - 1].wf());
        assert(decode_step(decoders[n - 1], decoders[n], messages[n - 1], times[n - 1], results[n - 1]));
        assert(times[n - 1] <= e);
        lemma_processed_entry_stays(
            decoders[n - 1],
            decoders[n],
            messages[n - 1],
            times[n - 1],
            results[n - 1],
            key,
            e,
        );
        assert forall|k: int|
            0 <= k < messages.len() && chunk_key(#[trigger] messages[k]) == Some(key) implies results[k] == Ok::<
            Option<Message>,
            EncodingError,
        >(None) by {
            if k < n - 1 {
                assert(m2[k] == messages[k]);
                assert(r2[k] == results[k]);
            }
        }
    }
}

/// The processed entry `(key, e)` is still in the decoder before call `k`.
proof fn lemma_processed_entry_kept(
    decoders: Seq<RaptorQDecoder>,
    messages: Seq<Message>,
    times: Seq<u64>,
    results: Seq<Result<Option<Message>, EncodingError>>,
    key: Seq<u8>,
    e: u64,
    k: int,
)
    requires
        0 <= k < decoders.len(),
        decoders.len() == messages.len() + 1,
        times.len() == messages.len(),
        results.len() == messages.len(),
        forall|a: int| 0 <= a < decoders.len() ==> (#[trigger] decoders[a]).wf(),
        forall|a: int|
            0 <= a < messages.len() ==> decode_step(
                decoders[a],
                decoders[a + 1],
                #[trigger] messages[a],
                times[a],
                results[a],
            ),
        forall|a: int| 0 <= a < times.len() ==> #[trigger] times[a] <= e,
        decoders[0].entries().contains((key, CacheState::Processed { expire_on: e })),
    ensures
        decoders[k].entries().contains((key, CacheState::Processed { expire_on: e })),
    decreases k,
{
    if k > 0 {
        lemma_processed_entry_kept(decoders, messages, times, results, key, e, k - 1);
        assert(decoders[k - 1].wf());
        assert(decode_step(decoders[k - 1], decoders[k], messages[k - 1], times[k - 1], results[k - 1]));
        assert(times[k - 1] <= e);
        lemma_processed_entry_stays(decoders[k - 1], decoders[k], messages[k - 1], times[k - 1], results[k - 1], key, e);
    }
}

/// The status of the entry with `key`.
pub open spec fn state_of(c: CacheView, key: Seq<u8>) -> CacheState {
    c[index_of(c, key)].1
}

/// The height a broadcast carries (zero for other messages).
pub open spec fn broadcast_height(m: Message) -> u8 {
    match m {
        Message::Broadcast(_, p, _) => p.height,
        _ => 0,
    }
}

/// The highest height among the chunks of `ms` with chunk header `key` (zero
/// when there is none).
pub open spec fn max_key_height(ms: Seq<Message>, key: Seq<u8>) -> u8
    decreases ms.len(),
{
    if ms.len() == 0 {
        0
    } else {
        let prev = max_key_height(ms.drop_last(), key);
        if chunk_key(ms.last()) == Some(key) && broadcast_height(ms.last()) > prev {
            broadcast_height(ms.last())
        } else {
            prev
        }
    }
}

/// The status that a chunk with header `key` meets: that of its entry, or,
/// for an unknown header, a fresh receiving status expiring at `now` plus
/// the cache TTL, with no height yet.
pub open spec fn prior_state(pre: RaptorQDecoder, key: Seq<u8>, now: u64) -> CacheState {
    if has_key(pre.entries(), key) {
        state_of(pre.entries(), key)
    } else {
        CacheState::Receiving {
            expire_on: expiry(now, pre.conf().cache_ttl),
            max_height: 0,
            max_blocks: 0,
            symbol_size: 0,
            sub_blocks: 0,
            info: Seq::empty(),
            packets: Seq::empty(),
        }
    }
}

/// In a cache with distinct keys, the entry `(key, x)` is the one `state_of`
/// finds.
proof fn lemma_state_of(c: CacheView, key: Seq<u8>, x: CacheState)
    requires
        distinct_keys(c),
        c.contains((key, x)),
    ensures
        has_key(c, key),
        state_of(c, key) == x,
{
    let b = choose|b: int| 0 <= b < c.len() && c[b] == (key, x);
    assert(c[b].0 == key);
    let a = index_of(c, key);
    if a != b {
        if a < b {
            assert(c[a].0 != c[b].0);
        } else {
            assert(c[b].0 != c[a].0);
        }
    }
}

/// One decoding step seen from the entry of `key`: a chunk with another
/// header leaves it as it is; a chunk with that header leaves a processed
/// entry as it is and is answered with nothing, and otherwise raises the
/// highest height seen and either keeps receiving or delivers a broadcast at
/// that height, the entry then processed.
proof fn lemma_step_on_key(
    pre: RaptorQDecoder,
    post: RaptorQDecoder,
    m: Message,
    now: u64,
    r: Result<Option<Message>, EncodingError>,
    key: Seq<u8>,
)
    requires
        pre.wf(),
        post.wf(),
        decode_step(pre, post, m, now, r),
        has_key(pre.entries(), key) ==> !spec_expired(state_of(pre.entries(), key), now),
        has_key(pre.entries(), key) || (chunk_key(m) == Some(key) && r is Ok),
    ensures
        has_key(post.entries(), key),
        chunk_key(m) != Some(key) ==> state_of(post.entries(), key) == state_of(pre.entries(), key),
        chunk_key(m) == Some(key) ==> ({
            let st = prior_state(pre, key, now);
            let h = max_height_of(raise_height(st, broadcast_height(m)));
            match st {
                CacheState::Processed { .. } => state_of(post.entries(), key) == st && r == Ok::<
                    Option<Message>,
                    EncodingError,
                >(None),
                CacheState::Receiving { expire_on: e0, .. } => {
                    ||| {
                        &&& state_of(post.entries(), key) is Receiving
                        &&& max_height_of(state_of(post.entries(), key)) == h
                        &&& expire_on(state_of(post.entries(), key)) == e0
                        &&& r == Ok::<Option<Message>, EncodingError>(None)
                    }
                    ||| {
                        &&& state_of(post.entries(), key) == (CacheState::Processed {
                            expire_on: expiry(now, pre.conf().cache_ttl),
                        })
                        &&& r matches Ok(Some(Message::Broadcast(_, p, _)))
                        &&& p.height == h
                    }
                },
            }
        }),
{
    let c = pre.entries();
    match m {
        Message::Broadcast(header, payload, _) => {
            let frame = payload.gossip_frame@;
            let k2 = frame.take(CHUNKED_HEADER_SIZE as int);
            let info = spec_checked_info(frame.subrange(32, 44), pre.conf().max_udp_len);
            if frame.len() >= MIN_CHUNKED_SIZE && !(!has_key(c, k2) && info is Err) {
                let c1 = spec_with_entry(c, k2, payload.height, info->Ok_0, expiry(now, pre.conf().cache_ttl));
                if !has_key(c, k2) {
                    assert(c1[c1.len() - 1].0 == k2);
                }
                assert(has_key(c1, k2));
                let i = index_of(c1, k2);
                assert(distinct_keys(c1)) by {
                    if !has_key(c, k2) {
                        assert forall|a: int, b: int| 0 <= a < b < c1.len() implies c1[a].0 != c1[b].0 by {
                            if b == c1.len() - 1 {
                                assert(c1[a] == c[a]);
                            }
                        }
                    }
                }
                let j = if has_key(c, key) {
                    index_of(c, key)
                } else {
                    c1.len() - 1
                };
                assert(c1[j].0 == key);
                if has_key(c, key) {
                    assert(c1[j] == c[j]);
                }
                if k2 == key {
                    if i != j {
                        if i < j {
                            assert(c1[i].0 != c1[j].0);
                        } else {
                            assert(c1[j].0 != c1[i].0);
                        }
                    }
                } else {
                    assert(has_key(c, key));
                }
                let every = pre.conf().cache_prune_every;
                let st = c1[i].1;
                let ttl = pre.conf().cache_ttl;
                match st {
                    CacheState::Processed { .. } => {
                        lemma_live_entry_kept(c1, j, pre.last_pruned(), now, every);
                        lemma_state_of(post.entries(), key, c1[j].1);
                    },
                    CacheState::Receiving { .. } => {
                        let raised = raise_height(st, payload.height);
                        let c2 = c1.update(i, (k2, raised));
                        let packet = frame.skip(CHUNKED_HEADER_SIZE as int);
                        let c3 = c1.update(i, (k2, with_packet(raised, packet)));
                        let done = c3.update(i, (k2, CacheState::Processed { expire_on: expiry(now, ttl) }));
                        if !packet_fits(st, packet) {
                            lemma_state_of(post.entries(), key, c2[j].1);
                        } else {
                            let out = decoded_with(st, packet);
                            if out is Some && spec_ray_id(BroadcastView { height: max_height_of(raised), frame: out->Some_0 })
                                == k2.take(32) {
                                lemma_live_entry_kept(done, j, pre.last_pruned(), now, every);
                                lemma_state_of(post.entries(), key, done[j].1);
                            } else {
                                lemma_live_entry_kept(c3, j, pre.last_pruned(), now, every);
                                lemma_state_of(post.entries(), key, c3[j].1);
                            }
                        }
                    },
                }
            } else {
                lemma_state_of(post.entries(), key, c[index_of(c, key)].1);
            }
        },
        _ => {
            lemma_state_of(post.entries(), key, c[index_of(c, key)].1);
        },
    }
}

/// What holds of the entry of `key` before call `k` of a run that starts
/// with its first chunk at `times[0]` (see `lemma_delivery_keeps_highest_height`),
/// and of the calls before.
pub open spec fn height_run_inv(
    decoders: Seq<RaptorQDecoder>,
    messages: Seq<Message>,
    results: Seq<Result<Option<Message>, EncodingError>>,
    key: Seq<u8>,
    e: u64,
    k: int,
) -> bool {
    let st = state_of(decoders[k].entries(), key);
    &&& decoders[k].conf() == decoders[0].conf()
    &&& has_key(decoders[k].entries(), key)
    &&& ((st is Receiving && expire_on(st) == e && max_height_of(st) == max_key_height(messages.take(k), key)) || (
    st is Processed && expire_on(st) >= e))
    &&& forall|a: int|
        0 <= a < k && chunk_key(#[trigger] messages[a]) == Some(key) ==> (results[a] matches Ok(
            Some(Message::Broadcast(_, p, _)),
        ) ==> p.height == max_key_height(messages.take(a + 1), key))
}

proof fn lemma_height_run(
    decoders: Seq<RaptorQDecoder>,
    messages: Seq<Message>,
    times: Seq<u64>,
    results: Seq<Result<Option<Message>, EncodingError>>,
    key: Seq<u8>,
    k: int,
)
    requires
        1 <= k <= messages.len(),
        decoders.len() == messages.len() + 1,
        times.len() == messages.len(),
        results.len() == messages.len(),
        forall|a: int| 0 <= a < decoders.len() ==> (#[trigger] decoders[a]).wf(),
        forall|a: int|
            0 <= a < messages.len() ==> decode_step(
                decoders[a],
                decoders[a + 1],
                #[trigger] messages[a],
                times[a],
                results[a],
            ),
        !has_key(decoders[0].entries(), key),
        chunk_key(messages[0]) == Some(key),
        results[0] is Ok,
        forall|a: int|
            0 <= a < times.len() ==> times[0] <= #[trigger] times[a] <= expiry(
                times[0],
                decoders[0].conf().cache_ttl,
            ),
    ensures
        height_run_inv(decoders, messages, results, key, expiry(times[0], decoders[0].conf().cache_ttl), k),
    decreases k,
{
    let e = expiry(times[0], decoders[0].conf().cache_ttl);
    let a = k - 1;
    assert(decoders[a].wf() && decoders[a + 1].wf());
    assert(decode_step(decoders[a], decoders[a + 1], messages[a], times[a], results[a]));
    assert(times[0] <= times[a] <= e);
    let tk = messages.take(k);
    assert(tk.drop_last() =~= messages.take(a));
    assert(tk.last() == messages[a]);
    if k == 1 {
        assert(messages.take(0) =~= Seq::<Message>::empty());
        lemma_step_on_key(decoders[0], decoders[1], messages[0], times[0], results[0], key);
    } else {
        lemma_height_run(decoders, messages, times, results, key, k - 1);
        lemma_step_on_key(decoders[a], decoders[k], messages[a], times[a], results[a], key);
    }
    assert(times[a] <= e);
    assert(expiry(times[a], decoders[0].conf().cache_ttl) >= e);
    assert(max_key_height(messages.take(0), key) == 0);
    if k > 1 {
        assert(height_run_inv(decoders, messages, results, key, e, k - 1));
    }
    let st = prior_state(decoders[a], key, times[a]);
    if chunk_key(messages[a]) == Some(key) {
        if st is Receiving {
            assert(max_height_of(st) == max_key_height(messages.take(a), key));
            assert(max_height_of(raise_height(st, broadcast_height(messages[a]))) == max_key_height(tk, key));
        }
    } else {
        assert(max_key_height(tk, key) == max_key_height(messages.take(a), key));
    }
    assert forall|b: int|
        0 <= b < k && chunk_key(#[trigger] messages[b]) == Some(key) implies (results[b] matches Ok(
        Some(Message::Broadcast(_, p, _)),
    ) ==> p.height == max_key_height(messages.take(b + 1), key)) by {
        if b < a {
            assert(height_run_inv(decoders, messages, results, key, e, k - 1));
        }
    }
}

/// Law: a broadcast is delivered at the highest height among all its chunks
/// received so far, so that its propagation goes on from the highest
/// height. The run starts with the first chunk of the broadcast (its chunk
/// header `key` unknown to the decoder), and every call comes no later than
/// that chunk's entry expires: `decoders[k]` is the decoder before the call
/// on `messages[k]` at `times[k]`, which returned `results[k]`.
pub proof fn lemma_delivery_keeps_highest_height(
    decoders: Seq<RaptorQDecoder>,
    messages: Seq<Message>,
    times: Seq<u64>,
    results: Seq<Result<Option<Message>, EncodingError>>,
    key: Seq<u8>,
)
    requires
        messages.len() > 0,
        decoders.len() == messages.len() + 1,
        times.len() == messages.len(),
        results.len() == messages.len(),
        forall|a: int| 0 <= a < decoders.len() ==> (#[trigger] decoders[a]).wf(),
        forall|a: int|
            0 <= a < messages.len() ==> decode_step(
                decoders[a],
                decoders[a + 1],
                #[trigger] messages[a],
                times[a],
                results[a],
            ),
        !has_key(decoders[0].entries(), key),
        chunk_key(messages[0]) == Some(key),
        results[0] is Ok,
        forall|a: int|
            0 <= a < times.len() ==> times[0] <= #[trigger] times[a] <= expiry(
                times[0],
                decoders[0].conf().cache_ttl,
            ),
    ensures
        forall|k: int|
            0 <= k < messages.len() && chunk_key(#[trigger] messages[k]) == Some(key) ==> (results[k] matches Ok(
                Some(Message::Broadcast(_, p, _)),
            ) ==> p.height == max_key_height(messages.take(k + 1), key)),
{
    lemma_height_run(decoders, messages, times, results, key, messages.len() as int);
}

/// The cache a chunk meets once its header is known (see `decode_step`).
pub open spec fn entries_for_chunk(pre: RaptorQDecoder, m: Message, now: u64) -> CacheView {
    match m {
        Message::Broadcast(_, p, _) => {
            let frame = p.gossip_frame@;
            let info = spec_checked_info(frame.subrange(32, 44), pre.conf().max_udp_len);
            spec_with_entry(
                pre.entries(),
                frame.take(CHUNKED_HEADER_SIZE as int),
                p.height,
                info->Ok_0,
                expiry(now, pre.conf().cache_ttl),
            )
        },
        _ => pre.entries(),
    }
}

/// One decoding step of a chunk with header `key`, seen from its entry: what
/// `chunk_step` says of the whole cache, said of the status of that entry.
proof fn lemma_key_step(
    pre: RaptorQDecoder,
    post: RaptorQDecoder,
    m: Message,
    now: u64,
    r: Result<Option<Message>, EncodingError>,
    key: Seq<u8>,
)
    requires
        pre.wf(),
        post.wf(),
        decode_step(pre, post, m, now, r),
        chunk_key(m) == Some(key),
        has_key(pre.entries(), key) ==> !spec_expired(state_of(pre.entries(), key), now),
        m matches Message::Broadcast(_, p, _) && (!has_key(pre.entries(), key) ==> spec_checked_info(
            p.gossip_frame@.subrange(32, 44),
            pre.conf().max_udp_len,
        ) is Ok),
    ensures
        has_key(post.entries(), key),
        has_key(entries_for_chunk(pre, m, now), key),
        has_key(pre.entries(), key) ==> entries_for_chunk(pre, m, now) == pre.entries(),
        distinct_keys(entries_for_chunk(pre, m, now)),
        match m {
            Message::Broadcast(header, p, _) => {
                let st = state_of(entries_for_chunk(pre, m, now), key);
                let raised = raise_height(st, p.height);
                let packet = p.gossip_frame@.skip(CHUNKED_HEADER_SIZE as int);
                let height = max_height_of(raised);
                let out = decoded_with(st, packet);
                match st {
                    CacheState::Processed { .. } => r == Ok::<Option<Message>, EncodingError>(None)
                        && state_of(post.entries(), key) == st,
                    CacheState::Receiving { .. } => if !packet_fits(st, packet) {
                        r == Ok::<Option<Message>, EncodingError>(None) && state_of(post.entries(), key) == raised
                    } else if out is Some && spec_ray_id(BroadcastView { height, frame: out->Some_0 })
                        == key.take(32) {
                        &&& state_of(post.entries(), key) == (CacheState::Processed {
                            expire_on: expiry(now, pre.conf().cache_ttl),
                        })
                        &&& r matches Ok(Some(Message::Broadcast(hh, pp, ray)))
                        &&& hh == header
                        &&& pp.height == height
                        &&& pp.gossip_frame@ == out->Some_0
                        &&& ray@ == key.take(32)
                    } else {
                        r == Ok::<Option<Message>, EncodingError>(None) && state_of(post.entries(), key)
                            == with_packet(raised, packet)
                    },
                }
            },
            _ => true,
        },
{
    let c = pre.entries();
    if let Message::Broadcast(header, payload, _) = m {
        let frame = payload.gossip_frame@;
        let info = spec_checked_info(frame.subrange(32, 44), pre.conf().max_udp_len);
        let c1 = entries_for_chunk(pre, m, now);
        assert(c1 == spec_with_entry(c, key, payload.height, info->Ok_0, expiry(now, pre.conf().cache_ttl)));
        if !has_key(c, key) {
            assert(c1[c1.len() - 1].0 == key);
        }
        assert(has_key(c1, key));
        assert(distinct_keys(c1)) by {
            if !has_key(c, key) {
                assert forall|a: int, b: int| 0 <= a < b < c1.len() implies c1[a].0 != c1[b].0 by {
                    if b == c1.len() - 1 {
                        assert(c1[a] == c[a]);
                    }
                }
            }
        }
        let i = index_of(c1, key);
        let st = c1[i].1;
        let every = pre.conf().cache_prune_every;
        let ttl = pre.conf().cache_ttl;
        if !has_key(c, key) {
            assert(i == c1.len() - 1) by {
                if i < c1.len() - 1 {
                    assert(c1[i] == c[i]);
                }
            }
            assert(!spec_expired(st, now));
        } else {
            assert(!spec_expired(st, now));
        }
        match st {
            CacheState::Processed { .. } => {
                lemma_live_entry_kept(c1, i, pre.last_pruned(), now, every);
                lemma_state_of(post.entries(), key, st);
            },
            CacheState::Receiving { .. } => {
                let raised = raise_height(st, payload.height);
                let c2 = c1.update(i, (key, raised));
                let packet = frame.skip(CHUNKED_HEADER_SIZE as int);
                let c3 = c1.update(i, (key, with_packet(raised, packet)));
                let done = c3.update(i, (key, CacheState::Processed { expire_on: expiry(now, ttl) }));
                if !packet_fits(st, packet) {
                    assert(c2[i] == (key, raised));
                    lemma_state_of(post.entries(), key, raised);
                } else {
                    let out = decoded_with(st, packet);
                    if out is Some && spec_ray_id(BroadcastView { height: max_height_of(raised), frame: out->Some_0 })
                        == key.take(32) {
                        lemma_live_entry_kept(done, i, pre.last_pruned(), now, every);
                        lemma_state_of(post.entries(), key, done[i].1);
                    } else {
                        lemma_live_entry_kept(c3, i, pre.last_pruned(), now, every);
                        lemma_state_of(post.entries(), key, c3[i].1);
                    }
                }
            },
        }
    }
}

/// Partition[I, J] splits into `J` blocks in all.
proof fn lemma_partition_count(i: u32, j: u32)
    requires
        j > 0,
    ensures
        spec_partition(i, j).2 + spec_partition(i, j).3 == j,
{
    let is = i / j;
    assert(is * j <= i) by (nonlinear_arith)
        requires
            is == i / j,
            j > 0,
    ;
    assert(i - is * j < j) by (nonlinear_arith)
        requires
            is == i / j,
            j > 0,
    ;
}

/// The status of the entry of a broadcast whose first `n` packets were
/// handed to its decoder, none completing it.
pub open spec fn receiving_prefix(
    expire: u64,
    height: u8,
    info: Seq<u8>,
    packets: Seq<Seq<u8>>,
    n: int,
) -> CacheState {
    let (f, blocks) = spec_safe_oti(info)->Ok_0;
    CacheState::Receiving {
        expire_on: expire,
        max_height: height,
        max_blocks: blocks as usize,
        symbol_size: f.symbol_size,
        sub_blocks: f.sub_blocks,
        info,
        packets: packets.take(n),
    }
}

/// The encoding of the broadcast frame of `msg` by `enc`.
pub open spec fn encoding_of(enc: RaptorQEncoder, msg: Message, repair_estimate: u32) -> (Seq<u8>, Seq<Seq<u8>>) {
    match msg {
        Message::Broadcast(_, payload, _) => raptorq_encoding(
            payload.gossip_frame@,
            enc.conf().mtu,
            spec_repair_packets(repair_estimate, enc.conf().min_repair_packets_per_block),
        ),
        _ => (Seq::empty(), Seq::empty()),
    }
}

/// The number of packets raptorq needs to complete the object.
pub open spec fn packets_needed(info: Seq<u8>, packets: Seq<Seq<u8>>, data: Seq<u8>) -> int {
    choose|k: int|
        0 < k <= packets.len() && raptorq_decoded(info, #[trigger] packets.take(k)) == Some(data) && forall|j: int|
            0 < j < k ==> raptorq_decoded(info, #[trigger] packets.take(j)) is None
}

/// The requirements of the round trip on a run of decoding calls over the
/// chunks of `msg`.
pub open spec fn round_trip_run(
    enc: RaptorQEncoder,
    msg: Message,
    repair_estimate: u32,
    chunks: Seq<Message>,
    decoders: Seq<RaptorQDecoder>,
    times: Seq<u64>,
    results: Seq<Result<Option<Message>, EncodingError>>,
) -> bool {
    &&& msg matches Message::Broadcast(_, payload, _) && payload.gossip_frame@.len() < decoders[0].conf().max_udp_len
    &&& enc.encodes(msg, repair_estimate, chunks)
    &&& decoders.len() == chunks.len() + 1
    &&& times.len() == chunks.len()
    &&& results.len() == chunks.len()
    &&& forall|a: int| 0 <= a < decoders.len() ==> (#[trigger] decoders[a]).wf()
    &&& forall|a: int|
        0 <= a < chunks.len() ==> decode_step(
            decoders[a],
            decoders[a + 1],
            #[trigger] chunks[a],
            times[a],
            results[a],
        )
    &&& forall|a: int|
        0 <= a < times.len() ==> times[0] <= #[trigger] times[a] <= expiry(times[0], decoders[0].conf().cache_ttl)
    &&& chunks.len() > 0 ==> !has_key(decoders[0].entries(), chunk_key(chunks[0])->Some_0)
}

/// One call of a round-trip run: the `j`-th chunk goes to the decoder whose
/// entry holds the first `j` packets; it is answered with nothing and joins
/// them, or, on the packet that completes the object, the broadcast is
/// delivered.
proof fn lemma_round_trip_step(
    enc: RaptorQEncoder,
    msg: Message,
    repair_estimate: u32,
    chunks: Seq<Message>,
    decoders: Seq<RaptorQDecoder>,
    times: Seq<u64>,
    results: Seq<Result<Option<Message>, EncodingError>>,
    j: int,
)
    requires
        round_trip_run(enc, msg, repair_estimate, chunks, decoders, times, results),
        ({
            let enc_v = encoding_of(enc, msg, repair_estimate);
            &&& 0 <= j < packets_needed(enc_v.0, enc_v.1, msg->Broadcast_1.gossip_frame@)
            &&& decoders[j].conf() == decoders[0].conf()
            &&& j > 0 ==> {
                let key = spec_ray_id(msg->Broadcast_1@) + enc_v.0;
                &&& has_key(decoders[j].entries(), key)
                &&& state_of(decoders[j].entries(), key) == receiving_prefix(
                    expiry(times[0], decoders[0].conf().cache_ttl),
                    msg->Broadcast_1.height,
                    enc_v.0,
                    enc_v.1,
                    j,
                )
            }
        }),
    ensures
        ({
            let enc_v = encoding_of(enc, msg, repair_estimate);
            let payload = msg->Broadcast_1;
            let key = spec_ray_id(payload@) + enc_v.0;
            &&& decoders[j + 1].conf() == decoders[0].conf()
            &&& if j + 1 < packets_needed(enc_v.0, enc_v.1, payload.gossip_frame@) {
                &&& results[j] == Ok::<Option<Message>, EncodingError>(None)
                &&& has_key(decoders[j + 1].entries(), key)
                &&& state_of(decoders[j + 1].entries(), key) == receiving_prefix(
                    expiry(times[0], decoders[0].conf().cache_ttl),
                    payload.height,
                    enc_v.0,
                    enc_v.1,
                    j + 1,
                )
            } else {
                &&& results[j] matches Ok(Some(Message::Broadcast(h, p, ray)))
                &&& h == msg->Broadcast_0
                &&& p.height == payload.height
                &&& p.gossip_frame@ == payload.gossip_frame@
                &&& ray@ == spec_ray_id(payload@)
            }
        }),
{
    let header = msg->Broadcast_0;
    let payload = msg->Broadcast_1;
    let data = payload.gossip_frame@;
    let enc_v = encoding_of(enc, msg, repair_estimate);
    let info = enc_v.0;
    let pkts = enc_v.1;
    let ray = spec_ray_id(payload@);
    let key = ray + info;
    let (f, blocks) = spec_safe_oti(info)->Ok_0;
    let k_need = packets_needed(info, pkts, data);
    let e = expiry(times[0], decoders[0].conf().cache_ttl);
    let pre = decoders[j];
    let post = decoders[j + 1];
    let m = chunks[j];
    let now = times[j];
    let r = results[j];
    assert(pre.wf() && post.wf());
    assert(decode_step(pre, post, m, now, r));
    assert(times[0] <= now <= e);
    lemma_partition_count(
        super::safe::spec_int_div_ceil(f.transfer_length, f.symbol_size as u64),
        f.source_blocks as u32,
    );
    assert(blocks == f.source_blocks);
    assert(pkts[j].len() == 4 + f.symbol_size);
    let frame = m->Broadcast_1.gossip_frame@;
    assert(frame == ray + info + pkts[j]);
    assert(frame.take(CHUNKED_HEADER_SIZE as int) =~= key);
    assert(frame.subrange(32, 44) =~= info);
    assert(frame.skip(CHUNKED_HEADER_SIZE as int) =~= pkts[j]);
    assert(chunk_key(m) == Some(key));
    if j == 0 {
        assert(chunk_key(chunks[0])->Some_0 == key);
    }
    lemma_key_step(pre, post, m, now, r, key);
    let c1 = entries_for_chunk(pre, m, now);
    let st = receiving_prefix(e, payload.height, info, pkts, j);
    if j == 0 {
        assert(pkts.take(0) =~= Seq::<Seq<u8>>::empty());
        assert(key.subrange(32, 44) =~= info);
        assert(c1[c1.len() - 1] == (key, st));
        lemma_state_of(c1, key, st);
    }
    assert(state_of(c1, key) == st);
    assert(raise_height(st, payload.height) == st);
    assert(pkts.take(j).push(pkts[j]) =~= pkts.take(j + 1));
    assert(decoded_with(st, pkts[j]) == raptorq_decoded(info, pkts.take(j + 1)));
    if j + 1 == k_need {
        super::lemma_ray_id_ignores_height(payload@, payload.height);
        assert(BroadcastView { height: payload.height, frame: data } == payload@);
        assert(key.take(32) =~= ray);
    } else {
        assert(0 < j + 1 < k_need);
        assert(with_packet(st, pkts[j]) == receiving_prefix(e, payload.height, info, pkts, j + 1));
    }
}

/// Before call `j` of a round-trip run that has not completed the object,
/// every call so far was answered with nothing, and the entry of the
/// broadcast holds the first `j` packets.
proof fn lemma_round_trip_prefix(
    enc: RaptorQEncoder,
    msg: Message,
    repair_estimate: u32,
    chunks: Seq<Message>,
    decoders: Seq<RaptorQDecoder>,
    times: Seq<u64>,
    results: Seq<Result<Option<Message>, EncodingError>>,
    j: int,
)
    requires
        round_trip_run(enc, msg, repair_estimate, chunks, decoders, times, results),
        0 <= j < packets_needed(
            encoding_of(enc, msg, repair_estimate).0,
            encoding_of(enc, msg, repair_estimate).1,
            msg->Broadcast_1.gossip_frame@,
        ),
    ensures
        ({
            let enc_v = encoding_of(enc, msg, repair_estimate);
            let key = spec_ray_id(msg->Broadcast_1@) + enc_v.0;
            &&& decoders[j].conf() == decoders[0].conf()
            &&& forall|a: int| 0 <= a < j ==> results[a] == Ok::<Option<Message>, EncodingError>(None)
            &&& j > 0 ==> has_key(decoders[j].entries(), key) && state_of(decoders[j].entries(), key)
                == receiving_prefix(
                expiry(times[0], decoders[0].conf().cache_ttl),
                msg->Broadcast_1.height,
                enc_v.0,
                enc_v.1,
                j,
            )
        }),
    decreases j,
{
    if j > 0 {
        lemma_round_trip_prefix(enc, msg, repair_estimate, chunks, decoders, times, results, j - 1);
        lemma_round_trip_step(enc, msg, repair_estimate, chunks, decoders, times, results, j - 1);
    }
}

/// Law: handing the chunks the encoder makes of a broadcast, in order, to a
/// decoder that has no entry for their chunk header, each call coming no
/// later than that entry expires, gives back the broadcast: some call
/// returns it (same header, height and frame, with its ray id), and every
/// call before that one returns nothing. `decoders[k]` is the decoder before
/// the call on `chunks[k]` at `times[k]`, which returned `results[k]`; the
/// frame must be shorter than the decoder's `max_udp_len`.
pub proof fn lemma_round_trip(
    enc: RaptorQEncoder,
    msg: Message,
    repair_estimate: u32,
    chunks: Seq<Message>,
    decoders: Seq<RaptorQDecoder>,
    times: Seq<u64>,
    results: Seq<Result<Option<Message>, EncodingError>>,
)
    requires
        round_trip_run(enc, msg, repair_estimate, chunks, decoders, times, results),
    ensures
        exists|k: int|
            0 <= k < chunks.len() && (#[trigger] results[k] matches Ok(Some(Message::Broadcast(h, p, ray))) && h
                == msg->Broadcast_0 && p.height == msg->Broadcast_1.height && p.gossip_frame@
                == msg->Broadcast_1.gossip_frame@ && ray@ == spec_ray_id(msg->Broadcast_1@)) && forall|j: int|
                0 <= j < k ==> results[j] == Ok::<Option<Message>, EncodingError>(None),
{
    let enc_v = encoding_of(enc, msg, repair_estimate);
    let k = packets_needed(enc_v.0, enc_v.1, msg->Broadcast_1.gossip_frame@) - 1;
    lemma_round_trip_prefix(enc, msg, repair_estimate, chunks, decoders, times, results, k);
    lemma_round_trip_step(enc, msg, repair_estimate, chunks, decoders, times, results, k);
}

/// Taking the first `j + 1` elements and filtering adds the `j`-th element
/// when it passes.
proof fn lemma_filter_take_step(s: CacheView, j: int, now: u64)
    requires
        0 <= j < s.len(),
    ensures
        spec_prune(s.take(j + 1), now) == if !spec_expired(s[j].1, now) {
            spec_prune(s.take(j), now).push(s[j])
        } else {
            spec_prune(s.take(j), now)
        },
{
    reveal(Seq::filter);
    assert(s.take(j + 1).drop_last() =~= s.take(j));
}

impl RaptorQDecoder {
    /// Model of the cache.
    pub closed spec fn entries(&self) -> CacheView {
        self.cache@.map_values(|e: CacheEntry| e.view_entry())
    }

    /// When the cache was last pruned (ms).
    pub closed spec fn last_pruned(&self) -> u64 {
        self.last_pruned
    }

    /// The configuration in use.
    pub closed spec fn conf(&self) -> RaptorQDecoderConf {
        self.conf
    }

    /// The cache holds one entry per chunk header.
    pub open spec fn wf(&self) -> bool {
        distinct_keys(self.entries())
    }

    /// Builds a decoder with an empty cache, last pruned at `now`.
    pub fn configure_at(conf: &RaptorQDecoderConf, now: u64) -> (r: Self)
        ensures
            r.wf(),
            r.entries() == Seq::<(Seq<u8>, CacheState)>::empty(),
            r.last_pruned() == now,
            r.conf() == *conf,
    {
        let r = RaptorQDecoder { cache: Vec::new(), last_pruned: now, conf: *conf };
        assert(r.entries() =~= Seq::<(Seq<u8>, CacheState)>::empty());
        r
    }

    /// The number of entries in the cache.
    pub fn cache_size(&self) -> (r: usize)
        ensures
            r == self.entries().len(),
    {
        self.cache.len()
    }

    /// The position of the entry with `key`, if any.
    fn find(&self, key: &[u8; 44]) -> (r: Option<usize>)
        requires
            self.wf(),
        ensures
            match r {
                Some(i) => i < self.entries().len() && self.entries()[i as int].0 == key@ && index_of(
                    self.entries(),
                    key@,
                ) == i,
                None => !has_key(self.entries(), key@),
            },
    {
        let mut i: usize = 0;
        while i < self.cache.len()
            invariant
                i <= self.cache@.len(),
                self.wf(),
                self.entries().len() == self.cache@.len(),
                forall|j: int| 0 <= j < i ==> self.entries()[j].0 != key@,
            decreases self.cache@.len() - i,
        {
            if bytes_equal(self.cache[i].key.as_slice(), key.as_slice()) {
                proof {
                    let e = self.entries();
                    assert(e[i as int].0 == key@);
                    let k = index_of(e, key@);
                    assert(0 <= k < e.len() && e[k].0 == key@);
                    if k < i {
                        assert(e[k].0 != e[i as int].0);
                    } else if k > i {
                        assert(e[i as int].0 != e[k].0);
                    }
                }
                return Some(i);
            }
            i = i + 1;
        }
        None
    }

    /// Drops the expired entries when more than `cache_prune_every` ms have
    /// elapsed since the last pruning.
    fn prune(&mut self, now: u64)
        requires
            old(self).wf(),
        ensures
            final(self).wf(),
            final(self).conf() == old(self).conf(),
            (final(self).entries(), final(self).last_pruned()) == maybe_prune(
                old(self).entries(),
                old(self).last_pruned(),
                now,
                old(self).conf().cache_prune_every,
            ),
    {
        if elapsed_millis(now, self.last_pruned) <= self.conf.cache_prune_every {
            return;
        }
        let ghost s = self.entries();
        let n: usize = self.cache.len();
        assert(s.len() == n);
        let mut i: usize = 0;
        let mut j: usize = 0;
        while i < self.cache.len()
            invariant
                0 <= i <= j <= s.len(),
                s.len() <= usize::MAX,
                self.wf(),
                self.conf() == old(self).conf(),
                self.entries() == spec_prune(s.take(j as int), now) + s.skip(j as int),
                spec_prune(s.take(j as int), now).len() == i,
                self.entries().len() == self.cache@.len(),
            decreases self.cache@.len() - i,
        {
            proof {
                lemma_filter_take_step(s, j as int, now);
                assert(self.entries()[i as int] == s[j as int]);
            }
            if self.cache[i].status.expired(now) {
                let ghost before = self.entries();
                let _ = self.cache.remove(i);
                proof {
                    assert(self.entries() =~= before.remove(i as int));
                    assert(self.entries() =~= spec_prune(s.take(j + 1), now) + s.skip(j + 1));
                }
            } else {
                proof {
                    assert(self.entries() =~= spec_prune(s.take(j + 1), now) + s.skip(j + 1));
                }
                i = i + 1;
            }
            j = j + 1;
        }
        proof {
            assert(s.take(j as int) =~= s);
            assert(self.entries() =~= spec_prune(s, now));
        }
        self.last_pruned = now;
    }

    /// Handles what the RaptorQ decoder gave for the chunk whose header is
    /// the key of entry `i`: an object whose ray id is `ray_id` becomes the
    /// decoded broadcast at `height`, and the entry is marked processed until
    /// `now` plus the cache TTL; anything else yields nothing.
    pub fn accept_decoded(
        &mut self,
        i: usize,
        header: Header,
        ray_id: [u8; 32],
        height: u8,
        decoded: Option<Vec<u8>>,
        now: u64,
    ) -> (r: Option<Message>)
        requires
            old(self).wf(),
            i < old(self).entries().len(),
        ensures
            final(self).wf(),
            final(self).conf() == old(self).conf(),
            final(self).last_pruned() == old(self).last_pruned(),
            match decoded {
                Some(d) => if spec_ray_id(BroadcastView { height, frame: d@ }) == ray_id@ {
                    &&& r == Some(
                        Message::Broadcast(header, BroadcastPayload { height, gossip_frame: d }, ray_id),
                    )
                    &&& final(self).entries() == old(self).entries().update(
                        i as int,
                        (
                            old(self).entries()[i as int].0,
                            CacheState::Processed { expire_on: expiry(now, old(self).conf().cache_ttl) },
                        ),
                    )
                } else {
                    r is None && final(self).entries() == old(self).entries()
                },
                None => r is None && final(self).entries() == old(self).entries(),
            },
    {
        match decoded {
            Some(d) => {
                let payload = BroadcastPayload { height, gossip_frame: d };
                let id = match payload.generate_ray_id() {
                    Ok(id) => id,
                    Err(_) => return None,
                };
                if !bytes_equal(id.as_slice(), ray_id.as_slice()) {
                    return None;
                }
                let ghost before = self.entries();
                let entry = self.cache.remove(i);
                let expire = now.saturating_add(self.conf.cache_ttl);
                self.cache.insert(i, CacheEntry { key: entry.key, status: CacheStatus::Processed(expire) });
                proof {
                    assert(self.entries() =~= before.update(
                        i as int,
                        (before[i as int].0, CacheState::Processed { expire_on: expiry(now, self.conf.cache_ttl) }),
                    ));
                }
                Some(Message::Broadcast(header, payload, ray_id))
            },
            None => None,
        }
    }

    /// Decodes `message` at `now` (ms): a broadcast chunk goes to the decoder
    /// of its chunk header, and the broadcast is returned once complete and
    /// checked; other messages pass through. See `decode_step`.
    pub fn decode_at(&mut self, message: Message, now: u64) -> (r: Result<Option<Message>, EncodingError>)
        requires
            old(self).wf(),
        ensures
            final(self).wf(),
            decode_step(*old(self), *final(self), message, now, r),
    {
        match message {
            Message::Broadcast(header, payload, _) => {
                let chunked = match ChunkedPayload::try_from(&payload) {
                    Ok(c) => c,
                    Err(e) => return Err(e),
                };
                let ray_id = chunked.ray_id();
                let chunked_header = chunked.header();
                let ghost frame = payload.gossip_frame@;
                let ghost key = frame.take(CHUNKED_HEADER_SIZE as int);
                assert(chunked_header@ =~= key);
                assert(ray_id@ =~= key.take(32));
                assert(key.subrange(32, 44) =~= frame.subrange(32, 44));
                let i = match self.find(&chunked_header) {
                    Some(i) => i,
                    None => {
                        let info = match chunked.transmission_info(self.conf.max_udp_len) {
                            Ok(info) => info,
                            Err(e) => return Err(EncodingError::InvalidTransmissionInfo(e)),
                        };
                        let d = BlockDecoder::new(&info);
                        let expire = now.saturating_add(self.conf.cache_ttl);
                        let ghost before = self.entries();
                        self.cache.push(
                            CacheEntry { key: chunked_header, status: CacheStatus::Receiving(d, expire, payload.height) },
                        );
                        proof {
                            assert(self.entries() =~= before.push(self.entries().last()));
                        }
                        self.cache.len() - 1
                    },
                };
                let ghost c1 = self.entries();
                proof {
                    assert(c1[i as int].0 == key);
                    assert(index_of(c1, key) == i);
                }
                let entry = self.cache.remove(i);
                let decoded = match entry.status {
                    CacheStatus::Processed(e) => {
                        self.cache.insert(i, CacheEntry { key: entry.key, status: CacheStatus::Processed(e) });
                        assert(self.entries() =~= c1);
                        None
                    },
                    CacheStatus::Receiving(mut d, expire, max_height) => {
                        let mut height = max_height;
                        if payload.height > height {
                            height = payload.height;
                        }
                        let chunk = chunked.encoded_chunk();
                        // A packet for a block the decoder does not have, not one
                        // symbol long, or for a decoder without sub-blocks is dropped.
                        let fits = chunk.len() == 4 + d.oti.symbol_size as usize && (chunk[0] as usize)
                            < d.blocks && d.oti.sub_blocks > 0;
                        if !fits {
                            self.cache.insert(
                                i,
                                CacheEntry { key: entry.key, status: CacheStatus::Receiving(d, expire, height) },
                            );
                            assert(self.entries() =~= c1.update(i as int, (key, raise_height(c1[i as int].1, payload.height))));
                            return Ok(None);
                        }
                        let out = raptorq_decode(&mut d, chunk);
                        self.cache.insert(
                            i,
                            CacheEntry { key: entry.key, status: CacheStatus::Receiving(d, expire, height) },
                        );
                        assert(self.entries() =~= c1.update(
                            i as int,
                            (key, with_packet(raise_height(c1[i as int].1, payload.height), chunk@)),
                        ));
                        self.accept_decoded(i, header, ray_id, height, out, now)
                    },
                };
                self.prune(now);
                Ok(decoded)
            },
            _ => Ok(Some(message)),
        }
    }

    /// Decodes `message` at the current time of the wall clock (see
    /// `decode_at`).
    pub fn decode(&mut self, message: Message) -> (r: Result<Option<Message>, EncodingError>)
        requires
            old(self).wf(),
        ensures
            final(self).wf(),
            exists|now: u64| decode_step(*old(self), *final(self), message, now, r),
    {
        let now = now_millis();
        self.decode_at(message, now)
    }
}

impl Configurable for RaptorQDecoder {
    type TConf = RaptorQDecoderConf;

    fn default_configuration() -> (r: Self::TConf)
        ensures
            r == RaptorQDecoderConf::spec_default(),
    {
        RaptorQDecoderConf {
            cache_ttl: DEFAULT_CACHE_TTL,
            cache_prune_every: DEFAULT_CACHE_PRUNE_EVERY,
            max_udp_len: DEFAULT_MAX_UDP_LEN,
        }
    }

    /// Builds a decoder with an empty cache, last pruned now (the wall clock
    /// is read).
    fn configure(conf: &Self::TConf) -> (r: Self)
        ensures
            r.wf(),
            r.entries() == Seq::<(Seq<u8>, CacheState)>::empty(),
            r.conf() == *conf,
    {
        RaptorQDecoder::configure_at(conf, now_millis())
    }
}

} // verus!
