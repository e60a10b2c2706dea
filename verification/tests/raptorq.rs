use kadcast::encoding::message::Message;
use kadcast::encoding::payload::{BroadcastPayload, IpInfo};
use kadcast::encoding::{EncodingError, Marshallable};
use kadcast::peer::{PeerNode, SocketAddress};
use kadcast::transport::encoding::raptorq::decoder::{RaptorQDecoder, RaptorQDecoderConf};
use kadcast::transport::encoding::raptorq::encoder::RaptorQEncoder;
use kadcast::transport::encoding::raptorq::safe::{SafeObjectTransmissionInformation, TransmissionInformationError};
use kadcast::transport::encoding::{Configurable, TransportDecoder, TransportEncoder};

fn v4(a: u8, b: u8, c: u8, d: u8, port: u16) -> SocketAddress {
    SocketAddress { ip: IpInfo::IPv4([a, b, c, d]), port }
}

fn generate(address: SocketAddress) -> PeerNode {
    PeerNode::generate(address, 0).expect("a nonce exists")
}

/// The repair packets estimated for a frame: 15% of its symbols.
fn repair_estimate(len: usize, mtu: u16) -> u32 {
    (len as f32 * 0.15 / mtu as f32) as u32
}

fn encode(encoder: &RaptorQEncoder, message: Message) -> Vec<Message> {
    let len = match &message {
        Message::Broadcast(_, p, _) => p.gossip_frame.len(),
        _ => 0,
    };
    encoder.encode(message, repair_estimate(len, 1300)).unwrap()
}

fn random_bytes(len: usize) -> Vec<u8> {
    (0..len).map(|_| rand::random::<u8>()).collect()
}

#[test]
fn test_encode_raptorq() {
    let data = random_bytes(100_000);
    let peer = generate(v4(192, 168, 0, 1, 666));
    let header = peer.to_header();
    let payload = BroadcastPayload { height: 255, gossip_frame: data };
    println!("orig payload len {}", payload.bytes().unwrap().len());
    let message = Message::broadcast(header, payload);
    let message_bytes = message.bytes().unwrap();
    println!("orig message len {}", message_bytes.len());
    let encoder = TransportEncoder::configure(&TransportEncoder::default_configuration());
    let chunks = encode(&encoder, message);
    println!("encoded chunks {}", chunks.len());
    let mut decoder = TransportDecoder::configure(&TransportDecoder::default_configuration());
    let mut decoded = None;
    let mut i = 0;
    let mut sizetotal = 0;
    for chunk in chunks {
        i += 1;
        sizetotal += chunk.bytes().unwrap().len();
        if let Some(d) = decoder.decode(chunk).unwrap() {
            decoded = Some(d);
            println!("Decoder after {} messages ", i);
            break;
        }
    }
    println!("avg chunks size {}", sizetotal / i);
    assert_eq!(decoded.unwrap().bytes().unwrap(), message_bytes, "Unable to decode");
}

fn clone_and_corrupt_msg(message: &Message) -> Message {
    let mut bytes = Vec::new();
    message.marshal_binary(&mut bytes).unwrap();
    for b in bytes.iter_mut().skip(44) {
        *b = rand::random();
    }
    Message::unmarshal_binary(&bytes).unwrap().0
}

#[test]
fn test_encode_raptorq_junk() {
    const DATA_LEN: usize = 10_000;
    let data = random_bytes(DATA_LEN);
    let peer = generate(v4(192, 168, 0, 1, 666));
    let header = peer.to_header();
    let payload = BroadcastPayload { height: 255, gossip_frame: data };
    let message = Message::broadcast(header, payload);
    let message_bytes = message.bytes().unwrap();
    let encoder = TransportEncoder::configure(&TransportEncoder::default_configuration());
    let chunks = encode(&encoder, message);
    let mut decoder = TransportDecoder::configure(&TransportDecoder::default_configuration());
    let junks_messages = 100;
    println!("start spamming with {junks_messages} junk messages");
    for _ in 0..junks_messages {
        let msg = Message::broadcast(
            header,
            BroadcastPayload { height: 255, gossip_frame: random_bytes(DATA_LEN) },
        );
        if let Ok(Some(_)) = decoder.decode(msg) {
            panic!("This should be junk data");
        }
    }
    let mut decoded = None;
    let mut junk = 0;
    for (i, chunk) in chunks.into_iter().enumerate() {
        let cloned_chunk = clone_and_corrupt_msg(&chunk);
        for _ in 0..1000 {
            let cloned_chunk = clone_and_corrupt_msg(&cloned_chunk);
            if let Ok(Some(_)) = decoder.decode(cloned_chunk) {
                panic!("This should be junk data");
            }
            junk += 1;
        }
        if let Some(d) = decoder.decode(chunk).unwrap() {
            decoded = Some(d);
            println!("Decoder after {} messages (and {junk} messages) ", i + 1);
            break;
        }
    }
    assert_eq!(decoded.unwrap().bytes().unwrap(), message_bytes, "Unable to decode");
}

#[test]
fn test_expiring_cache() {
    let t0 = 1_000_000;
    let root = generate(v4(192, 168, 0, 1, 666));
    let enc = RaptorQEncoder::configure(&RaptorQEncoder::default_configuration());
    let mut conf = RaptorQDecoder::default_configuration();
    conf.cache_prune_every = 500;
    conf.cache_ttl = 1000;
    let mut dec = RaptorQDecoder::configure_at(&conf, t0);
    assert_eq!(dec.cache_size(), 0);

    // Decode a first message.
    for n in encode(&enc, Message::broadcast(root.to_header(), BroadcastPayload { height: 0, gossip_frame: vec![0] })) {
        dec.decode_at(n, t0).unwrap();
    }
    assert_eq!(dec.cache_size(), 1);

    // Half a second later the first message has not expired.
    let t1 = t0 + 500;
    for n in encode(&enc, Message::broadcast(root.to_header(), BroadcastPayload { height: 0, gossip_frame: vec![0] })) {
        dec.decode_at(n, t1).unwrap();
    }
    assert_eq!(dec.cache_size(), 1);

    // A second later, decoding three other messages drops the first.
    let t2 = t0 + 1001;
    for i in 1..4 {
        for n in encode(&enc, Message::broadcast(root.to_header(), BroadcastPayload { height: 0, gossip_frame: vec![i] })) {
            dec.decode_at(n, t2).unwrap();
        }
    }
    assert_eq!(dec.cache_size(), 3);

    // Another second later, the three expire on the next decoding.
    let t3 = t2 + 1001;
    for n in encode(&enc, Message::broadcast(root.to_header(), BroadcastPayload { height: 0, gossip_frame: vec![0] })) {
        dec.decode_at(n, t3).unwrap();
    }
    assert_eq!(dec.cache_size(), 1);
}

#[test]
fn decoded_broadcast_is_delivered_once() {
    let t0 = 50_000;
    let root = generate(v4(192, 168, 0, 1, 666));
    let enc = RaptorQEncoder::configure(&RaptorQEncoder::default_configuration());
    let mut dec = RaptorQDecoder::configure_at(&RaptorQDecoder::default_configuration(), t0);
    let message = Message::broadcast(root.to_header(), BroadcastPayload { height: 3, gossip_frame: vec![1, 2, 3] });
    let chunks = encode(&enc, message.clone());
    assert!(chunks.len() > 1);
    let mut delivered = 0;
    for c in chunks.iter().cloned() {
        if let Some(m) = dec.decode_at(c, t0).unwrap() {
            assert_eq!(m.bytes().unwrap(), message.bytes().unwrap());
            delivered += 1;
        }
    }
    for c in chunks.into_iter() {
        assert_eq!(dec.decode_at(c, t0 + 10).unwrap(), None);
    }
    assert_eq!(delivered, 1);
}

#[test]
fn other_messages_pass_through() {
    let root = generate(v4(192, 168, 0, 1, 666));
    let enc = RaptorQEncoder::configure(&RaptorQEncoder::default_configuration());
    let mut dec = RaptorQDecoder::configure_at(&RaptorQDecoder::default_configuration(), 0);
    let ping = Message::Ping(root.to_header(), kadcast::encoding::message::Version::new(0, 0, 1));
    assert_eq!(enc.encode(ping.clone(), 0).unwrap(), vec![ping.clone()]);
    assert_eq!(dec.decode_at(ping.clone(), 0).unwrap(), Some(ping));
}

#[test]
fn short_chunk_is_refused() {
    let root = generate(v4(192, 168, 0, 1, 666));
    let mut dec = RaptorQDecoder::configure_at(&RaptorQDecoder::default_configuration(), 0);
    let m = Message::broadcast(root.to_header(), BroadcastPayload { height: 0, gossip_frame: vec![0; 48] });
    assert_eq!(dec.decode_at(m, 0), Err(EncodingError::UnexpectedEof));
    assert_eq!(dec.cache_size(), 0);
}

#[test]
fn transmission_info_checks() {
    // transfer length 1000, symbol size 1296, one source block, one sub-block, alignment 8
    let good = [0, 0, 0, 0x03, 0xe8, 0, 0x05, 0x10, 1, 0, 1, 8];
    let info = SafeObjectTransmissionInformation::try_from(&good).unwrap();
    assert_eq!(info.inner.transfer_length, 1000);
    assert_eq!(info.inner.symbol_size, 1296);
    assert_eq!(info.max_blocks, 1);

    let mut b = good;
    b[8] = 0;
    assert_eq!(SafeObjectTransmissionInformation::try_from(&b).unwrap_err(), TransmissionInformationError::SourceBlocksZero);
    let mut b = good;
    b[6] = 0;
    b[7] = 0;
    assert_eq!(SafeObjectTransmissionInformation::try_from(&b).unwrap_err(), TransmissionInformationError::SymbolSizeZero);
    let mut b = good;
    b[3] = 0;
    b[4] = 0;
    assert_eq!(SafeObjectTransmissionInformation::try_from(&b).unwrap_err(), TransmissionInformationError::TransferLengthZero);
    let mut b = good;
    b[6] = 0x20;
    b[7] = 0x01;
    assert_eq!(
        SafeObjectTransmissionInformation::try_from(&b).unwrap_err(),
        TransmissionInformationError::SymbolSizeGreaterThanMTU
    );
    let mut b = good;
    b[11] = 4;
    assert_eq!(SafeObjectTransmissionInformation::try_from(&b).unwrap_err(), TransmissionInformationError::SymbolSizeNotAligned);
    assert_eq!(
        SafeObjectTransmissionInformation::try_from(&good[..11]).unwrap_err(),
        TransmissionInformationError::InvalidSize
    );
    // 480000 bytes in symbols of 8 bytes and one block: 60000 symbols, too many.
    let huge = [0, 0, 0x07, 0x53, 0x00, 0, 0, 8, 1, 0, 1, 8];
    assert_eq!(
        SafeObjectTransmissionInformation::try_from(&huge).unwrap_err(),
        TransmissionInformationError::TooManySourceSymbols
    );
}

#[test]
fn oversized_transfer_is_refused() {
    let root = generate(v4(192, 168, 0, 1, 666));
    let enc = RaptorQEncoder::configure(&RaptorQEncoder::default_configuration());
    let conf = RaptorQDecoderConf { cache_ttl: 1000, cache_prune_every: 1000, max_udp_len: 10 };
    let mut dec = RaptorQDecoder::configure_at(&conf, 0);
    let chunks = encode(&enc, Message::broadcast(root.to_header(), BroadcastPayload { height: 0, gossip_frame: vec![5; 100] }));
    assert_eq!(
        dec.decode_at(chunks[0].clone(), 0),
        Err(EncodingError::InvalidTransmissionInfo(TransmissionInformationError::TransferLengthExceeded))
    );
}

#[test]
fn mtu_out_of_range_falls_back() {
    let mut conf = RaptorQEncoder::default_configuration();
    conf.mtu = 100;
    let enc = RaptorQEncoder::configure(&conf);
    let default_enc = RaptorQEncoder::configure(&RaptorQEncoder::default_configuration());
    let root = generate(v4(192, 168, 0, 1, 666));
    let message = Message::broadcast(root.to_header(), BroadcastPayload { height: 0, gossip_frame: vec![1; 3000] });
    let chunks = enc.encode(message.clone(), 0).unwrap();
    let expected = default_enc.encode(message, 0).unwrap();
    // Three source symbols and five repair ones (the configured minimum).
    assert!(chunks.len() >= 8);
    assert_eq!(chunks, expected);
}

#[test]
fn chunks_share_their_header() {
    let root = generate(v4(192, 168, 0, 1, 666));
    let enc = RaptorQEncoder::configure(&RaptorQEncoder::default_configuration());
    let payload = BroadcastPayload { height: 4, gossip_frame: random_bytes(5000) };
    let ray = payload.generate_ray_id().unwrap();
    let chunks = encode(&enc, Message::broadcast(root.to_header(), payload));
    let first = match &chunks[0] {
        Message::Broadcast(_, p, _) => p.gossip_frame[..44].to_vec(),
        _ => panic!(),
    };
    assert_eq!(&first[..32], &ray[..]);
    for c in chunks.iter() {
        match c {
            Message::Broadcast(_, p, r) => {
                assert_eq!(&p.gossip_frame[..44], &first[..]);
                assert_eq!(r, &ray);
                assert_eq!(p.height, 4);
            }
            _ => panic!(),
        }
    }
}

#[test]
fn ray_id_ignores_height() {
    let a = BroadcastPayload { height: 1, gossip_frame: vec![1, 2, 3] };
    let b = BroadcastPayload { height: 200, gossip_frame: vec![1, 2, 3] };
    let c = BroadcastPayload { height: 1, gossip_frame: vec![1, 2, 4] };
    assert_eq!(a.generate_ray_id().unwrap(), b.generate_ray_id().unwrap());
    assert_ne!(a.generate_ray_id().unwrap(), c.generate_ray_id().unwrap());
}

#[test]
fn repair_packets_are_at_least_the_minimum() {
    let enc = RaptorQEncoder::configure(&RaptorQEncoder::default_configuration());
    assert_eq!(enc.repair_packets(0), 5);
    assert_eq!(enc.repair_packets(4), 5);
    assert_eq!(enc.repair_packets(9), 9);
    let mut conf = RaptorQEncoder::default_configuration();
    conf.min_repair_packets_per_block = 1;
    let enc = RaptorQEncoder::configure(&conf);
    assert_eq!(enc.repair_packets(0), 1);
}

#[test]
fn delivery_carries_the_highest_height() {
    let root = generate(v4(192, 168, 0, 1, 666));
    let enc = RaptorQEncoder::configure(&RaptorQEncoder::default_configuration());
    let payload = BroadcastPayload { height: 3, gossip_frame: random_bytes(6000) };
    let frame = payload.gossip_frame.clone();
    let chunks = encode(&enc, Message::broadcast(root.to_header(), payload));
    let mut dec = RaptorQDecoder::configure(&RaptorQDecoder::default_configuration());
    let heights = [3u8, 7, 2, 5, 1, 4, 6, 0];
    let mut delivered = None;
    for (k, c) in chunks.into_iter().enumerate() {
        let c = match c {
            Message::Broadcast(h, mut p, r) => {
                p.height = heights[k % heights.len()];
                Message::Broadcast(h, p, r)
            }
            _ => panic!(),
        };
        if let Some(m) = dec.decode(c).unwrap() {
            delivered = Some((k, m));
            break;
        }
    }
    let (k, m) = delivered.expect("the broadcast is rebuilt");
    let highest = heights.iter().take(k + 1).max().copied().unwrap();
    match m {
        Message::Broadcast(_, p, _) => {
            assert_eq!(p.gossip_frame, frame);
            assert_eq!(p.height, highest);
        }
        _ => panic!(),
    }
}
