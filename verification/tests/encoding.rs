use kadcast::encoding::header::Header;
use kadcast::encoding::message::{Message, Version};
use kadcast::encoding::payload::{BroadcastPayload, IpInfo, NodePayload, PeerEncodedInfo};
use kadcast::encoding::{EncodingError, Marshallable};
use kadcast::peer::{PeerNode, SocketAddress};

fn v4(a: u8, b: u8, c: u8, d: u8, port: u16) -> SocketAddress {
    SocketAddress { ip: IpInfo::IPv4([a, b, c, d]), port }
}

fn v6(segments: [u16; 8], port: u16) -> SocketAddress {
    let mut octets = [0u8; 16];
    for (i, s) in segments.iter().enumerate() {
        octets[2 * i] = (s >> 8) as u8;
        octets[2 * i + 1] = (s & 0xff) as u8;
    }
    SocketAddress { ip: IpInfo::IPv6(octets), port }
}

fn generate(address: SocketAddress) -> PeerNode {
    PeerNode::generate(address, 0).expect("a nonce exists")
}

fn version() -> Version {
    Version::new(0, 0, 1)
}

fn test_kadkast_marshal(message: Message) {
    let mut bytes = Vec::new();
    message.marshal_binary(&mut bytes).expect("encoding never fails");
    let (deser, read) = Message::unmarshal_binary(&bytes).expect("decodes back");
    assert_eq!(read, bytes.len());
    assert_eq!(message, deser);
}

#[test]
fn test_encode_ping() {
    let peer = generate(v4(192, 168, 0, 1, 666));
    test_kadkast_marshal(Message::Ping(peer.to_header(), version()));
}

#[test]
fn test_encode_pong() {
    let peer = generate(v4(192, 168, 0, 1, 666));
    test_kadkast_marshal(Message::Pong(peer.to_header(), version()));
}

#[test]
fn test_encode_find_nodes() {
    let peer = generate(v4(192, 168, 0, 1, 666));
    let target = *generate(v4(192, 168, 1, 1, 666)).id().as_binary();
    test_kadkast_marshal(Message::FindNodes(peer.to_header(), version(), target));
}

#[test]
fn test_encode_nodes() {
    let peer = generate(v4(192, 168, 0, 1, 666));
    let nodes = vec![
        generate(v4(192, 168, 1, 1, 666)),
        generate(v6([0x2001, 0x0db8, 0x85a3, 0, 0, 0x8a2e, 0x0370, 0x7334], 666)),
    ]
    .iter()
    .map(|f| f.as_peer_info())
    .collect();
    test_kadkast_marshal(Message::Nodes(peer.to_header(), version(), NodePayload { peers: nodes }));
}

#[test]
fn test_encode_empty_nodes() {
    let peer = generate(v4(192, 168, 0, 1, 666));
    test_kadkast_marshal(Message::Nodes(peer.to_header(), version(), NodePayload { peers: vec![] }));
}

#[test]
fn test_encode_broadcast() {
    let peer = generate(v4(192, 168, 0, 1, 666));
    let a = Message::broadcast(
        peer.to_header(),
        BroadcastPayload { height: 10, gossip_frame: vec![3, 5, 6, 7] },
    );
    test_kadkast_marshal(a);
}

#[test]
fn test_failing() {
    let data: [u8; 4] = rand::random();
    assert!(Message::unmarshal_binary(&data).is_err(), "Message::unmarshal_binary should fail");
    assert!(Header::unmarshal_binary(&data).is_err(), "Header::unmarshal_binary should fail");
    assert!(
        BroadcastPayload::unmarshal_binary(&data).is_err(),
        "BroadcastPayload::unmarshal_binary should fail"
    );
    assert!(NodePayload::unmarshal_binary(&data).is_err(), "NodePayload::unmarshal_binary should fail");
    assert!(
        PeerEncodedInfo::unmarshal_binary(&data).is_err(),
        "PeerEncodedInfo::unmarshal_binary should fail"
    );
}

#[test]
fn unmarshal_invalid_gossip_length() {
    // height=0, gossip_length=0xFFFF_FFFF, and no gossip bytes after that.
    let mut bytes = Vec::new();
    bytes.push(0u8);
    bytes.extend_from_slice(&u32::MAX.to_le_bytes());
    let res = BroadcastPayload::unmarshal_binary(&bytes[..]);
    let err = res.expect_err("expected an error due to invalid gossip length");
    assert_eq!(err, EncodingError::UnexpectedEof);
}

#[test]
fn ping_wire_layout() {
    let peer = generate(v4(10, 0, 0, 7, 0x0203));
    let header = peer.to_header();
    let mut bytes = Vec::new();
    Message::Ping(header, Version::new(1, 0x0102, 0x0304)).marshal_binary(&mut bytes).unwrap();
    assert_eq!(bytes.len(), 1 + 25 + 5);
    assert_eq!(bytes[0], 0);
    assert_eq!(&bytes[1..17], &header.binary_id.as_binary()[..]);
    assert_eq!(&bytes[17..21], &header.binary_id.nonce()[..]);
    assert_eq!(&bytes[21..23], &[0x03, 0x02]);
    assert_eq!(bytes[23], 0);
    assert_eq!(&bytes[24..26], &[0, 0]);
    assert_eq!(&bytes[26..], &[1, 0x02, 0x01, 0x04, 0x03]);
}

#[test]
fn unknown_message_type_is_refused() {
    let peer = generate(v4(10, 0, 0, 7, 80));
    let mut bytes = Vec::new();
    Message::Pong(peer.to_header(), version()).marshal_binary(&mut bytes).unwrap();
    bytes[0] = 7;
    assert_eq!(Message::unmarshal_binary(&bytes).unwrap_err(), EncodingError::InvalidMessageType(7));
}

#[test]
fn tampered_nonce_is_refused() {
    let peer = generate(v4(10, 0, 0, 7, 80));
    let mut bytes = Vec::new();
    peer.to_header().marshal_binary(&mut bytes).unwrap();
    // Try every other nonce byte until one no longer meets the difficulty.
    let mut refused = false;
    for v in 0..=255u8 {
        let mut b = bytes.clone();
        b[16] = v;
        if Header::unmarshal_binary(&b) == Err(EncodingError::InvalidNonce) {
            refused = true;
            break;
        }
    }
    assert!(refused);
}

#[test]
fn trailing_bytes_are_left_unread() {
    let peer = generate(v4(10, 0, 0, 7, 80));
    let mut bytes = Vec::new();
    let msg = Message::Ping(peer.to_header(), version());
    msg.marshal_binary(&mut bytes).unwrap();
    let len = bytes.len();
    bytes.extend_from_slice(&[9, 9, 9]);
    let (deser, read) = Message::unmarshal_binary(&bytes).unwrap();
    assert_eq!(deser, msg);
    assert_eq!(read, len);
}

#[test]
fn ipv4_entry_is_led_by_zero() {
    let node = generate(v4(192, 168, 0, 1, 666));
    let mut bytes = Vec::new();
    node.as_peer_info().marshal_binary(&mut bytes).unwrap();
    assert_eq!(bytes.len(), 1 + 4 + 2 + 16);
    assert_eq!(&bytes[..5], &[0, 192, 168, 0, 1]);
    assert_eq!(&bytes[5..7], &666u16.to_le_bytes());
    let (back, n) = PeerEncodedInfo::unmarshal_binary(&bytes).unwrap();
    assert_eq!(back, node.as_peer_info());
    assert_eq!(n, bytes.len());
}

#[test]
fn ipv6_entry_is_written_bare() {
    let node = generate(v6([0x2001, 0x0db8, 0, 0, 0, 0, 0, 1], 666));
    let mut bytes = Vec::new();
    node.as_peer_info().marshal_binary(&mut bytes).unwrap();
    assert_eq!(bytes.len(), 16 + 2 + 16);
    assert_eq!(&bytes[..2], &[0x20, 0x01]);
    let (back, _) = PeerEncodedInfo::unmarshal_binary(&bytes).unwrap();
    assert_eq!(back, node.as_peer_info());
}
