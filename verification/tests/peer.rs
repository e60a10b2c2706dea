use kadcast::encoding::payload::IpInfo;
use kadcast::peer::{compute_id, PeerNode, SocketAddress};

fn v4(a: u8, b: u8, c: u8, d: u8, port: u16) -> SocketAddress {
    SocketAddress { ip: IpInfo::IPv4([a, b, c, d]), port }
}

fn v6(segments: [u16; 8], port: u16) -> SocketAddress {
    let mut octets = [0u8; 16];
    for (i, s) in segments.iter().enumerate() {
        octets[2 * i] = (s >> 8) as u8;
        octets[2 * i + 1] = (s & 0xff) as u8;
    }
    SocketAddress { ip: IpInfo::IPv6(octets), port }
}

fn generate(address: SocketAddress) -> PeerNode {
    PeerNode::generate(address, 0).expect("a nonce exists")
}

#[test]
fn test_verify_header() {
    let wrong_header = generate(v4(10, 0, 0, 1, 333)).to_header();
    let wrong_header_sameport = generate(v4(10, 0, 0, 1, 666)).to_header();
    let nodes = vec![
        generate(v4(192, 168, 1, 1, 666)),
        generate(v6([0x2001, 0x0db8, 0x85a3, 0, 0, 0x8a2e, 0x0370, 0x7334], 666)),
    ];
    for n in nodes.iter() {
        let ip = &n.value().address().ip;
        assert!(PeerNode::verify_header(&n.to_header(), ip));
        assert!(!PeerNode::verify_header(&wrong_header, ip));
        assert!(!PeerNode::verify_header(&wrong_header_sameport, ip));
    }
}

#[test]
fn identity_follows_address() {
    let a = generate(v4(192, 168, 1, 1, 666));
    let b = generate(v4(192, 168, 1, 1, 666));
    let c = generate(v4(192, 168, 1, 1, 667));
    assert_eq!(a.id(), b.id());
    assert_ne!(a.id().as_binary(), c.id().as_binary());
    assert_eq!(a.id().as_binary(), &compute_id(&IpInfo::IPv4([192, 168, 1, 1]), 666));
}

#[test]
fn header_of_a_node() {
    let n = generate(v4(192, 168, 1, 1, 666));
    let h = n.to_header();
    assert_eq!(h.binary_id(), n.id());
    assert_eq!(h.sender_port, 666);
    assert_eq!(h.network_id, 0);
    assert_eq!(h.reserved, [0, 0]);
    let info = n.as_peer_info();
    assert_eq!(info.id, *n.id().as_binary());
    assert_eq!(info.to_socket_address(), v4(192, 168, 1, 1, 666));
}

#[test]
fn node_liveness() {
    let n = PeerNode::from_socket_at(v4(1, 2, 3, 4, 5), *generate(v4(1, 2, 3, 4, 5)).id(), 0, 1000);
    assert!(n.is_alive(1000, 10));
    assert!(n.is_alive(1009, 10));
    assert!(!n.is_alive(1010, 10));
    let mut m = n;
    m.refresh(5000);
    assert!(m.is_alive(5005, 10));
}
