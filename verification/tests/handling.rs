use kadcast::config::{BucketConfig, Config, NetworkConfig};
use kadcast::encoding::message::{Message, Version};
use kadcast::encoding::payload::{BroadcastPayload, IpInfo, NodePayload};
use kadcast::encoding::{EncodingError, Marshallable};
use kadcast::handling::{broadcast_messages, send_message, MessageHandler};
use kadcast::kbucket::{NodeInsertError, Tree};
use kadcast::maintainer::TableMaintainer;
use kadcast::peer::{PeerNode, SocketAddress};
use kadcast::transport::encoding::raptorq::decoder::RaptorQDecoder;
use kadcast::transport::encoding::raptorq::encoder::RaptorQEncoder;
use kadcast::transport::encoding::Configurable;
use kadcast::transport::{after_attempt, is_blocked, outgoing_datagrams, receive_datagram, send_retry_count, SendStep};

fn v4(a: u8, b: u8, c: u8, d: u8, port: u16) -> SocketAddress {
    SocketAddress { ip: IpInfo::IPv4([a, b, c, d]), port }
}

fn node_at(address: SocketAddress, now: u64) -> PeerNode {
    let n = PeerNode::generate(address, 0).expect("a nonce exists");
    PeerNode::from_socket_at(address, *n.id(), 0, now)
}

fn setup(now: u64) -> (Tree, MessageHandler) {
    let root = node_at(v4(192, 168, 0, 1, 666), now);
    let handler = MessageHandler::new(&root, &Config::default()).expect("valid versions");
    (Tree::new(root, BucketConfig::default()), handler)
}

fn version() -> Version {
    Version::new(0, 0, 1)
}

#[test]
fn ping_is_answered_with_pong() {
    let (table, handler) = setup(1000);
    let remote = node_at(v4(10, 0, 0, 2, 700), 1000);
    let (out, delivered) = handler.handle_message(&table, Message::Ping(remote.to_header(), version()), v4(10, 0, 0, 2, 700));
    assert!(delivered.is_none());
    assert_eq!(out.len(), 1);
    assert!(matches!(out[0].0, Message::Pong(h, v) if h == table.root().to_header() && v == version()));
    assert_eq!(out[0].1, vec![v4(10, 0, 0, 2, 700)]);
}

#[test]
fn pong_is_not_answered() {
    let (table, handler) = setup(1000);
    let remote = node_at(v4(10, 0, 0, 2, 700), 1000);
    let (out, delivered) = handler.handle_message(&table, Message::Pong(remote.to_header(), version()), v4(10, 0, 0, 2, 700));
    assert!(out.is_empty() && delivered.is_none());
}

#[test]
fn find_nodes_gets_the_closest_peers() {
    let (mut table, handler) = setup(1000);
    for i in 2..30 {
        let _ = table.insert_at(node_at(v4(10, 0, 1, i, 700), 1000), 1000);
    }
    let remote = node_at(v4(10, 0, 0, 2, 700), 1000);
    let target = *remote.id().as_binary();
    let (out, _) =
        handler.handle_message(&table, Message::FindNodes(remote.to_header(), version(), target), v4(10, 0, 0, 2, 700));
    assert_eq!(out.len(), 1);
    match &out[0].0 {
        Message::Nodes(_, _, payload) => {
            let closest: Vec<_> = table.closest_peers::<{ kadcast::K_K }>(&target).iter().map(|n| n.as_peer_info()).collect();
            assert_eq!(payload.peers, closest);
            assert!(!payload.peers.is_empty());
        }
        _ => panic!(),
    }
}

#[test]
fn nodes_are_contacted_when_unknown() {
    let (mut table, handler) = setup(1000);
    let known = node_at(v4(10, 0, 0, 3, 700), 1000);
    let _ = table.insert_at(node_at(v4(10, 0, 0, 3, 700), 1000), 1000);
    let fresh = node_at(v4(10, 0, 0, 4, 700), 1000);
    let me = table.root().as_peer_info();
    let payload = NodePayload { peers: vec![known.as_peer_info(), fresh.as_peer_info(), me] };
    let remote = node_at(v4(10, 0, 0, 2, 700), 1000);
    let (out, _) = handler.handle_message(&table, Message::Nodes(remote.to_header(), version(), payload), v4(10, 0, 0, 2, 700));
    // Only the unknown peer is asked, for its own key (recursive discovery).
    assert_eq!(out.len(), 1);
    assert!(matches!(out[0].0, Message::FindNodes(_, _, k) if k == *fresh.id().as_binary()));
    assert_eq!(out[0].1, vec![v4(10, 0, 0, 4, 700)]);

    let mut config = Config::default();
    config.recursive_discovery = false;
    let plain = MessageHandler::new(table.root(), &config).unwrap();
    let payload = NodePayload { peers: vec![fresh.as_peer_info()] };
    let (out, _) = plain.handle_message(&table, Message::Nodes(remote.to_header(), version(), payload), v4(10, 0, 0, 2, 700));
    assert!(matches!(out[0].0, Message::Ping(..)));
}

#[test]
fn broadcast_is_delivered_and_propagated() {
    let (mut table, handler) = setup(1000);
    for i in 2..40 {
        let _ = table.insert_at(node_at(v4(10, 7, i, 1, 700), 1000), 1000);
    }
    let remote = node_at(v4(10, 0, 0, 2, 700), 1000);
    let ray = [9u8; 32];
    let payload = BroadcastPayload { height: 127, gossip_frame: vec![1, 2, 3] };
    let (out, delivered) =
        handler.handle_message(&table, Message::Broadcast(remote.to_header(), payload, ray), v4(10, 0, 0, 2, 700));
    let (frame, info) = delivered.unwrap();
    assert_eq!(frame, vec![1, 2, 3]);
    assert_eq!(info.src(), v4(10, 0, 0, 2, 700));
    assert_eq!(info.height(), 127);
    assert_eq!(info.ray(), &ray[..]);
    assert!(!out.is_empty());
    for (m, targets) in out.iter() {
        match m {
            Message::Broadcast(h, p, r) => {
                assert_eq!(*h, table.root().to_header());
                assert!(p.height < 127);
                assert_eq!(p.gossip_frame, vec![1, 2, 3]);
                assert_eq!(*r, [0u8; 32]);
                assert!(!targets.is_empty() && targets.len() <= kadcast::K_BETA);
            }
            _ => panic!(),
        }
    }
    // Height zero is delivered but not propagated.
    let payload = BroadcastPayload { height: 0, gossip_frame: vec![1] };
    let (out, delivered) =
        handler.handle_message(&table, Message::Broadcast(remote.to_header(), payload, ray), v4(10, 0, 0, 2, 700));
    assert!(out.is_empty() && delivered.is_some());
}

#[test]
fn unsupported_version_is_refused() {
    let now = 1000;
    let root = node_at(v4(192, 168, 0, 1, 666), now);
    let mut config = Config::default();
    config.version_match = "^1.2".to_string();
    let handler = MessageHandler::new(&root, &config).unwrap();
    let mut table = Tree::new(root, BucketConfig::default());
    let remote = node_at(v4(10, 0, 0, 2, 700), now);
    let r = handler.handle_peer(&mut table, node_at(v4(10, 0, 0, 2, 700), now), &Message::Ping(remote.to_header(), version()), now);
    assert!(matches!(r, Err(NodeInsertError::MismatchVersion(_, v)) if v == version()));
    assert!(table.has_peer(remote.id().as_binary()).is_none());
    let ok = handler.handle_peer(
        &mut table,
        node_at(v4(10, 0, 0, 2, 700), now),
        &Message::Ping(remote.to_header(), Version::new(1, 3, 0)),
        now,
    );
    assert!(ok.unwrap().is_empty());
    assert!(table.has_peer(remote.id().as_binary()).is_some());
}

#[test]
fn invalid_version_config_is_refused() {
    let root = node_at(v4(192, 168, 0, 1, 666), 0);
    let mut config = Config::default();
    config.version = "not a version".to_string();
    assert!(MessageHandler::new(&root, &config).is_none());
    let mut config = Config::default();
    config.version_match = "=>>1".to_string();
    assert!(MessageHandler::new(&root, &config).is_none());
}

#[test]
fn broadcast_from_unknown_peer_pings_it() {
    let (mut table, handler) = setup(1000);
    let remote = node_at(v4(10, 0, 0, 2, 700), 1000);
    let msg = Message::broadcast(remote.to_header(), BroadcastPayload { height: 0, gossip_frame: vec![1] });
    let out = handler.handle_peer(&mut table, node_at(v4(10, 0, 0, 2, 700), 1000), &msg, 1000).unwrap();
    assert_eq!(out.len(), 1);
    assert!(matches!(out[0].0, Message::Ping(..)));
    assert_eq!(out[0].1, vec![v4(10, 0, 0, 2, 700)]);
    assert!(table.has_peer(remote.id().as_binary()).is_none());
}

#[test]
fn incoming_message_uses_the_announced_port() {
    let (mut table, handler) = setup(1000);
    let remote = node_at(v4(10, 0, 0, 2, 700), 1000);
    let (out, _) = handler.handle_incoming(&mut table, Message::Ping(remote.to_header(), version()), v4(10, 0, 0, 2, 4242), 1000);
    assert_eq!(out.len(), 1);
    assert_eq!(out[0].1, vec![v4(10, 0, 0, 2, 700)]);
    let h = table.has_peer(remote.id().as_binary()).unwrap();
    assert_eq!(Some(h), table.root().calculate_distance(&remote));
}

#[test]
fn broadcast_and_send_beans() {
    let (mut table, _) = setup(1000);
    for i in 2..20 {
        let _ = table.insert_at(node_at(v4(10, 9, i, 1, 700), 1000), 1000);
    }
    let header = table.root().to_header();
    assert!(broadcast_messages(&table, header, &[], None).is_empty());
    let all = broadcast_messages(&table, header, &[1, 2], None);
    assert!(!all.is_empty());
    let low = broadcast_messages(&table, header, &[1, 2], Some(0));
    assert!(low.len() <= 1);
    assert!(send_message(header, &[], v4(1, 1, 1, 1, 1)).is_none());
    let (m, to) = send_message(header, &[4], v4(1, 1, 1, 1, 1)).unwrap();
    assert!(matches!(m, Message::Broadcast(_, ref p, _) if p.height == 0 && p.gossip_frame == vec![4]));
    assert_eq!(to, vec![v4(1, 1, 1, 1, 1)]);
}

#[test]
fn maintainer_decisions() {
    let t0 = 1000;
    let root = node_at(v4(192, 168, 0, 1, 666), t0);
    let me = v4(192, 168, 0, 1, 666);
    let mut config = BucketConfig::default();
    config.node_ttl = 100;
    config.bucket_ttl = 100;
    let maintainer = TableMaintainer::new(vec!["boot:1".to_string()], &root, version());
    let mut table = Tree::new(root, config);
    assert_eq!(maintainer.bootstrapping_nodes(), &["boot:1".to_string()][..]);
    assert!(TableMaintainer::need_bootstrappers(&table, 1, t0));
    for i in 2..6 {
        let _ = table.insert_at(node_at(v4(10, 0, 0, i, 666), t0), t0);
    }
    assert!(!TableMaintainer::need_bootstrappers(&table, 3, t0));
    assert!(TableMaintainer::need_bootstrappers(&table, 3, t0 + 100));

    let addrs = maintainer.bootstrapping_nodes_addr(&[v4(1, 1, 1, 1, 1), me, v4(2, 2, 2, 2, 2)]);
    assert_eq!(addrs, vec![v4(1, 1, 1, 1, 1), v4(2, 2, 2, 2, 2)]);
    let (m, to) = maintainer.bootstrap_message(addrs.clone());
    assert!(matches!(m, Message::FindNodes(h, _, k) if k == *h.binary_id().as_binary()));
    assert_eq!(to, addrs);

    assert!(maintainer.find_new_nodes(&table, t0).is_empty());
    assert!(maintainer.find_new_nodes(&table, t0 + 100).is_empty());
    let asks = maintainer.find_new_nodes(&table, t0 + 101);
    assert!(!asks.is_empty());
    for (m, to) in asks.iter() {
        assert!(matches!(m, Message::FindNodes(..)));
        assert_eq!(to.len(), 1);
    }
    let (ping, idles) = maintainer.ping_and_remove_idles(&mut table, t0 + 100);
    assert!(matches!(ping, Message::Ping(..)));
    assert_eq!(idles.len(), 4);
    assert_eq!(table.alive_nodes(t0 + 100).len() + table.idle_nodes(t0 + 100).len(), 0);
}

#[test]
fn transport_helpers() {
    let mut net = NetworkConfig::default();
    net.udp_send_retry_count = 0;
    assert_eq!(send_retry_count(&net), 1);
    net.udp_send_retry_count = 4;
    assert_eq!(send_retry_count(&net), 4);
    assert!(is_blocked(&[v4(1, 2, 3, 4, 5)], &v4(1, 2, 3, 4, 5)));
    assert!(!is_blocked(&[v4(1, 2, 3, 4, 5)], &v4(1, 2, 3, 4, 6)));

    let root = node_at(v4(192, 168, 0, 1, 666), 0);
    let encoder = RaptorQEncoder::configure(&RaptorQEncoder::default_configuration());
    let ping = Message::Ping(root.to_header(), version());
    let datagrams = outgoing_datagrams(&encoder, ping.clone(), 0).unwrap();
    assert_eq!(datagrams, vec![ping.bytes().unwrap()]);

    let mut decoder = RaptorQDecoder::configure_at(&RaptorQDecoder::default_configuration(), 0);
    let got = receive_datagram(&mut decoder, &datagrams[0], v4(3, 3, 3, 3, 3), 0).unwrap();
    assert_eq!(got, Some((ping, v4(3, 3, 3, 3, 3))));
    assert_eq!(receive_datagram(&mut decoder, &[0, 1], v4(3, 3, 3, 3, 3), 0), Err(EncodingError::UnexpectedEof));

    let bcast = Message::broadcast(root.to_header(), BroadcastPayload { height: 1, gossip_frame: vec![7; 500] });
    let datagrams = outgoing_datagrams(&encoder, bcast.clone(), 0).unwrap();
    let mut delivered = None;
    for d in datagrams.iter() {
        if let Some((m, _)) = receive_datagram(&mut decoder, d, v4(3, 3, 3, 3, 3), 0).unwrap() {
            delivered = Some(m);
            break;
        }
    }
    assert_eq!(delivered.unwrap().bytes().unwrap(), bcast.bytes().unwrap());
}

#[test]
fn send_attempts() {
    assert_eq!(after_attempt(1, 3, true), SendStep::Sent);
    assert_eq!(after_attempt(1, 3, false), SendStep::Retry);
    assert_eq!(after_attempt(2, 3, false), SendStep::Retry);
    assert_eq!(after_attempt(3, 3, false), SendStep::Fail);
}

#[test]
fn handlers_answer_each_kind() {
    let (table, handler) = setup(1000);
    let out = handler.handle_ping(v4(10, 0, 0, 9, 701));
    assert_eq!(out.len(), 1);
    assert!(matches!(out[0].0, Message::Pong(h, v) if h == table.root().to_header() && v == version()));
    assert_eq!(out[0].1, vec![v4(10, 0, 0, 9, 701)]);

    // An empty table has no peer to offer.
    let target = *node_at(v4(10, 0, 0, 9, 701), 1000).id().as_binary();
    let out = handler.handle_find_nodes(&table, v4(10, 0, 0, 9, 701), &target);
    assert_eq!(out.len(), 1);
    assert!(matches!(&out[0].0, Message::Nodes(_, _, p) if p.peers.is_empty()));

    let payload = BroadcastPayload { height: 3, gossip_frame: vec![4, 5] };
    let (out, (frame, info)) = handler.handle_broadcast(&table, v4(10, 0, 0, 9, 701), payload, &[7u8; 32]);
    assert!(out.is_empty());
    assert_eq!(frame, vec![4, 5]);
    assert_eq!(info.height(), 3);
    assert_eq!(info.ray(), &[7u8; 32][..]);
}
