use kadcast::config::BucketConfig;
use kadcast::encoding::payload::IpInfo;
use kadcast::kbucket::{BinaryID, Bucket, NodeInsertError, NodeInsertOk, Tree};
use kadcast::peer::{PeerNode, SocketAddress};
use kadcast::{K_BETA, K_K};

fn v4(a: u8, b: u8, c: u8, d: u8, port: u16) -> SocketAddress {
    SocketAddress { ip: IpInfo::IPv4([a, b, c, d]), port }
}

fn generate(address: SocketAddress) -> PeerNode {
    PeerNode::generate(address, 0).expect("a nonce exists")
}

/// The node of `address`, seen at `now`.
fn node_at(address: SocketAddress, now: u64) -> PeerNode {
    let n = generate(address);
    PeerNode::from_socket_at(address, *n.id(), 0, now)
}

fn calculate_distance_native(a: &BinaryID, b: &BinaryID) -> Option<u8> {
    let a = u128::from_le_bytes(*a.as_binary());
    let b = u128::from_le_bytes(*b.as_binary());
    let xor = a ^ b;
    let ret = 128 - xor.leading_zeros() as usize;
    if ret == 0 {
        None
    } else {
        Some((ret - 1) as u8)
    }
}

#[test]
fn test_buckets() {
    let root = generate(v4(192, 168, 0, 1, 666));
    let mut config = BucketConfig::default();
    config.node_evict_after = 5000;
    config.node_ttl = 60_000;
    let mut route_table = Tree::new(root, config);
    for i in 2..255 {
        let node = generate(v4(192, 168, 0, i, 666));
        match route_table.insert(node) {
            Ok(_) | Err(NodeInsertError::Full(_)) => {}
            _ => panic!("Node must be valid"),
        }
    }
    let res = route_table.insert(generate(v4(192, 168, 0, 1, 666))).expect_err("this should be an error");
    assert!(matches!(res, NodeInsertError::Invalid(_)));
}

#[test]
fn test_lru_base_5secs() {
    let t0 = 10_000_000;
    let mut config = BucketConfig::default();
    config.node_evict_after = 1000;
    config.node_ttl = 5000;
    let mut bucket = Bucket::new(config);

    let node1 = node_at(v4(192, 168, 1, 1, 8080), t0);
    let id_node1 = *node1.id().as_binary();
    let node1_copy = node_at(v4(192, 168, 1, 1, 8080), t0);
    match bucket.insert_at(node1, t0).expect("This should return an ok()") {
        NodeInsertOk::Inserted { .. } => {}
        _ => panic!(),
    }
    assert_eq!(bucket.pick::<K_BETA>().len(), 1);
    match bucket.insert_at(node1_copy, t0).expect("This should return an ok()") {
        NodeInsertOk::Updated { .. } => {}
        _ => panic!(),
    }
    assert_eq!(Some(&id_node1), bucket.peers().last().map(|n| n.id().as_binary()));

    let node2 = node_at(v4(192, 168, 1, 2, 8080), t0);
    let id_node2 = *node2.id().as_binary();
    match bucket.insert_at(node2, t0).expect("This should return an ok()") {
        NodeInsertOk::Inserted { inserted: _ } => {}
        _ => panic!(),
    }
    assert_eq!(bucket.pick::<K_BETA>().len(), 2);
    assert_eq!(Some(&id_node2), bucket.peers().last().map(|n| n.id().as_binary()));
    assert_eq!(Some(&id_node1), bucket.peers().first().map(|n| n.id().as_binary()));

    match bucket
        .insert_at(node_at(v4(192, 168, 1, 1, 8080), t0), t0)
        .expect("This should return an ok()")
    {
        NodeInsertOk::Updated { .. } => {}
        _ => panic!(),
    }
    assert_eq!(bucket.pick::<K_BETA>().len(), 2);
    assert_eq!(Some(&id_node1), bucket.peers().last().map(|n| n.id().as_binary()));
    assert_eq!(Some(&id_node2), bucket.peers().first().map(|n| n.id().as_binary()));
    let a = bucket.remove_id(&id_node2, t0);
    assert_eq!(&id_node2, a.unwrap().id().as_binary());
    assert_eq!(Some(&id_node1), bucket.peers().last().map(|n| n.id().as_binary()));
    assert_eq!(Some(&id_node1), bucket.peers().first().map(|n| n.id().as_binary()));
    for i in 2..21 {
        match bucket
            .insert_at(node_at(v4(192, 168, 1, i, 8080), t0), t0)
            .expect("This should return an ok()")
        {
            NodeInsertOk::Inserted { .. } => {
                assert!(bucket.pick::<K_BETA>().len() <= K_BETA);
            }
            _ => panic!(),
        }
    }
    assert_eq!(bucket.pick::<K_BETA>().len(), K_BETA);
    let pending = node_at(v4(192, 168, 1, 21, 8080), t0);
    let pending_id = *pending.id().as_binary();
    match bucket.insert_at(pending, t0).expect_err("this should be error") {
        NodeInsertError::Full(pending) => {
            assert_eq!(pending.id().as_binary(), &pending_id);
            // Five seconds later every node has outlived its TTL.
            let t1 = t0 + 5000;
            match bucket.insert_at(pending, t1).expect("this should be ok") {
                NodeInsertOk::Pending { pending_insert, pending_eviction: _ } => {
                    assert_eq!(pending_insert.id().as_binary(), &pending_id);
                    // One second later the flagged node can be evicted.
                    let t2 = t1 + 1000;
                    let pending = node_at(v4(192, 168, 1, 21, 8080), t2);
                    match bucket.insert_at(pending, t2).expect("this should be ok") {
                        NodeInsertOk::Inserted { inserted: _ } => {}
                        v => panic!("{:?}", v),
                    }
                }
                b => panic!("{:?}", b),
            }
        }
        _ => panic!(),
    }
}

#[test]
fn test_distance() {
    let n1 = generate(v4(192, 168, 0, 1, 666));
    let n2 = generate(v4(192, 168, 0, 1, 666));
    assert_eq!(n1.calculate_distance(&n2), None);
    assert_eq!(calculate_distance_native(n1.id(), n2.id()), None);
    for i in 2..255 {
        let n_in = generate(v4(192, 168, 0, i, 666));
        assert_eq!(n1.calculate_distance(&n_in), calculate_distance_native(n1.id(), n_in.id()));
    }
}

#[test]
fn test_id_nonce() {
    let root = generate(v4(192, 168, 0, 1, 666));
    println!("Nonce is {:?}", root.id().nonce());
    assert!(root.id().verify_nonce());
}

#[test]
fn key_test_difficulty() {
    let b: [u8; 2] = [0b11110000, 0];
    let rev: Vec<u8> = b.iter().rev().copied().collect();
    for d in 0..=12 {
        assert!(BinaryID::verify_difficulty(&rev, d));
    }
    assert!(!BinaryID::verify_difficulty(&rev, 13));
}

#[test]
fn msb_positions() {
    assert_eq!(BinaryID::msb(0), None);
    assert_eq!(BinaryID::msb(1), Some(1));
    assert_eq!(BinaryID::msb(0b1000_0000), Some(8));
    assert_eq!(BinaryID::msb(0b0001_0110), Some(5));
}

#[test]
fn distance_is_symmetric() {
    let a = generate(v4(10, 1, 2, 3, 1));
    let b = generate(v4(10, 1, 2, 4, 1));
    assert_eq!(a.calculate_distance(&b), b.calculate_distance(&a));
    assert!(a.calculate_distance(&b).unwrap() < 128);
}

#[test]
fn inserted_node_is_found() {
    let now = 5_000;
    let root = node_at(v4(192, 168, 0, 1, 666), now);
    let mut table = Tree::new(root, BucketConfig::default());
    let node = node_at(v4(192, 168, 0, 9, 666), now);
    let key = *node.id().as_binary();
    let h = table.root().calculate_distance(&node);
    assert!(table.has_peer(&key).is_none());
    match table.insert_at(node, now) {
        Ok(NodeInsertOk::Inserted { .. }) => {}
        _ => panic!(),
    }
    assert_eq!(table.has_peer(&key), h);
    let removed = table.remove_peer(&key, now).unwrap();
    assert_eq!(removed.id().as_binary(), &key);
    assert!(table.has_peer(&key).is_none());
}

#[test]
fn other_network_is_refused() {
    let now = 5_000;
    let root = node_at(v4(192, 168, 0, 1, 666), now);
    let mut table = Tree::new(root, BucketConfig::default());
    let other = generate(v4(192, 168, 0, 2, 666));
    let other = PeerNode::from_socket_at(v4(192, 168, 0, 2, 666), *other.id(), 7, now);
    assert!(matches!(table.insert_at(other, now), Err(NodeInsertError::MismatchNetwork(_))));
}

#[test]
fn closest_peers_are_sorted() {
    let now = 5_000;
    let root = node_at(v4(192, 168, 0, 1, 666), now);
    let mut table = Tree::new(root, BucketConfig::default());
    for i in 2..60 {
        let _ = table.insert_at(node_at(v4(10, 0, 0, i, 666), now), now);
    }
    let target = *generate(v4(172, 16, 0, 1, 666)).id().as_binary();
    let closest = table.closest_peers::<K_K>(&target);
    assert!(closest.len() <= K_K);
    let distances: Vec<_> = closest.iter().map(|n| n.id().calculate_distance(&target)).collect();
    for w in distances.windows(2) {
        assert!(w[0] <= w[1]);
    }
}

#[test]
fn idle_nodes_are_reported_and_removed() {
    let t0 = 1_000;
    let root = node_at(v4(192, 168, 0, 1, 666), t0);
    let mut config = BucketConfig::default();
    config.node_ttl = 100;
    let mut table = Tree::new(root, config);
    for i in 2..6 {
        let _ = table.insert_at(node_at(v4(10, 0, 0, i, 666), t0), t0);
    }
    assert_eq!(table.alive_nodes(t0).len(), 4);
    assert_eq!(table.idle_nodes(t0).len(), 0);
    assert_eq!(table.idle_nodes(t0 + 100).len(), 4);
    table.remove_idle_nodes(t0 + 100);
    assert_eq!(table.alive_nodes(t0 + 100).len(), 0);
    assert_eq!(table.all_sorted().iter().map(|(_, n)| n.len()).sum::<usize>(), 0);
}

#[test]
fn nodes_sit_at_their_distance() {
    let now = 7_000;
    let root = node_at(v4(192, 168, 0, 1, 666), now);
    let mut table = Tree::new(root, BucketConfig::default());
    for i in 2..120 {
        let _ = table.insert_at(node_at(v4(172, 16, i, 3, 666), now), now);
    }
    let root_id = *table.root().id();
    for (h, nodes) in table.all_sorted() {
        for n in nodes.iter() {
            assert_eq!(root_id.calculate_distance(n.id().as_binary()), Some(h));
        }
    }
}

#[test]
fn a_key_is_held_once() {
    let now = 7_000;
    let mut bucket = Bucket::new(BucketConfig::default());
    for _ in 0..3 {
        let _ = bucket.insert_at(node_at(v4(10, 0, 0, 1, 80), now), now);
        let _ = bucket.insert_at(node_at(v4(10, 0, 0, 2, 80), now), now);
    }
    assert_eq!(bucket.peers().len(), 2);
    assert!(bucket.has_node(node_at(v4(10, 0, 0, 1, 80), now).id().as_binary()));
}

#[test]
fn refresh_only_touches_known_nodes() {
    let root = generate(v4(192, 168, 0, 1, 666));
    let mut table = Tree::new(root, BucketConfig::default());
    let known = generate(v4(192, 168, 0, 2, 666));
    let key = *known.id().as_binary();
    assert!(matches!(table.refresh(generate(v4(192, 168, 0, 2, 666))), Ok(NodeInsertOk::NoAction)));
    assert!(table.has_peer(&key).is_none());
    assert!(matches!(table.insert(known), Ok(NodeInsertOk::Inserted { .. })));
    assert!(matches!(table.refresh(generate(v4(192, 168, 0, 2, 666))), Ok(NodeInsertOk::Updated { .. })));
    assert!(table.has_peer(&key).is_some());
}

#[test]
fn eviction_waits_for_the_check() {
    let t0 = 1_000_000;
    let mut config = BucketConfig::default();
    config.node_evict_after = 1000;
    config.node_ttl = 5000;
    let mut bucket = Bucket::new(config);
    for i in 1..=20 {
        let _ = bucket.insert_at(node_at(v4(10, 1, 1, i, 80), t0), t0);
    }
    let first = *bucket.peers()[0].id().as_binary();
    let t1 = t0 + 5000;
    match bucket.insert_at(node_at(v4(10, 1, 2, 1, 80), t1), t1) {
        Ok(NodeInsertOk::Pending { pending_eviction: Some(p), .. }) => assert_eq!(p.id().as_binary(), &first),
        v => panic!("{:?}", v),
    }
    // Not yet `node_evict_after` later: the flagged node stays.
    let waiting = node_at(v4(10, 1, 2, 2, 80), t1 + 500);
    let waiting_id = *waiting.id().as_binary();
    assert!(matches!(bucket.insert_at(waiting, t1 + 500), Ok(NodeInsertOk::Pending { .. })));
    assert!(bucket.has_node(&first));
    assert!(!bucket.has_node(&waiting_id));
    assert_eq!(bucket.peers().len(), 20);
    // Once it elapsed, the flagged node gives way to the pending one.
    let newcomer = node_at(v4(10, 1, 2, 3, 80), t1 + 1000);
    assert!(matches!(bucket.insert_at(newcomer, t1 + 1000), Ok(NodeInsertOk::Pending { .. })));
    assert!(!bucket.has_node(&first));
    assert!(bucket.has_node(&waiting_id));
    assert_eq!(bucket.peers().len(), 20);
}

#[test]
fn reinserted_pending_node_is_held_once() {
    let t0 = 10_000_000;
    let mut config = BucketConfig::default();
    config.node_evict_after = 1000;
    config.node_ttl = 5000;
    let mut bucket = Bucket::new(config);
    for i in 1..=K_K as u8 {
        assert!(matches!(bucket.insert_at(node_at(v4(10, 1, 0, i, 8080), t0), t0), Ok(NodeInsertOk::Inserted { .. })));
    }
    // Every node is dead: the least recently seen one is flagged and X waits.
    let t1 = t0 + 6000;
    let x = v4(10, 1, 0, 200, 8080);
    assert!(matches!(bucket.insert_at(node_at(x, t1), t1), Ok(NodeInsertOk::Pending { .. })));
    // X comes again once the flagged node may be evicted: the eviction moves
    // the waiting copy of X in, and that copy is refreshed rather than X
    // being held a second time.
    let t2 = t1 + 1500;
    match bucket.insert_at(node_at(x, t2), t2) {
        Ok(NodeInsertOk::Updated { updated, .. }) => {
            assert_eq!(updated.seen_at, t2);
            assert_eq!(updated.id().as_binary(), node_at(x, t2).id().as_binary());
        }
        _ => panic!("the moved-in copy is refreshed"),
    }
    let removed = *node_at(v4(10, 1, 0, 5, 8080), t0).id().as_binary();
    assert!(bucket.remove_id(&removed, t2).is_some());
    let keys: Vec<_> = bucket.peers().iter().map(|n| *n.id().as_binary()).collect();
    for (i, a) in keys.iter().enumerate() {
        for b in keys.iter().skip(i + 1) {
            assert_ne!(a, b);
        }
    }
    assert_eq!(keys.len(), K_K - 1);
}

#[test]
fn full_bucket_keeps_its_pending_node() {
    let t0 = 10_000_000;
    let mut config = BucketConfig::default();
    config.node_evict_after = 1000;
    config.node_ttl = 5000;
    let mut bucket = Bucket::new(config);
    for i in 1..=K_K as u8 {
        let _ = bucket.insert_at(node_at(v4(10, 2, 0, i, 8080), t0), t0);
    }
    let t1 = t0 + 6000;
    let x = v4(10, 2, 0, 200, 8080);
    assert!(matches!(bucket.insert_at(node_at(x, t1), t1), Ok(NodeInsertOk::Pending { .. })));
    // Every peer is seen again: the bucket is full of live peers.
    for i in 1..=K_K as u8 {
        assert!(matches!(bucket.insert_at(node_at(v4(10, 2, 0, i, 8080), t1), t1), Ok(NodeInsertOk::Updated { .. })));
    }
    // X is refused, and its waiting copy (seen at t1) stays pending.
    let t2 = t1 + 100;
    assert!(matches!(bucket.insert_at(node_at(x, t2), t2), Err(NodeInsertError::Full(_))));
    let removed = *node_at(v4(10, 2, 0, 3, 8080), t0).id().as_binary();
    assert!(bucket.remove_id(&removed, t2).is_some());
    let last = bucket.peers().last().unwrap();
    assert_eq!(last.id().as_binary(), node_at(x, t1).id().as_binary());
    assert_eq!(last.seen_at, t1);
}
