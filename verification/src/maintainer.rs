//! The decisions of the routing-table maintenance: when to contact the
//! bootstrapping nodes, which nodes to ask for new peers, which to ping.
use vstd::prelude::*;

use crate::encoding::header::Header;
use crate::encoding::message::{Message, MessageView, Version};
use crate::handling::bean_is;
use crate::kbucket::bucket::{is_pick, liveness_filter};
use crate::kbucket::{idle_heights, Tree, BUCKET_COUNT};
use crate::peer::{spec_header_of, PeerNode, SocketAddress};
use crate::transport::MessageBeanOut;
use crate::K_ALPHA;

verus! {

/// Two socket addresses are the same: same IP octets and port.
pub open spec fn same_address(a: SocketAddress, b: SocketAddress) -> bool {
    a.ip@ == b.ip@ && a.port == b.port
}

/// Whether two socket addresses are the same.
pub fn addresses_equal(a: &SocketAddress, b: &SocketAddress) -> (r: bool)
    ensures
        r == same_address(*a, *b),
{
    if a.port != b.port {
        return false;
    }
    match (&a.ip, &b.ip) {
        (crate::encoding::payload::IpInfo::IPv4(x), crate::encoding::payload::IpInfo::IPv4(y)) => {
            let same = crate::encoding::bytes_equal(x.as_slice(), y.as_slice());
            assert(same == (x@ == y@));
            same
        },
        (crate::encoding::payload::IpInfo::IPv6(x), crate::encoding::payload::IpInfo::IPv6(y)) => {
            let same = crate::encoding::bytes_equal(x.as_slice(), y.as_slice());
            assert(same == (x@ == y@));
            same
        },
        _ => false,
    }
}

/// The resolved addresses that are not the local peer's, in order.
pub open spec fn others_than(addrs: Seq<SocketAddress>, me: SocketAddress) -> Seq<SocketAddress> {
    addrs.filter(|a: SocketAddress| !same_address(a, me))
}

/// The targets of the `FindNodes` sent to idle buckets: the picked nodes of
/// each idle bucket, by ascending height.
pub open spec fn idle_targets_are(targets: Seq<PeerNode>, table: Tree, now: u64) -> bool {
    let heights = idle_heights(table.buckets(), BUCKET_COUNT as int, table.config(), now);
    exists|picks: Seq<Seq<&PeerNode>>|
        {
            &&& picks.len() == heights.len()
            &&& forall|k: int|
                0 <= k < picks.len() ==> is_pick(
                    #[trigger] picks[k],
                    table.bucket_model(heights[k] as int).nodes,
                    K_ALPHA as nat,
                )
            &&& targets == picks.map_values(|p: Seq<&PeerNode>| p.map_values(|n: &PeerNode| *n)).flatten()
        }
}

/// Keeps the routing table of a peer populated: contacts the bootstrapping
/// nodes while too few peers are alive, asks the nodes of idle buckets for
/// new peers, pings and removes idle nodes.
pub struct TableMaintainer {
    bootstrapping_nodes: Vec<String>,
    my_ip: SocketAddress,
    header: Header,
    version: Version,
}

impl TableMaintainer {
    /// The address of the local peer.
    pub closed spec fn my_ip(&self) -> SocketAddress {
        self.my_ip
    }

    /// The header of the local peer.
    pub closed spec fn header(&self) -> Header {
        self.header
    }

    /// The version the local peer announces.
    pub closed spec fn version(&self) -> Version {
        self.version
    }

    /// The configured bootstrapping nodes (domain names allowed).
    pub closed spec fn bootstrappers(&self) -> Seq<String> {
        self.bootstrapping_nodes@
    }

    /// The maintainer of the peer whose node is `root`.
    pub fn new(bootstrapping_nodes: Vec<String>, root: &PeerNode, version: Version) -> (r: Self)
        ensures
            r.my_ip() == root.value.address,
            r.header()@ == spec_header_of(*root),
            r.version() == version,
            r.bootstrappers() == bootstrapping_nodes@,
    {
        TableMaintainer { bootstrapping_nodes, my_ip: root.value.address, header: root.to_header(), version }
    }

    /// The configured bootstrapping nodes, to be resolved.
    pub fn bootstrapping_nodes(&self) -> (r: &[String])
        ensures
            r@ == self.bootstrappers(),
    {
        self.bootstrapping_nodes.as_slice()
    }

    /// Whether the peer needs the bootstrappers to join the network: fewer
    /// than `min_peers` nodes of the table are alive at `now`.
    pub fn need_bootstrappers(table: &Tree, min_peers: usize, now: u64) -> (r: bool)
        requires
            table.wf(),
        ensures
            r == (liveness_filter(table.all_nodes(), now, table.config().node_ttl, true).len() < min_peers),
    {
        let alive = table.alive_nodes(now);
        proof {
            assert(alive@.map_values(|x: &PeerNode| *x).len() == alive@.len());
        }
        alive.len() < min_peers
    }

    /// The resolved addresses of the bootstrapping nodes, the local peer's
    /// own address left out.
    pub fn bootstrapping_nodes_addr(&self, resolved: &[SocketAddress]) -> (r: Vec<SocketAddress>)
        ensures
            r@ == others_than(resolved@, self.my_ip()),
    {
        let ghost s = resolved@;
        let mut r: Vec<SocketAddress> = Vec::new();
        let mut i: usize = 0;
        while i < resolved.len()
            invariant
                i <= s.len(),
                s == resolved@,
                r@ == others_than(s.take(i as int), self.my_ip()),
            decreases s.len() - i,
        {
            proof {
                reveal(Seq::filter);
                assert(s.take(i + 1).drop_last() =~= s.take(i as int));
            }
            if !addresses_equal(&resolved[i], &self.my_ip) {
                r.push(resolved[i]);
            }
            i = i + 1;
        }
        assert(s.take(s.len() as int) =~= s);
        r
    }

    /// The `FindNodes` for the local peer's own key, sent to `targets` (the
    /// bootstrapping nodes).
    pub fn bootstrap_message(&self, targets: Vec<SocketAddress>) -> (r: MessageBeanOut)
        ensures
            bean_is(
                r,
                MessageView::FindNodes(self.header()@, self.version(), self.header().binary_id.key()),
                targets@,
            ),
    {
        (Message::FindNodes(self.header, self.version, *self.header.binary_id.as_binary()), targets)
    }

    /// The `FindNodes` sent to the picked nodes of every idle bucket at
    /// `now`, each for the key of the node it goes to.
    pub fn find_new_nodes(&self, table: &Tree, now: u64) -> (r: Vec<MessageBeanOut>)
        requires
            table.wf(),
        ensures
            exists|targets: Seq<PeerNode>|
                {
                    &&& idle_targets_are(targets, *table, now)
                    &&& r@.len() == targets.len()
                    &&& forall|i: int|
                        0 <= i < r@.len() ==> bean_is(
                            #[trigger] r@[i],
                            MessageView::FindNodes(self.header()@, self.version(), targets[i].id.key()),
                            seq![targets[i].value.address],
                        )
                },
    {
        let idle = table.idle_buckets(now);
        let ghost heights = idle_heights(table.buckets(), BUCKET_COUNT as int, table.config(), now);
        let ghost picks: Seq<Seq<&PeerNode>> = idle@.map_values(|e: (u8, Vec<&PeerNode>)| e.1@);
        let ghost deref = |p: Seq<&PeerNode>| p.map_values(|n: &PeerNode| *n);
        let mut r: Vec<MessageBeanOut> = Vec::new();
        let mut k: usize = 0;
        while k < idle.len()
            invariant
                k <= idle@.len(),
                picks == idle@.map_values(|e: (u8, Vec<&PeerNode>)| e.1@),
                deref == (|p: Seq<&PeerNode>| p.map_values(|n: &PeerNode| *n)),
                r@.len() == picks.take(k as int).map_values(deref).flatten().len(),
                forall|i: int|
                    0 <= i < r@.len() ==> bean_is(
                        #[trigger] r@[i],
                        MessageView::FindNodes(
                            self.header()@,
                            self.version(),
                            picks.take(k as int).map_values(deref).flatten()[i].id.key(),
                        ),
                        seq![picks.take(k as int).map_values(deref).flatten()[i].value.address],
                    ),
            decreases idle@.len() - k,
        {
            let nodes = &idle[k].1;
            let ghost base = r@;
            let ghost done = picks.take(k as int).map_values(deref).flatten();
            let mut j: usize = 0;
            while j < nodes.len()
                invariant
                    j <= nodes@.len(),
                    base.len() == done.len(),
                    r@.len() == base.len() + j,
                    forall|i: int| 0 <= i < base.len() ==> r@[i] == base[i],
                    forall|i: int|
                        base.len() <= i < r@.len() ==> bean_is(
                            #[trigger] r@[i],
                            MessageView::FindNodes(
                                self.header()@,
                                self.version(),
                                nodes@[i - base.len()].id.key(),
                            ),
                            seq![nodes@[i - base.len()].value.address],
                        ),
                decreases nodes@.len() - j,
            {
                let target = nodes[j];
                let mut to: Vec<SocketAddress> = Vec::new();
                to.push(target.value.address);
                r.push((Message::FindNodes(self.header, self.version, *target.id().as_binary()), to));
                assert(r@[r@.len() - 1].1@ =~= seq![target.value.address]);
                j = j + 1;
            }
            proof {
                assert(picks.take(k + 1) =~= picks.take(k as int).push(nodes@));
                assert(picks.take(k + 1).map_values(deref) =~= picks.take(k as int).map_values(deref).push(
                    deref(nodes@),
                ));
                picks.take(k as int).map_values(deref).lemma_flatten_push(deref(nodes@));
                let all = picks.take(k + 1).map_values(deref).flatten();
                assert(all =~= done + deref(nodes@));
                assert forall|i: int| 0 <= i < r@.len() implies bean_is(
                    #[trigger] r@[i],
                    MessageView::FindNodes(self.header()@, self.version(), all[i].id.key()),
                    seq![all[i].value.address],
                ) by {
                    if i < base.len() {
                        assert(r@[i] == base[i]);
                    }
                }
            }
            k = k + 1;
        }
        proof {
            assert(picks.take(idle@.len() as int) =~= picks);
            let targets = picks.map_values(deref).flatten();
            assert(picks.map_values(|p: Seq<&PeerNode>| p.map_values(|n: &PeerNode| *n)) =~= picks.map_values(deref));
            assert forall|t: int| 0 <= t < picks.len() implies is_pick(
                #[trigger] picks[t],
                table.bucket_model(heights[t] as int).nodes,
                K_ALPHA as nat,
            ) by {
                assert(idle@[t].0 == heights[t]);
            }
            assert(idle_targets_are(targets, *table, now));
        }
        r
    }

    /// Pings the nodes not alive at `now`, then removes them from the
    /// table.
    pub fn ping_and_remove_idles(&self, table: &mut Tree, now: u64) -> (r: MessageBeanOut)
        requires
            old(table).wf(),
        ensures
            final(table).wf(),
            final(table).spec_root() == old(table).spec_root(),
            final(table).config() == old(table).config(),
            final(table).buckets().len() == old(table).buckets().len(),
            r.0@ == MessageView::Ping(self.header()@, self.version()),
            r.1@ == liveness_filter(old(table).all_nodes(), now, old(table).config().node_ttl, false).map_values(
                |n: PeerNode| n.value.address,
            ),
    {
        let idles = table.idle_nodes(now);
        let ghost nodes = liveness_filter(table.all_nodes(), now, table.config().node_ttl, false);
        let mut to: Vec<SocketAddress> = Vec::new();
        let mut i: usize = 0;
        while i < idles.len()
            invariant
                i <= idles@.len(),
                idles@.map_values(|x: &PeerNode| *x) == nodes,
                to@ == nodes.take(i as int).map_values(|n: PeerNode| n.value.address),
            decreases idles@.len() - i,
        {
            assert(idles@.map_values(|x: &PeerNode| *x)[i as int] == *idles@[i as int]);
            to.push(idles[i].value.address);
            assert(to@ =~= nodes.take(i + 1).map_values(|n: PeerNode| n.value.address));
            i = i + 1;
        }
        assert(nodes.take(nodes.len() as int) =~= nodes);
        let msg = Message::Ping(self.header, self.version);
        table.remove_idle_nodes(now);
        (msg, to)
    }
}

} // verus!
