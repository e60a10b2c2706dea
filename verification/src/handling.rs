//! The decisions of the message handler: how the routing table follows the
//! incoming messages, and what is sent and delivered in answer.
use vstd::prelude::*;

use crate::config::Config;
use crate::encoding::message::zero_ray;
use crate::encoding::payload::broadcast::{BroadcastPayload, BroadcastView};
use crate::encoding::payload::nodes::{NodePayload, PeerEncodedInfo};
use crate::encoding::push_bytes;
use crate::kbucket::bucket::is_pick;
use crate::kbucket::key::spec_distance;
use crate::kbucket::{heights_up_to, lemma_heights_up_to, BinaryKey, BucketHeight, BUCKET_COUNT};
use crate::peer::{keys_equal, peer_info_view};
use crate::{K_BETA, K_K};
use crate::encoding::header::Header;
use crate::encoding::message::{Message, MessageView, Version};
use crate::kbucket::{InsertError, NodeInsertError, Tree};
use crate::peer::{spec_header_of, PeerInfo, PeerNode, SocketAddress};
use crate::transport::MessageBeanOut;
use crate::versioning::{parse_version, semver_req_matches, semver_req_valid, semver_version, version_req_matches};

verus! {

/// Metadata of a broadcast message delivered to the user.
#[derive(Debug)]
pub struct MessageInfo {
    pub src: SocketAddress,
    pub height: u8,
    pub ray: Vec<u8>,
}

impl MessageInfo {
    /// The address of the peer the message came from.
    pub fn src(&self) -> (r: SocketAddress)
        ensures
            r == self.src,
    {
        self.src
    }

    /// The Kadcast broadcast height of the message.
    pub fn height(&self) -> (r: u8)
        ensures
            r == self.height,
    {
        self.height
    }

    /// The ray id of the message (zeros when the transport sets none).
    pub fn ray(&self) -> (r: &[u8])
        ensures
            r@ == self.ray@,
    {
        self.ray.as_slice()
    }
}

/// The bean sends a message whose model is `m` to the peers `to`.
pub open spec fn bean_is(b: MessageBeanOut, m: MessageView, to: Seq<SocketAddress>) -> bool {
    b.0@ == m && b.1@ == to
}

/// The beans that ping the node pending eviction, if any.
pub open spec fn pings_for(p: Option<PeerNode>, ping: MessageView, out: Seq<MessageBeanOut>) -> bool {
    match p {
        Some(n) => out.len() == 1 && bean_is(out[0], ping, seq![n.value.address]),
        None => out.len() == 0,
    }
}

/// The version announced by a message; broadcasts carry none.
pub open spec fn version_of(m: Message) -> Option<Version> {
    match m {
        Message::Ping(_, v) => Some(v),
        Message::Pong(_, v) => Some(v),
        Message::FindNodes(_, v, _) => Some(v),
        Message::Nodes(_, v, _) => Some(v),
        Message::Broadcast(..) => None,
    }
}

/// Handles the incoming messages of a peer: its header and version, the
/// versions it accepts, and whether it answers a `Nodes` message with
/// `FindNodes` and propagates broadcasts.
pub struct MessageHandler {
    my_header: Header,
    my_version: Version,
    version_req: String,
    recursive_discovery: bool,
    auto_propagate: bool,
}

impl MessageHandler {
    /// The version requirement is one `semver` reads.
    #[verifier::type_invariant]
    spec fn req_readable(self) -> bool {
        semver_req_valid(self.version_req@)
    }

    /// The header of the local peer.
    pub closed spec fn header(&self) -> Header {
        self.my_header
    }

    /// The version the local peer announces.
    pub closed spec fn version(&self) -> Version {
        self.my_version
    }

    /// The accepted versions (a `semver` requirement).
    pub closed spec fn version_req(&self) -> Seq<char> {
        self.version_req@
    }

    /// Whether `Nodes` messages are answered with `FindNodes`.
    pub closed spec fn recursive_discovery(&self) -> bool {
        self.recursive_discovery
    }

    /// Whether broadcasts are propagated.
    pub closed spec fn auto_propagate(&self) -> bool {
        self.auto_propagate
    }

    /// The version the local peer announces.
    pub fn my_version(&self) -> (r: Version)
        ensures
            r == self.version(),
    {
        self.my_version
    }

    /// The `Ping` of the local peer.
    pub open spec fn ping_view(&self) -> MessageView {
        MessageView::Ping(self.header()@, self.version())
    }

    /// The handler of the peer whose node is `root`, configured by `config`;
    /// `None` when `semver` refuses the configured version or version
    /// requirement.
    pub fn new(root: &PeerNode, config: &Config) -> (r: Option<Self>)
        ensures
            r is Some == (semver_version(config.version@) is Some && semver_req_valid(
                config.version_match@,
            )),
            r matches Some(h) ==> {
                &&& h.header()@ == spec_header_of(*root)
                &&& Some(h.version()) == semver_version(config.version@)
                &&& h.version_req() == config.version_match@
                &&& h.recursive_discovery() == config.recursive_discovery
                &&& h.auto_propagate() == config.auto_propagate
            },
    {
        let my_version = match parse_version(config.version.as_str()) {
            Some(v) => v,
            None => return None,
        };
        if version_req_matches(config.version_match.as_str(), &my_version).is_none() {
            return None;
        }
        Some(
            MessageHandler {
                my_header: root.to_header(),
                my_version,
                version_req: config.version_match.clone(),
                recursive_discovery: config.recursive_discovery,
                auto_propagate: config.auto_propagate,
            },
        )
    }

    /// What `handle_peer` does: the table goes from `pre` to `post` and `r`
    /// is returned, for `msg` received at `now` from `remote`.
    pub open spec fn peer_update_is(
        &self,
        pre: Tree,
        post: Tree,
        remote: PeerNode,
        msg: Message,
        now: u64,
        r: Result<Vec<MessageBeanOut>, InsertError>,
    ) -> bool {
        match version_of(msg) {
            Some(v) => if !semver_req_matches(self.version_req(), v) {
                &&& r == Err::<Vec<MessageBeanOut>, InsertError>(
                    NodeInsertError::MismatchVersion(remote, v),
                )
                &&& post == pre
            } else {
                &&& Tree::update_effect(pre, post, remote, now, false)
                &&& match Tree::update_result(pre, remote, now, false) {
                    Err(e) => r == Err::<Vec<MessageBeanOut>, InsertError>(e),
                    Ok(p) => r matches Ok(out) && pings_for(p, self.ping_view(), out@),
                }
            },
            None => if pre.spec_has_peer(remote.id.key()) is None {
                &&& post == pre
                &&& r matches Ok(out) && pings_for(Some(remote), self.ping_view(), out@)
            } else {
                &&& Tree::update_effect(pre, post, remote, now, true)
                &&& match Tree::update_result(pre, remote, now, true) {
                    Err(e) => r == Err::<Vec<MessageBeanOut>, InsertError>(e),
                    Ok(p) => r matches Ok(out) && pings_for(p, self.ping_view(), out@),
                }
            },
        }
    }

    /// Law: when taking in (or refreshing) the sender leaves a node waiting
    /// for eviction, `handle_peer` answers with exactly one `Ping`, addressed
    /// to that node, so that a live peer can show it is alive before it is
    /// evicted; that node is the least recently seen of its bucket, flagged
    /// for eviction. When no node waits, nothing is sent. A broadcast from
    /// an unknown peer is answered with a `Ping` to that peer.
    pub proof fn lemma_pending_eviction_pinged(
        &self,
        pre: Tree,
        post: Tree,
        remote: PeerNode,
        msg: Message,
        now: u64,
        r: Result<Vec<MessageBeanOut>, InsertError>,
    )
        requires
            self.peer_update_is(pre, post, remote, msg, now, r),
        ensures
            ({
                let refresh = version_of(msg) is None;
                let taken = match version_of(msg) {
                    Some(v) => semver_req_matches(self.version_req(), v),
                    None => pre.spec_has_peer(remote.id.key()) is Some,
                };
                taken ==> match Tree::update_result(pre, remote, now, refresh) {
                    Ok(Some(p)) => {
                        &&& p.eviction_status is Requested
                        &&& r matches Ok(out)
                        &&& out@.len() == 1
                        &&& out@[0].0@ == MessageView::Ping(self.header()@, self.version())
                        &&& out@[0].1@ == seq![p.value.address]
                    },
                    Ok(None) => r matches Ok(out) && out@.len() == 0,
                    Err(e) => r == Err::<Vec<MessageBeanOut>, InsertError>(e),
                }
            }),
            // A broadcast from a peer the table does not know pings that peer,
            // and leaves the table as it was.
            version_of(msg) is None && pre.spec_has_peer(remote.id.key()) is None ==> {
                &&& post == pre
                &&& r matches Ok(out)
                &&& out@.len() == 1
                &&& out@[0].0@ == MessageView::Ping(self.header()@, self.version())
                &&& out@[0].1@ == seq![remote.value.address]
            },
    {
    }

    /// Updates the routing table for a message `msg` received at `now` from
    /// `remote`, and returns the pings to send. A message announcing a
    /// version outside the requirement is refused; other non-broadcast
    /// messages insert the sender. A broadcast from an unknown sender pings
    /// it; from a known one, refreshes it. The node waiting for eviction, if
    /// any, is pinged.
    pub fn handle_peer(&self, table: &mut Tree, remote: PeerNode, msg: &Message, now: u64) -> (r: Result<
        Vec<MessageBeanOut>,
        InsertError,
    >)
        requires
            old(table).wf(),
        ensures
            final(table).wf(),
            final(table).spec_root() == old(table).spec_root(),
            final(table).config() == old(table).config(),
            self.peer_update_is(*old(table), *final(table), remote, *msg, now, r),
    {
        proof {
            use_type_invariant(self);
        }
        let ghost pre = *table;
        let pending: Option<SocketAddress> = match msg.version() {
            Some(version) => {
                let accepted = match version_req_matches(self.version_req.as_str(), version) {
                    Some(b) => b,
                    None => false,
                };
                if !accepted {
                    return Err(NodeInsertError::MismatchVersion(remote, *version));
                }
                let result = table.insert_at(remote, now);
                let ghost res = result;
                let pending = match result {
                    Err(e) => return Err(e),
                    Ok(ok) => match ok.pending_eviction() {
                        Some(p) => Some(p.value.address),
                        None => None,
                    },
                };
                proof {
                    Tree::lemma_update_parts(pre, *table, res, remote, now, false);
                }
                pending
            },
            None => {
                if table.has_peer(remote.id().as_binary()).is_none() {
                    let mut out: Vec<MessageBeanOut> = Vec::new();
                    let mut to: Vec<SocketAddress> = Vec::new();
                    to.push(remote.value.address);
                    out.push((Message::Ping(self.my_header, self.my_version), to));
                    proof {
                        assert(out@[0].1@ =~= seq![remote.value.address]);
                    }
                    return Ok(out);
                }
                let result = table.refresh_at(remote, now);
                let ghost res = result;
                let pending = match result {
                    Err(e) => return Err(e),
                    Ok(ok) => match ok.pending_eviction() {
                        Some(p) => Some(p.value.address),
                        None => None,
                    },
                };
                proof {
                    Tree::lemma_update_parts(pre, *table, res, remote, now, true);
                }
                pending
            },
        };
        let mut out: Vec<MessageBeanOut> = Vec::new();
        if let Some(address) = pending {
            let mut to: Vec<SocketAddress> = Vec::new();
            to.push(address);
            out.push((Message::Ping(self.my_header, self.my_version), to));
            proof {
                assert(out@[0].1@ =~= seq![address]);
            }
        }
        Ok(out)
    }
}


/// A peer announced in a `Nodes` message is worth contacting: it is not the
/// local peer (key `my_key`), its bucket is not full, and it is not known yet.
pub open spec fn wants_peer(table: Tree, my_key: Seq<u8>, id: Seq<u8>) -> bool {
    &&& id != my_key
    &&& match spec_distance(my_key, id) {
        None => false,
        Some(h) => !(h < BUCKET_COUNT && table.buckets()[h as int] is Some && table.bucket_model(
            h as int,
        ).nodes.len() == K_K) && table.spec_has_peer(id) is None,
    }
}

/// The peers of a `Nodes` message that are worth contacting, in order.
pub open spec fn wanted_peers(table: Tree, my_key: Seq<u8>, peers: Seq<PeerEncodedInfo>) -> Seq<
    PeerEncodedInfo,
> {
    peers.filter(|p: PeerEncodedInfo| wants_peer(table, my_key, p.id@))
}

/// The socket address of a peer entry.
pub open spec fn entry_address(p: PeerEncodedInfo) -> SocketAddress {
    SocketAddress { ip: p.ip, port: p.port }
}

/// The bucket of height `h` exists and holds `K_K` nodes.
pub open spec fn full_at(table: Tree, h: BucketHeight) -> bool {
    h < BUCKET_COUNT && table.buckets()[h as int] is Some && table.bucket_model(h as int).nodes.len() == K_K
}

/// A listed peer that can be taken in: not the local peer, unknown to the
/// table, at a distance whose bucket is not full.
pub open spec fn can_join(table: Tree, my_key: Seq<u8>, id: Seq<u8>) -> bool {
    &&& id != my_key
    &&& table.spec_has_peer(id) is None
    &&& spec_distance(my_key, id) is Some
    &&& !full_at(table, spec_distance(my_key, id)->Some_0)
}

/// Law: the peers of a `Nodes` message that get an answer are listed
/// peers, other than the local one, that the table does not know and whose
/// bucket is not full (a bucket that exists and holds `K_K` nodes); and
/// every listed peer of that kind gets one.
pub proof fn lemma_wanted_peers_fit(table: Tree, my_key: Seq<u8>, peers: Seq<PeerEncodedInfo>)
    ensures
        forall|k: int|
            0 <= k < wanted_peers(table, my_key, peers).len() ==> peers.contains(
                #[trigger] wanted_peers(table, my_key, peers)[k],
            ) && can_join(table, my_key, wanted_peers(table, my_key, peers)[k].id@),
        forall|j: int|
            0 <= j < peers.len() && can_join(table, my_key, (#[trigger] peers[j]).id@) ==> wanted_peers(
                table,
                my_key,
                peers,
            ).contains(peers[j]),
{
    let pred = |p: PeerEncodedInfo| wants_peer(table, my_key, p.id@);
    broadcast use vstd::seq_lib::group_filter_ensures;
    let ws = wanted_peers(table, my_key, peers);
    assert forall|k: int| 0 <= k < ws.len() implies peers.contains(#[trigger] ws[k]) && can_join(
        table,
        my_key,
        ws[k].id@,
    ) by {
        assert(ws.contains(ws[k]));
        peers.lemma_filter_contains_rev(pred, ws[k]);
        assert(pred(ws[k]));
    }
    assert forall|j: int| 0 <= j < peers.len() && can_join(table, my_key, (#[trigger] peers[j]).id@) implies ws.contains(
        peers[j],
    ) by {
        assert(pred(peers[j]));
        assert(peers.contains(peers[j]));
    }
}

/// Taking one more entry and filtering adds it when wanted.
proof fn lemma_wanted_step(table: Tree, my_key: Seq<u8>, peers: Seq<PeerEncodedInfo>, j: int)
    requires
        0 <= j < peers.len(),
    ensures
        wanted_peers(table, my_key, peers.take(j + 1)) == if wants_peer(table, my_key, peers[j].id@) {
            wanted_peers(table, my_key, peers.take(j)).push(peers[j])
        } else {
            wanted_peers(table, my_key, peers.take(j))
        },
{
    reveal(Seq::filter);
    assert(peers.take(j + 1).drop_last() =~= peers.take(j));
}

/// The beans propagating a broadcast frame: one per extracted bucket, by
/// ascending height up to `max`, each a broadcast at the bucket's height
/// (zero ray) to at most `K_BETA` of the bucket's nodes picked at random.
pub open spec fn propagation_is(
    out: Seq<MessageBeanOut>,
    table: Tree,
    max: int,
    header: Header,
    frame: Seq<u8>,
) -> bool {
    let heights = heights_up_to(table.buckets(), BUCKET_COUNT as int, max);
    &&& out.len() == heights.len()
    &&& forall|k: int|
        0 <= k < out.len() ==> {
            &&& (#[trigger] out[k]).0@ == MessageView::Broadcast(
                header@,
                BroadcastView { height: heights[k], frame },
                zero_ray(),
            )
            &&& exists|pick: Seq<&PeerNode>|
                {
                    &&& is_pick(pick, table.bucket_model(heights[k] as int).nodes, K_BETA as nat)
                    &&& out[k].1@ == pick.map_values(|n: &PeerNode| n.value.address)
                }
        }
}

/// Law: a broadcast is forwarded only to existing buckets, once per bucket
/// and at that bucket's height, never above `max`; a broadcast received at
/// height `h` (forwarded with `max` = `h - 1`) thus goes on only at lower
/// heights, so its propagation ends.
pub proof fn lemma_propagation_descends(
    out: Seq<MessageBeanOut>,
    table: Tree,
    max: int,
    header: Header,
    frame: Seq<u8>,
)
    requires
        table.wf(),
        propagation_is(out, table, max, header, frame),
    ensures
        forall|k: int|
            0 <= k < out.len() ==> ((#[trigger] out[k]).0@ matches MessageView::Broadcast(_, b, _) && b.height
                <= max && table.buckets()[b.height as int] is Some),
        forall|a: int, b: int|
            0 <= a < b < out.len() ==> (#[trigger] out[a]).0@->Broadcast_1.height < (
            #[trigger] out[b]).0@->Broadcast_1.height,
{
    lemma_heights_up_to(table.buckets(), BUCKET_COUNT as int, max);
}

/// The beans sending `frame` to the picked nodes of each extracted bucket.
fn propagation(
    table: &Tree,
    max_h: Option<BucketHeight>,
    header: Header,
    frame: &Vec<u8>,
) -> (out: Vec<MessageBeanOut>)
    requires
        table.wf(),
    ensures
        propagation_is(
            out@,
            *table,
            match max_h {
                Some(m) => m as int,
                None => 255,
            },
            header,
            frame@,
        ),
{
    let extracted = table.extract(max_h);
    let ghost max = match max_h {
        Some(m) => m as int,
        None => 255,
    };
    let ghost heights = heights_up_to(table.buckets(), BUCKET_COUNT as int, max);
    let mut out: Vec<MessageBeanOut> = Vec::new();
    let mut k: usize = 0;
    while k < extracted.len()
        invariant
            k <= extracted@.len(),
            extracted@.len() == heights.len(),
            forall|t: int|
                0 <= t < extracted@.len() ==> #[trigger] extracted@[t].0 == heights[t] && is_pick(
                    extracted@[t].1@,
                    table.bucket_model(extracted@[t].0 as int).nodes,
                    K_BETA as nat,
                ),
            out@.len() == k,
            forall|t: int|
                0 <= t < k ==> {
                    &&& (#[trigger] out@[t]).0@ == MessageView::Broadcast(
                        header@,
                        BroadcastView { height: heights[t], frame: frame@ },
                        zero_ray(),
                    )
                    &&& exists|pick: Seq<&PeerNode>|
                        {
                            &&& is_pick(pick, table.bucket_model(heights[t] as int).nodes, K_BETA as nat)
                            &&& out@[t].1@ == pick.map_values(|n: &PeerNode| n.value.address)
                        }
                },
        decreases extracted@.len() - k,
    {
        let (height, nodes) = (extracted[k].0, &extracted[k].1);
        let mut targets: Vec<SocketAddress> = Vec::new();
        let mut j: usize = 0;
        while j < nodes.len()
            invariant
                j <= nodes@.len(),
                targets@ == nodes@.take(j as int).map_values(|n: &PeerNode| n.value.address),
            decreases nodes@.len() - j,
        {
            targets.push(nodes[j].value.address);
            assert(targets@ =~= nodes@.take(j + 1).map_values(|n: &PeerNode| n.value.address));
            j = j + 1;
        }
        assert(nodes@.take(nodes@.len() as int) =~= nodes@);
        let payload = BroadcastPayload { height, gossip_frame: frame.clone() };
        out.push((Message::broadcast(header, payload), targets));
        proof {
            assert(extracted@[k as int].0 == heights[k as int]);
            assert(out@[k as int].1@ == nodes@.map_values(|n: &PeerNode| n.value.address));
        }
        k = k + 1;
    }
    out
}

impl MessageHandler {
    /// The answer to a peer of a `Nodes` message: `FindNodes` for its key
    /// when the discovery is recursive, `Ping` otherwise.
    pub open spec fn reply_view(&self, id: Seq<u8>) -> MessageView {
        if self.recursive_discovery() {
            MessageView::FindNodes(self.header()@, self.version(), id)
        } else {
            self.ping_view()
        }
    }

    /// The answer to a peer of a `Nodes` message.
    fn nodes_reply(&self, id: BinaryKey) -> (r: Message)
        ensures
            r@ == self.reply_view(id@),
    {
        if self.recursive_discovery {
            Message::FindNodes(self.my_header, self.my_version, id)
        } else {
            Message::Ping(self.my_header, self.my_version)
        }
    }

    /// The answers to the peers of a `Nodes` message that are worth
    /// contacting.
    pub fn handle_nodes(&self, table: &Tree, nodes: &NodePayload) -> (out: Vec<MessageBeanOut>)
        requires
            table.wf(),
        ensures
            ({
                let ws = wanted_peers(*table, self.header().binary_id.key(), nodes.peers@);
                &&& out@.len() == ws.len()
                &&& forall|k: int|
                    0 <= k < out@.len() ==> bean_is(
                        #[trigger] out@[k],
                        self.reply_view(ws[k].id@),
                        seq![entry_address(ws[k])],
                    )
            }),
    {
        let ghost my_key = self.my_header.binary_id.key();
        let ghost peers = nodes.peers@;
        let mut out: Vec<MessageBeanOut> = Vec::new();
        let mut i: usize = 0;
        while i < nodes.peers.len()
            invariant
                i <= peers.len(),
                peers == nodes.peers@,
                table.wf(),
                my_key == self.header().binary_id.key(),
                out@.len() == wanted_peers(*table, my_key, peers.take(i as int)).len(),
                forall|k: int|
                    0 <= k < out@.len() ==> bean_is(
                        #[trigger] out@[k],
                        self.reply_view(wanted_peers(*table, my_key, peers.take(i as int))[k].id@),
                        seq![entry_address(wanted_peers(*table, my_key, peers.take(i as int))[k])],
                    ),
            decreases peers.len() - i,
        {
            let n = nodes.peers[i];
            proof {
                lemma_wanted_step(*table, my_key, peers, i as int);
            }
            let mut wanted = !keys_equal(&n.id, self.my_header.binary_id.as_binary());
            if wanted {
                wanted = match self.my_header.binary_id.calculate_distance(&n.id) {
                    None => false,
                    Some(h) => !table.is_bucket_full(h) && table.has_peer(&n.id).is_none(),
                };
            }
            assert(wanted == wants_peer(*table, my_key, n.id@));
            if wanted {
                let ghost prev = out@;
                let mut to: Vec<SocketAddress> = Vec::new();
                to.push(n.to_socket_address());
                out.push((self.nodes_reply(n.id), to));
                proof {
                    assert(out@[out@.len() - 1].1@ =~= seq![entry_address(n)]);
                    assert forall|k: int| 0 <= k < out@.len() implies bean_is(
                        #[trigger] out@[k],
                        self.reply_view(wanted_peers(*table, my_key, peers.take(i + 1))[k].id@),
                        seq![entry_address(wanted_peers(*table, my_key, peers.take(i + 1))[k])],
                    ) by {
                        if k < prev.len() {
                            assert(out@[k] == prev[k]);
                        }
                    }
                }
            }
            i = i + 1;
        }
        assert(peers.take(peers.len() as int) =~= peers);
        out
    }

    /// What `handle_message` returns for `message` received from `remote`,
    /// the table being `table`.
    pub open spec fn answer_is(
        &self,
        table: Tree,
        message: Message,
        remote: SocketAddress,
        r: (Vec<MessageBeanOut>, Option<(Vec<u8>, MessageInfo)>),
    ) -> bool {
        match message {
            Message::Ping(..) => r.1 is None && r.0@.len() == 1 && bean_is(
                r.0@[0],
                MessageView::Pong(self.header()@, self.version()),
                seq![remote],
            ),
            Message::Pong(..) => r.1 is None && r.0@.len() == 0,
            Message::FindNodes(_, _, target) => {
                &&& r.1 is None
                &&& r.0@.len() == 1
                &&& r.0@[0].1@ == seq![remote]
                &&& exists|c: Seq<&PeerNode>|
                    {
                        &&& table.is_closest(c, target@, K_K as nat)
                        &&& r.0@[0].0@ == MessageView::Nodes(
                            self.header()@,
                            self.version(),
                            c.map_values(|n: &PeerNode| peer_info_view(*n)),
                        )
                    }
            },
            Message::Nodes(_, _, nodes) => {
                let ws = wanted_peers(table, self.header().binary_id.key(), nodes.peers@);
                &&& r.1 is None
                &&& r.0@.len() == ws.len()
                &&& forall|k: int|
                    0 <= k < r.0@.len() ==> bean_is(
                        #[trigger] r.0@[k],
                        self.reply_view(ws[k].id@),
                        seq![entry_address(ws[k])],
                    )
            },
            Message::Broadcast(_, payload, ray) => {
                &&& r.1 matches Some((frame, info)) && frame@ == payload.gossip_frame@ && info.src
                    == remote && info.height == payload.height && info.ray@ == ray@
                &&& if self.auto_propagate() && payload.height > 0 {
                    propagation_is(
                        r.0@,
                        table,
                        payload.height - 1,
                        self.header(),
                        payload.gossip_frame@,
                    )
                } else {
                    r.0@.len() == 0
                }
            },
        }
    }

    /// What a message received from `remote` is answered with, and the
    /// broadcast delivered to the user, if any: a `Ping` gets a `Pong`, a
    /// `FindNodes` the closest peers to its target in a `Nodes`, a `Nodes`
    /// message the answers of `handle_nodes`. A broadcast is delivered with
    /// its sender, height and ray, and, when propagation is on and its
    /// height is above zero, forwarded to the buckets below its height.
    pub fn handle_message(&self, table: &Tree, message: Message, remote: SocketAddress) -> (r: (
        Vec<MessageBeanOut>,
        Option<(Vec<u8>, MessageInfo)>,
    ))
        requires
            table.wf(),
        ensures
            self.answer_is(*table, message, remote, r),
    {
        match message {
            Message::Ping(..) => (self.handle_ping(remote), None),
            Message::Pong(..) => (Vec::new(), None),
            Message::FindNodes(_, _, target) => (self.handle_find_nodes(table, remote, &target), None),
            Message::Nodes(_, _, nodes) => (self.handle_nodes(table, &nodes), None),
            Message::Broadcast(_, payload, ray) => {
                let (out, delivered) = self.handle_broadcast(table, remote, payload, &ray);
                (out, Some(delivered))
            },
        }
    }

    /// The answer to a `Ping` from `remote`: a `Pong` back to it.
    pub fn handle_ping(&self, remote: SocketAddress) -> (r: Vec<MessageBeanOut>)
        ensures
            r@.len() == 1,
            bean_is(r@[0], MessageView::Pong(self.header()@, self.version()), seq![remote]),
    {
        let mut out: Vec<MessageBeanOut> = Vec::new();
        let mut to: Vec<SocketAddress> = Vec::new();
        to.push(remote);
        out.push((Message::Pong(self.my_header, self.my_version), to));
        assert(out@[0].1@ =~= seq![remote]);
        out
    }

    /// The answer to a `FindNodes` from `remote`: the `K_K` peers of the
    /// table closest to `target`, in a `Nodes` message back to it.
    pub fn handle_find_nodes(&self, table: &Tree, remote: SocketAddress, target: &BinaryKey) -> (r: Vec<
        MessageBeanOut,
    >)
        requires
            table.wf(),
        ensures
            r@.len() == 1,
            r@[0].1@ == seq![remote],
            exists|c: Seq<&PeerNode>|
                {
                    &&& table.is_closest(c, target@, K_K as nat)
                    &&& r@[0].0@ == MessageView::Nodes(
                        self.header()@,
                        self.version(),
                        c.map_values(|n: &PeerNode| peer_info_view(*n)),
                    )
                },
    {
        let closest = table.closest_peers::<K_K>(target);
        let mut peers: Vec<PeerEncodedInfo> = Vec::new();
        let mut j: usize = 0;
        while j < closest.len()
            invariant
                j <= closest@.len(),
                peers@.map_values(|p: PeerEncodedInfo| p@) == closest@.take(j as int).map_values(
                    |n: &PeerNode| peer_info_view(*n),
                ),
            decreases closest@.len() - j,
        {
            let info = closest[j].as_peer_info();
            let ghost prev = peers@;
            peers.push(info);
            assert(peers@.map_values(|p: PeerEncodedInfo| p@) =~= prev.map_values(|p: PeerEncodedInfo| p@).push(
                info@,
            ));
            assert(closest@.take(j + 1).map_values(|n: &PeerNode| peer_info_view(*n)) =~= closest@.take(
                j as int,
            ).map_values(|n: &PeerNode| peer_info_view(*n)).push(peer_info_view(*closest@[j as int])));
            assert(peers@.map_values(|p: PeerEncodedInfo| p@) =~= closest@.take(j + 1).map_values(
                |n: &PeerNode| peer_info_view(*n),
            ));
            j = j + 1;
        }
        assert(closest@.take(closest@.len() as int) =~= closest@);
        let mut out: Vec<MessageBeanOut> = Vec::new();
        let mut to: Vec<SocketAddress> = Vec::new();
        to.push(remote);
        out.push((Message::Nodes(self.my_header, self.my_version, NodePayload { peers }), to));
        assert(out@[0].1@ =~= seq![remote]);
        out
    }

    /// A broadcast from `remote`: its frame is delivered with the sender,
    /// height and ray, and, when propagation is on and its height is above
    /// zero, forwarded to the buckets below its height (see `propagation`).
    pub fn handle_broadcast(
        &self,
        table: &Tree,
        remote: SocketAddress,
        payload: BroadcastPayload,
        ray: &[u8; 32],
    ) -> (r: (Vec<MessageBeanOut>, (Vec<u8>, MessageInfo)))
        requires
            table.wf(),
        ensures
            r.1.0@ == payload.gossip_frame@,
            r.1.1.src == remote,
            r.1.1.height == payload.height,
            r.1.1.ray@ == ray@,
            if self.auto_propagate() && payload.height > 0 {
                propagation_is(r.0@, *table, payload.height - 1, self.header(), payload.gossip_frame@)
            } else {
                r.0@.len() == 0
            },
    {
        let out = if self.auto_propagate && payload.height > 0 {
            propagation(table, Some(payload.height - 1), self.my_header, &payload.gossip_frame)
        } else {
            Vec::new()
        };
        let info = MessageInfo { src: remote, height: payload.height, ray: ray_to_vec(ray) };
        (out, (payload.gossip_frame, info))
    }
}

/// The bytes of a ray id.
fn ray_to_vec(ray: &[u8; 32]) -> (r: Vec<u8>)
    ensures
        r@ == ray@,
{
    let mut r: Vec<u8> = Vec::new();
    push_bytes(&mut r, ray.as_slice());
    r
}

impl MessageHandler {
    /// The pings of a `handle_peer` result (none for an error).
    pub open spec fn pings_of(r: Result<Vec<MessageBeanOut>, InsertError>) -> Seq<MessageBeanOut> {
        match r {
            Ok(out) => out@,
            Err(_) => Seq::empty(),
        }
    }

    /// Handles `message` received at `now` from `remote`: the sender's port
    /// is the one its header announces; the routing table is updated (see
    /// `handle_peer`), then, unless the sender was refused for another reason
    /// than a full bucket, the message is answered (see `handle_message`).
    /// Returns the pings followed by the answers, and the broadcast to
    /// deliver, if any.
    pub fn handle_incoming(&self, table: &mut Tree, message: Message, remote: SocketAddress, now: u64) -> (r: (
        Vec<MessageBeanOut>,
        Option<(Vec<u8>, MessageInfo)>,
    ))
        requires
            old(table).wf(),
        ensures
            final(table).wf(),
            final(table).spec_root() == old(table).spec_root(),
            final(table).config() == old(table).config(),
            ({
                let header = message.header_spec();
                let addr = SocketAddress { ip: remote.ip, port: header.sender_port };
                let node = PeerNode::new_spec(
                    header.binary_id,
                    PeerInfo { address: addr },
                    header.network_id,
                    now,
                );
                exists|pr: Result<Vec<MessageBeanOut>, InsertError>|
                    {
                        &&& self.peer_update_is(*old(table), *final(table), node, message, now, pr)
                        &&& if pr is Ok || pr matches Err(NodeInsertError::Full(_)) {
                            exists|ar: (Vec<MessageBeanOut>, Option<(Vec<u8>, MessageInfo)>)|
                                {
                                    &&& self.answer_is(*final(table), message, addr, ar)
                                    &&& r.0@ == Self::pings_of(pr) + ar.0@
                                    &&& r.1 == ar.1
                                }
                        } else {
                            r.0@.len() == 0 && r.1 is None
                        }
                    }
            }),
    {
        let header = *message.header();
        let addr = SocketAddress { ip: remote.ip, port: header.sender_port };
        let node = PeerNode::from_socket_at(addr, header.binary_id, header.network_id, now);
        let pr = self.handle_peer(table, node, &message, now);
        let mut out: Vec<MessageBeanOut> = match pr {
            Ok(pings) => pings,
            Err(NodeInsertError::Full(_)) => Vec::new(),
            Err(_) => return (Vec::new(), None),
        };
        let (mut answers, delivered) = self.handle_message(table, message, addr);
        let ghost a0 = answers@;
        let ghost o0 = out@;
        out.append(&mut answers);
        assert(out@ == o0 + a0);
        (out, delivered)
    }
}

/// The beans broadcasting `message` from the peer with header `header`: for
/// each bucket up to `height` (all when `None`), a broadcast at the bucket's
/// height to at most `K_BETA` of its nodes picked at random. Nothing is sent
/// for an empty message.
pub fn broadcast_messages(table: &Tree, header: Header, message: &[u8], height: Option<usize>) -> (r: Vec<
    MessageBeanOut,
>)
    requires
        table.wf(),
    ensures
        message@.len() == 0 ==> r@.len() == 0,
        message@.len() > 0 ==> propagation_is(
            r@,
            *table,
            match height {
                Some(h) => if h < 255 {
                    h as int
                } else {
                    255
                },
                None => 255,
            },
            header,
            message@,
        ),
{
    if message.len() == 0 {
        return Vec::new();
    }
    let max_h: Option<BucketHeight> = match height {
        Some(h) => if h < 255 {
            Some(h as u8)
        } else {
            None
        },
        None => None,
    };
    let mut frame: Vec<u8> = Vec::new();
    push_bytes(&mut frame, message);
    assert(frame@ =~= message@);
    propagation(table, max_h, header, &frame)
}

/// The bean sending `message` to `target` from the peer with header
/// `header`: a broadcast at height 0, so that the receiver does not
/// propagate it. Nothing is sent for an empty message.
pub fn send_message(header: Header, message: &[u8], target: SocketAddress) -> (r: Option<MessageBeanOut>)
    ensures
        message@.len() == 0 ==> r is None,
        message@.len() > 0 ==> (r matches Some(b) && bean_is(
            b,
            MessageView::Broadcast(header@, BroadcastView { height: 0, frame: message@ }, zero_ray()),
            seq![target],
        )),
{
    if message.len() == 0 {
        return None;
    }
    let mut frame: Vec<u8> = Vec::new();
    push_bytes(&mut frame, message);
    assert(frame@ =~= message@);
    let mut to: Vec<SocketAddress> = Vec::new();
    to.push(target);
    assert(to@ =~= seq![target]);
    Some((Message::broadcast(header, BroadcastPayload { height: 0, gossip_frame: frame }), to))
}

} // verus!
