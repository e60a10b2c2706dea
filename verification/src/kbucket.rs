//! Kademlia routing table: identifiers, nodes, buckets and the tree of buckets.
use vstd::prelude::*;

pub mod bucket;
pub mod key;
pub mod node;

pub use bucket::{Bucket, InsertError, InsertOk, NodeInsertError, NodeInsertOk};
pub use key::{BinaryID, BinaryKey, BinaryNonce};
pub use node::{Node, NodeEvictionStatus};

use bucket::{
    insert_result_is, is_pick, liveness_filter, pending_of, ref_opt_is, spec_insert, spec_insert_pending,
    spec_pending_eviction, spec_refresh, BucketModel, InsertOutcome, find_key, has_key, keys_satisfy, keys_unique, lemma_evict_keeps_last, lemma_find_key, lemma_insert_keeps_keys, lemma_removal_keeps_keys, spec_refresh_node,
};
use key::spec_distance;
use node::spec_is_alive;
use crate::clock::{elapsed, now_millis};
use crate::config::BucketConfig;
use crate::peer::PeerNode;
use crate::{K_ALPHA, K_BETA, K_ID_LEN_BYTES, K_K};

verus! {

/// Index of a bucket: the XOR distance class of a peer.
pub type BucketHeight = u8;

/// Number of buckets: one per bit of a key.
pub const BUCKET_COUNT: usize = 128;

/// The model of an optional bucket: an absent bucket holds nothing.
pub open spec fn slot_model(o: Option<Bucket>) -> BucketModel {
    match o {
        Some(b) => b.model(),
        None => BucketModel { nodes: Seq::empty(), pending: None },
    }
}

/// The nodes of the buckets, bucket after bucket.
pub open spec fn flat_nodes(bs: Seq<Option<Bucket>>) -> Seq<PeerNode>
    decreases bs.len(),
{
    if bs.len() == 0 {
        Seq::empty()
    } else {
        flat_nodes(bs.drop_last()) + slot_model(bs.last()).nodes
    }
}

/// An existing bucket is well formed and carries the table's configuration.
pub open spec fn slot_ok(o: Option<Bucket>, cfg: BucketConfig) -> bool {
    match o {
        Some(b) => b.wf() && b.config() == cfg,
        None => true,
    }
}

/// Heights (ascending) of the existing buckets among the first `n`, up to
/// `max`.
pub open spec fn heights_up_to(bs: Seq<Option<Bucket>>, n: int, max: int) -> Seq<BucketHeight>
    decreases n,
{
    if n <= 0 {
        Seq::empty()
    } else if bs[n - 1] is Some && n - 1 <= max {
        heights_up_to(bs, n - 1, max).push((n - 1) as BucketHeight)
    } else {
        heights_up_to(bs, n - 1, max)
    }
}

/// Law: extracting up to `max` keeps every existing bucket whose height is
/// at most `max`, `max` included: each such height is among the extracted
/// ones (so `extract(Some(h))` reaches the bucket of height `h` itself).
pub proof fn lemma_extract_reaches_every_bucket(bs: Seq<Option<Bucket>>, n: int, max: int)
    requires
        0 <= n <= bs.len(),
    ensures
        forall|g: int|
            0 <= g < n && #[trigger] bs[g] is Some && g <= max ==> heights_up_to(bs, n, max).contains(
                g as BucketHeight,
            ),
    decreases n,
{
    if n > 0 {
        lemma_extract_reaches_every_bucket(bs, n - 1, max);
        let prev = heights_up_to(bs, n - 1, max);
        let cur = heights_up_to(bs, n, max);
        assert forall|g: int| 0 <= g < n && #[trigger] bs[g] is Some && g <= max implies cur.contains(
            g as BucketHeight,
        ) by {
            if g < n - 1 {
                let k = choose|k: int| 0 <= k < prev.len() && prev[k] == g as BucketHeight;
                if bs[n - 1] is Some && n - 1 <= max {
                    assert(cur[k] == prev[k]);
                }
            } else {
                assert(cur[cur.len() - 1] == (n - 1) as BucketHeight);
            }
        }
    }
}

/// The heights up to `max` among the first `n` buckets are those of existing
/// buckets, at most `max`, strictly increasing.
pub proof fn lemma_heights_up_to(bs: Seq<Option<Bucket>>, n: int, max: int)
    requires
        0 <= n <= 256,
        n <= bs.len(),
    ensures
        forall|k: int|
            0 <= k < heights_up_to(bs, n, max).len() ==> {
                let h = #[trigger] heights_up_to(bs, n, max)[k];
                &&& h <= max
                &&& h < n
                &&& bs[h as int] is Some
            },
        forall|a: int, b: int|
            0 <= a < b < heights_up_to(bs, n, max).len() ==> #[trigger] heights_up_to(bs, n, max)[a]
                < #[trigger] heights_up_to(bs, n, max)[b],
    decreases n,
{
    if n > 0 {
        lemma_heights_up_to(bs, n - 1, max);
    }
}

/// The bucket has a least recently seen node older than `bucket_ttl`.
pub open spec fn spec_has_idle(m: BucketModel, cfg: BucketConfig, now: u64) -> bool {
    m.nodes.len() > 0 && elapsed(now, m.nodes[0].seen_at) > cfg.bucket_ttl
}

/// Heights (ascending) of the existing buckets among the first `n` that
/// have an idle node at `now`.
pub open spec fn idle_heights(bs: Seq<Option<Bucket>>, n: int, cfg: BucketConfig, now: u64) -> Seq<
    BucketHeight,
>
    decreases n,
{
    if n <= 0 {
        Seq::empty()
    } else if bs[n - 1] is Some && spec_has_idle(slot_model(bs[n - 1]), cfg, now) {
        idle_heights(bs, n - 1, cfg, now).push((n - 1) as BucketHeight)
    } else {
        idle_heights(bs, n - 1, cfg, now)
    }
}

/// Heights (ascending) among the first `n` whose bucket is absent or has an
/// idle node at `now`.
pub open spec fn idle_or_empty(bs: Seq<Option<Bucket>>, n: int, cfg: BucketConfig, now: u64) -> Seq<
    BucketHeight,
>
    decreases n,
{
    if n <= 0 {
        Seq::empty()
    } else if bs[n - 1] is None || spec_has_idle(slot_model(bs[n - 1]), cfg, now) {
        idle_or_empty(bs, n - 1, cfg, now).push((n - 1) as BucketHeight)
    } else {
        idle_or_empty(bs, n - 1, cfg, now)
    }
}

proof fn lemma_slots_update(pre: Seq<Option<Bucket>>, post: Seq<Option<Bucket>>, h: int, cfg: BucketConfig)
    requires
        pre.len() == BUCKET_COUNT,
        post.len() == BUCKET_COUNT,
        0 <= h < BUCKET_COUNT,
        forall|g: int| 0 <= g < BUCKET_COUNT ==> #[trigger] slot_ok(pre[g], cfg),
        forall|g: int| 0 <= g < BUCKET_COUNT && g != h ==> post[g] == pre[g],
        slot_ok(post[h], cfg),
    ensures
        forall|g: int| 0 <= g < BUCKET_COUNT ==> #[trigger] slot_ok(post[g], cfg),
{
    assert forall|g: int| 0 <= g < BUCKET_COUNT implies #[trigger] slot_ok(post[g], cfg) by {
        if g != h {
            assert(slot_ok(pre[g], cfg));
        }
    }
}

/// The routing table of a peer: one bucket per distance class. The buckets
/// are kept in a vector indexed by height (`buckets[h]` is the bucket of
/// height `h`, `None` until a node of that height is seen): a map from
/// height to bucket that Verus reads entry by entry, and whose heights are
/// walked in ascending order, where the walk of a hash map would follow its
/// hasher.
pub struct Tree {
    root: PeerNode,
    buckets: Vec<Option<Bucket>>,
    config: BucketConfig,
}

impl Tree {
    /// The node of the local peer.
    pub closed spec fn spec_root(&self) -> PeerNode {
        self.root
    }

    /// The buckets, indexed by height.
    pub closed spec fn buckets(&self) -> Seq<Option<Bucket>> {
        self.buckets@
    }

    /// The configuration of the buckets.
    pub closed spec fn config(&self) -> BucketConfig {
        self.config
    }

    /// All nodes of the table, by ascending height.
    pub open spec fn all_nodes(&self) -> Seq<PeerNode> {
        flat_nodes(self.buckets())
    }

    /// The model of the bucket at height `h` (empty if absent).
    pub open spec fn bucket_model(&self, h: int) -> BucketModel {
        slot_model(self.buckets()[h])
    }

    /// One slot per height, each existing bucket well formed.
    pub open spec fn wf(&self) -> bool {
        &&& self.buckets().len() == BUCKET_COUNT
        &&& forall|h: int| 0 <= h < BUCKET_COUNT ==> #[trigger] slot_ok(self.buckets()[h], self.config())
    }

    /// The height at which `key` belongs: its distance to the root.
    pub open spec fn height_of(&self, key: Seq<u8>) -> Option<BucketHeight> {
        spec_distance(self.spec_root().id.key(), key)
    }

    /// An empty table around `root`.
    pub fn new(root: PeerNode, config: BucketConfig) -> (r: Tree)
        ensures
            r.wf(),
            r.spec_root() == root,
            r.config() == config,
            forall|h: int| 0 <= h < BUCKET_COUNT ==> #[trigger] r.buckets()[h] is None,
    {
        let mut buckets: Vec<Option<Bucket>> = Vec::new();
        let mut i: usize = 0;
        while i < BUCKET_COUNT
            invariant
                i <= BUCKET_COUNT,
                buckets@.len() == i,
                forall|h: int| 0 <= h < i ==> #[trigger] buckets@[h] is None,
            decreases BUCKET_COUNT - i,
        {
            buckets.push(None);
            i = i + 1;
        }
        Tree { root, config, buckets }
    }

    /// The node of the local peer.
    pub fn root(&self) -> (r: &PeerNode)
        ensures
            *r == self.spec_root(),
    {
        &self.root
    }

    /// The bucket at height `h`, created (empty) if absent.
    fn get_or_create_bucket(&mut self, h: usize)
        requires
            old(self).wf(),
            h < BUCKET_COUNT,
        ensures
            final(self).wf(),
            final(self).spec_root() == old(self).spec_root(),
            final(self).config() == old(self).config(),
            final(self).buckets()[h as int] is Some,
            final(self).bucket_model(h as int) == old(self).bucket_model(h as int),
            forall|g: int| 0 <= g < BUCKET_COUNT && g != h ==> #[trigger] final(self).buckets()[g]
                == old(self).buckets()[g],
    {
        if self.buckets[h].is_none() {
            let b = Bucket::new(self.config);
            self.buckets[h] = Some(b);
        }
        proof {
            assert(old(self).wf());
            lemma_slots_update(old(self).buckets(), self.buckets(), h as int, old(self).config());
        }
    }

    /// Inserts `node`, seen now (the wall clock is read), into the bucket of
    /// its height (see `insert_at`).
    pub fn insert(&mut self, node: PeerNode) -> (r: Result<InsertOk<'_>, InsertError>)
        requires
            old(self).wf(),
        ensures
            final(self).wf(),
            final(self).spec_root() == old(self).spec_root(),
            final(self).config() == old(self).config(),
            exists|now: u64| Self::update_is(*old(self), *final(self), r, node, now, false),
    {
        let now = now_millis();
        self.insert_at(node, now)
    }

    /// Refreshes `node`, seen now (the wall clock is read), in the bucket of
    /// its height (see `refresh_at`).
    pub fn refresh(&mut self, node: PeerNode) -> (r: Result<InsertOk<'_>, InsertError>)
        requires
            old(self).wf(),
        ensures
            final(self).wf(),
            final(self).spec_root() == old(self).spec_root(),
            final(self).config() == old(self).config(),
            exists|now: u64| Self::update_is(*old(self), *final(self), r, node, now, true),
    {
        let now = now_millis();
        self.refresh_at(node, now)
    }

    /// Inserts `node`, seen at `now`, into the bucket of its height.
    pub fn insert_at(&mut self, node: PeerNode, now: u64) -> (r: Result<InsertOk<'_>, InsertError>)
        requires
            old(self).wf(),
        ensures
            final(self).wf(),
            final(self).spec_root() == old(self).spec_root(),
            final(self).config() == old(self).config(),
            Self::update_is(*old(self), *final(self), r, node, now, false),
    {
        if self.root.network_id != node.network_id {
            return Err(NodeInsertError::MismatchNetwork(node));
        }
        match self.root.calculate_distance(&node) {
            None => Err(NodeInsertError::Invalid(node)),
            Some(height) => {
                let h = height as usize;
                self.get_or_create_bucket(h);
                assert(slot_ok(self.buckets()[h as int], self.config()));
                match &mut self.buckets[h] {
                    Some(b) => b.insert_at(node, now),
                    None => Err(NodeInsertError::Invalid(node)),
                }
            },
        }
    }

    /// Refreshes `node`, seen at `now`, in the bucket of its height.
    pub fn refresh_at(&mut self, node: PeerNode, now: u64) -> (r: Result<InsertOk<'_>, InsertError>)
        requires
            old(self).wf(),
        ensures
            final(self).wf(),
            final(self).spec_root() == old(self).spec_root(),
            final(self).config() == old(self).config(),
            Self::update_is(*old(self), *final(self), r, node, now, true),
    {
        if self.root.network_id != node.network_id {
            return Err(NodeInsertError::MismatchNetwork(node));
        }
        match self.root.calculate_distance(&node) {
            None => Err(NodeInsertError::Invalid(node)),
            Some(height) => {
                let h = height as usize;
                self.get_or_create_bucket(h);
                assert(slot_ok(self.buckets()[h as int], self.config()));
                match &mut self.buckets[h] {
                    Some(b) => b.refresh_at(node, now),
                    None => Err(NodeInsertError::Invalid(node)),
                }
            },
        }
    }

    /// The height of the bucket holding a node with `key`, if any.
    pub open spec fn spec_has_peer(&self, key: Seq<u8>) -> Option<BucketHeight> {
        match self.height_of(key) {
            None => None,
            Some(h) => if self.buckets()[h as int] is Some && find_key(
                self.bucket_model(h as int).nodes,
                key,
            ) is Some {
                Some(h)
            } else {
                None
            },
        }
    }

    /// What inserting (or refreshing) `node` at `now` does to the buckets:
    /// none changes when the node is refused for its network or for being
    /// the root, otherwise the bucket of its height (created if absent) takes
    /// the new model.
    pub open spec fn update_effect(pre: Tree, post: Tree, node: PeerNode, now: u64, refresh: bool) -> bool {
        if pre.spec_root().network_id != node.network_id {
            post.buckets() == pre.buckets()
        } else {
            match spec_distance(pre.spec_root().id.key(), node.id.key()) {
                None => post.buckets() == pre.buckets(),
                Some(h) => {
                    let step = if refresh {
                        spec_refresh(pre.bucket_model(h as int), pre.config(), node, now)
                    } else {
                        spec_insert(pre.bucket_model(h as int), pre.config(), node, now)
                    };
                    &&& post.buckets()[h as int] is Some
                    &&& post.bucket_model(h as int) == step.0
                    &&& forall|g: int|
                        0 <= g < BUCKET_COUNT && g != h ==> #[trigger] post.buckets()[g]
                            == pre.buckets()[g]
                },
            }
        }
    }

    /// How inserting (or refreshing) `node` at `now` ends: the error, or the
    /// node then pending eviction.
    pub open spec fn update_result(pre: Tree, node: PeerNode, now: u64, refresh: bool) -> Result<
        Option<PeerNode>,
        InsertError,
    > {
        if pre.spec_root().network_id != node.network_id {
            Err(NodeInsertError::MismatchNetwork(node))
        } else {
            match spec_distance(pre.spec_root().id.key(), node.id.key()) {
                None => Err(NodeInsertError::Invalid(node)),
                Some(h) => {
                    let step = if refresh {
                        spec_refresh(pre.bucket_model(h as int), pre.config(), node, now)
                    } else {
                        spec_insert(pre.bucket_model(h as int), pre.config(), node, now)
                    };
                    match step.1 {
                        InsertOutcome::Invalid => Err(NodeInsertError::Invalid(node)),
                        InsertOutcome::Full => Err(NodeInsertError::Full(node)),
                        InsertOutcome::Inserted => Ok(None),
                        _ => Ok(spec_pending_eviction(step.0.nodes)),
                    }
                },
            }
        }
    }

    /// An update described by `update_is` has the effect of `update_effect`
    /// and ends as `update_result` says.
    pub proof fn lemma_update_parts(
        pre: Tree,
        post: Tree,
        r: Result<InsertOk, InsertError>,
        node: PeerNode,
        now: u64,
        refresh: bool,
    )
        requires
            Self::update_is(pre, post, r, node, now, refresh),
        ensures
            Self::update_effect(pre, post, node, now, refresh),
            match r {
                Err(e) => Self::update_result(pre, node, now, refresh) == Err::<Option<PeerNode>, InsertError>(e),
                Ok(ok) => Self::update_result(pre, node, now, refresh) matches Ok(p) && ref_opt_is(
                    pending_of(ok),
                    p,
                ),
            },
    {
    }

    /// Law: once a node is inserted, or refreshed while known, the table
    /// finds it, at the height of its distance to the root (unless the
    /// insertion was refused or left the node pending).
    pub proof fn lemma_insert_then_has_peer(pre: Tree, post: Tree, node: PeerNode, now: u64, refresh: bool)
        requires
            pre.wf(),
            post.spec_root() == pre.spec_root(),
            Self::update_effect(pre, post, node, now, refresh),
            pre.spec_root().network_id == node.network_id,
            match spec_distance(pre.spec_root().id.key(), node.id.key()) {
                Some(h) => {
                    let step = if refresh {
                        spec_refresh(pre.bucket_model(h as int), pre.config(), node, now)
                    } else {
                        spec_insert(pre.bucket_model(h as int), pre.config(), node, now)
                    };
                    step.1 is Updated || (!refresh && step.1 is Inserted)
                },
                None => false,
            },
        ensures
            post.spec_has_peer(node.id.key()) == spec_distance(pre.spec_root().id.key(), node.id.key()),
    {
        let key = node.id.key();
        let h = spec_distance(pre.spec_root().id.key(), key)->0;
        let m = pre.bucket_model(h as int);
        lemma_find_key(m.nodes, key);
        let fin = post.bucket_model(h as int).nodes;
        if find_key(m.nodes, key) is Some {
            let i = find_key(m.nodes, key)->0;
            let m1 = BucketModel { nodes: spec_refresh_node(m.nodes, key, now), pending: m.pending };
            assert(m1.nodes.last().id.key() == key);
            lemma_evict_keeps_last(m1, pre.config(), now);
        } else {
            let m2 = bucket::spec_try_evict(m, pre.config(), now);
            lemma_find_key(m2.nodes, key);
            assert(fin.last().id.key() == key);
        }
        assert(has_key(fin, key));
        lemma_find_key(fin, key);
    }

    /// The keys at distance `h` from the root's key.
    pub open spec fn at_height(&self, h: int) -> spec_fn(Seq<u8>) -> bool {
        |k: Seq<u8>| spec_distance(self.spec_root().id.key(), k) == Some(h as BucketHeight)
    }

    /// Every node a bucket holds, pending ones too, is at the distance from
    /// the root that the bucket's height names.
    pub open spec fn heights_consistent(&self) -> bool {
        forall|h: int|
            0 <= h < BUCKET_COUNT && #[trigger] self.buckets()[h] is Some ==> keys_satisfy(
                self.bucket_model(h),
                self.at_height(h),
            )
    }

    /// Law: an empty table is consistent.
    pub proof fn lemma_new_heights_consistent(t: Tree)
        requires
            forall|h: int| 0 <= h < BUCKET_COUNT ==> #[trigger] t.buckets()[h] is None,
        ensures
            t.heights_consistent(),
    {
    }

    /// Law: inserting or refreshing a node keeps every node in the bucket of
    /// its distance to the root.
    pub proof fn lemma_update_keeps_heights(pre: Tree, post: Tree, node: PeerNode, now: u64, refresh: bool)
        requires
            pre.wf(),
            pre.heights_consistent(),
            post.spec_root() == pre.spec_root(),
            post.config() == pre.config(),
            Self::update_effect(pre, post, node, now, refresh),
        ensures
            post.heights_consistent(),
    {
        if pre.spec_root().network_id == node.network_id {
            if let Some(h) = spec_distance(pre.spec_root().id.key(), node.id.key()) {
                pre.spec_root().id.lemma_shape();
                node.id.lemma_shape();
                key::lemma_distance_none_iff_equal(pre.spec_root().id.key(), node.id.key());
                let m = pre.bucket_model(h as int);
                let p = pre.at_height(h as int);
                if pre.buckets()[h as int] is Some {
                    assert(keys_satisfy(m, p));
                } else {
                    assert(m.nodes =~= Seq::<PeerNode>::empty());
                }
                lemma_insert_keeps_keys(m, pre.config(), node, now, p);
                assert forall|g: int| 0 <= g < BUCKET_COUNT && #[trigger] post.buckets()[g] is Some implies keys_satisfy(
                    post.bucket_model(g),
                    post.at_height(g),
                ) by {
                    if g != h {
                        assert(post.buckets()[g] == pre.buckets()[g]);
                    }
                }
            }
        }
    }

    /// Law: removing the idle nodes keeps every node in the bucket of its
    /// distance to the root.
    pub proof fn lemma_idle_removal_keeps_heights(pre: Tree, post: Tree, now: u64)
        requires
            pre.heights_consistent(),
            post.spec_root() == pre.spec_root(),
            Self::idle_removal_is(pre, post, now),
        ensures
            post.heights_consistent(),
    {
        assert forall|g: int| 0 <= g < BUCKET_COUNT && #[trigger] post.buckets()[g] is Some implies keys_satisfy(
            post.bucket_model(g),
            post.at_height(g),
        ) by {
            lemma_removal_keeps_keys(pre.bucket_model(g), pre.config(), now, pre.at_height(g));
        }
    }

    /// Law: removing a node keeps every node in the bucket of its distance
    /// to the root.
    pub proof fn lemma_peer_removal_keeps_heights(
        pre: Tree,
        post: Tree,
        key: Seq<u8>,
        now: u64,
        r: Option<PeerNode>,
    )
        requires
            pre.wf(),
            pre.heights_consistent(),
            key.len() == K_ID_LEN_BYTES,
            post.spec_root() == pre.spec_root(),
            Self::peer_removal_is(pre, post, key, now, r),
        ensures
            post.heights_consistent(),
    {
        if let Some(h) = pre.height_of(key) {
            pre.spec_root().id.lemma_shape();
            key::lemma_distance_none_iff_equal(pre.spec_root().id.key(), key);
            if let Some(b) = pre.buckets()[h as int] {
                let p = pre.at_height(h as int);
                assert(keys_satisfy(b.model(), p));
                assert(slot_ok(pre.buckets()[h as int], pre.config()));
                lemma_removal_keeps_keys(b.model(), b.config(), now, p);
                lemma_find_key(b.model().nodes, key);
                assert forall|g: int| 0 <= g < BUCKET_COUNT && #[trigger] post.buckets()[g] is Some implies keys_satisfy(
                    post.bucket_model(g),
                    post.at_height(g),
                ) by {
                    if g != h {
                        assert(post.buckets()[g] == pre.buckets()[g]);
                    }
                }
            }
        }
        if post.buckets() =~= pre.buckets() {
            assert(post.buckets() == pre.buckets());
        }
    }

    /// Law: once the node with `key` is removed, the table no longer finds
    /// it (the keys of its bucket being unique, as insertions keep them).
    pub proof fn lemma_remove_then_absent(pre: Tree, post: Tree, key: Seq<u8>, now: u64, r: Option<PeerNode>)
        requires
            pre.wf(),
            key.len() == K_ID_LEN_BYTES,
            post.spec_root() == pre.spec_root(),
            Self::peer_removal_is(pre, post, key, now, r),
            match pre.height_of(key) {
                Some(h) => keys_unique(pre.bucket_model(h as int)),
                None => true,
            },
        ensures
            post.spec_has_peer(key) is None,
    {
        if let Some(h) = pre.height_of(key) {
            pre.spec_root().id.lemma_shape();
            key::lemma_distance_none_iff_equal(pre.spec_root().id.key(), key);
            if let Some(b) = pre.buckets()[h as int] {
                let nodes = b.model().nodes;
                lemma_find_key(nodes, key);
                if let Some(i) = find_key(nodes, key) {
                    let rest = BucketModel { nodes: nodes.remove(i), pending: b.model().pending };
                    let fin = spec_insert_pending(rest, b.config(), now);
                    assert forall|a: int| 0 <= a < fin.nodes.len() implies #[trigger] fin.nodes[a].id.key() != key by {
                        if a < rest.nodes.len() {
                            assert(fin.nodes[a] == rest.nodes[a]);
                            if a < i {
                                assert(rest.nodes[a] == nodes[a]);
                            } else {
                                assert(rest.nodes[a] == nodes[a + 1]);
                                assert(nodes[i].id.key() != nodes[a + 1].id.key());
                            }
                        } else {
                            assert(nodes[i].id.key() != b.model().pending->0.id.key());
                        }
                    }
                    lemma_find_key(fin.nodes, key);
                    assert(post.bucket_model(h as int) == fin);
                } else {
                    assert(post.bucket_model(h as int) == b.model());
                }
            } else {
                assert(post.buckets() == pre.buckets());
            }
        }
    }

    /// What inserting (or refreshing) `node` at `now` does to the table:
    /// another network is refused, the root's own key is invalid, otherwise
    /// the bucket of the node's height (created if absent) is updated.
    pub open spec fn update_is(
        pre: Tree,
        post: Tree,
        r: Result<InsertOk, InsertError>,
        node: PeerNode,
        now: u64,
        refresh: bool,
    ) -> bool {
        if pre.spec_root().network_id != node.network_id {
            r == Err::<InsertOk, InsertError>(NodeInsertError::MismatchNetwork(node))
                && post.buckets() == pre.buckets()
        } else {
            match spec_distance(pre.spec_root().id.key(), node.id.key()) {
                None => r == Err::<InsertOk, InsertError>(NodeInsertError::Invalid(node))
                    && post.buckets() == pre.buckets(),
                Some(h) => {
                    let step = if refresh {
                        spec_refresh(pre.bucket_model(h as int), pre.config(), node, now)
                    } else {
                        spec_insert(pre.bucket_model(h as int), pre.config(), node, now)
                    };
                    &&& post.buckets()[h as int] is Some
                    &&& post.bucket_model(h as int) == step.0
                    &&& insert_result_is(r, step.1, step.0, node, refresh)
                    &&& forall|g: int|
                        0 <= g < BUCKET_COUNT && g != h ==> #[trigger] post.buckets()[g]
                            == pre.buckets()[g]
                },
            }
        }
    }
}


/// The nodes of `nodes` whose key differs from `key`, in order.
pub open spec fn others(nodes: Seq<PeerNode>, key: Seq<u8>) -> Seq<PeerNode> {
    nodes.filter(|n: PeerNode| n.id.key() != key)
}

/// Each candidate paired with its distance to `key` and its position.
pub open spec fn distance_pairs(cands: Seq<PeerNode>, key: Seq<u8>) -> Seq<(u8, usize)> {
    Seq::new(
        cands.len(),
        |k: int| ((spec_distance(cands[k].id.key(), key)->0) as u8, k as usize),
    )
}

/// `order` lists the candidates by increasing distance to `key`, candidates
/// at equal distance in their order.
pub open spec fn is_distance_order(order: Seq<(u8, usize)>, cands: Seq<PeerNode>, key: Seq<u8>) -> bool {
    &&& order.len() == cands.len()
    &&& order.to_multiset() == distance_pairs(cands, key).to_multiset()
    &&& forall|i: int, j: int|
        0 <= i < j < order.len() ==> order[i].0 < order[j].0 || (order[i].0 == order[j].0
            && order[i].1 < order[j].1)
}

impl Tree {
    /// `r` lists at most `count` nodes of the table other than `key`, closest
    /// to `key` first (nodes at equal distance by ascending height, then
    /// bucket order).
    pub open spec fn is_closest(&self, r: Seq<&PeerNode>, key: Seq<u8>, count: nat) -> bool {
        let cands = others(self.all_nodes(), key);
        &&& r.len() == if cands.len() < count {
            cands.len()
        } else {
            count
        }
        &&& exists|order: Seq<(u8, usize)>|
            {
                &&& is_distance_order(order, cands, key)
                &&& forall|k: int|
                    0 <= k < r.len() ==> #[trigger] order[k].1 < cands.len() && *r[k] == cands[order[k].1 as int]
            }
    }

    /// The height of `peer` if a bucket holds it.
    pub fn has_peer(&self, peer: &BinaryKey) -> (r: Option<BucketHeight>)
        requires
            self.wf(),
        ensures
            r == self.spec_has_peer(peer@),
    {
        match self.root.id().calculate_distance(peer) {
            None => None,
            Some(height) => match &self.buckets[height as usize] {
                Some(bucket) => if bucket.has_node(peer) {
                    Some(height)
                } else {
                    None
                },
                None => None,
            },
        }
    }

    /// Removes the node with key `peer` from its bucket (see
    /// `Bucket::remove_id`).
    pub fn remove_peer(&mut self, peer: &BinaryKey, now: u64) -> (r: Option<PeerNode>)
        requires
            old(self).wf(),
        ensures
            final(self).wf(),
            final(self).spec_root() == old(self).spec_root(),
            final(self).config() == old(self).config(),
            Self::peer_removal_is(*old(self), *final(self), peer@, now, r),
    {
        match self.root.id().calculate_distance(peer) {
            None => None,
            Some(height) => {
                let h = height as usize;
                assert(slot_ok(self.buckets()[h as int], self.config()));
                match &mut self.buckets[h] {
                    Some(bucket) => bucket.remove_id(peer, now),
                    None => None,
                }
            },
        }
    }

    /// What `remove_idle_nodes` at `now` does: every existing bucket keeps
    /// its nodes alive at `now`, then takes its pending node in.
    pub open spec fn idle_removal_is(pre: Tree, post: Tree, now: u64) -> bool {
        forall|h: int|
            0 <= h < BUCKET_COUNT ==> (#[trigger] post.buckets()[h] is Some == pre.buckets()[h] is Some)
                && post.bucket_model(h) == if pre.buckets()[h] is Some {
                spec_insert_pending(
                    BucketModel {
                        nodes: liveness_filter(pre.bucket_model(h).nodes, now, pre.config().node_ttl, true),
                        pending: pre.bucket_model(h).pending,
                    },
                    pre.config(),
                    now,
                )
            } else {
                pre.bucket_model(h)
            }
    }

    /// What `remove_peer` of the node with `key` at `now` does, returning `r`.
    pub open spec fn peer_removal_is(pre: Tree, post: Tree, key: Seq<u8>, now: u64, r: Option<PeerNode>) -> bool {
        match pre.height_of(key) {
            None => r is None && post.buckets() =~= pre.buckets(),
            Some(h) => match pre.buckets()[h as int] {
                None => r is None && post.buckets() =~= pre.buckets(),
                Some(b) => {
                    &&& post.buckets()[h as int] is Some
                    &&& forall|g: int|
                        0 <= g < BUCKET_COUNT && g != h ==> #[trigger] post.buckets()[g]
                            == pre.buckets()[g]
                    &&& match find_key(b.model().nodes, key) {
                        None => r is None && post.bucket_model(h as int) =~= b.model(),
                        Some(i) => r == Some(b.model().nodes[i]) && post.bucket_model(
                            h as int,
                        ) =~= spec_insert_pending(
                            BucketModel { nodes: b.model().nodes.remove(i), pending: b.model().pending },
                            b.config(),
                            now,
                        ),
                    }
                },
            },
        }
    }

    /// The bucket at `height` exists and is full.
    pub fn is_bucket_full(&self, height: BucketHeight) -> (r: bool)
        requires
            self.wf(),
        ensures
            r == (height < BUCKET_COUNT && self.buckets()[height as int] is Some
                && self.bucket_model(height as int).nodes.len() == K_K),
    {
        if height as usize >= BUCKET_COUNT {
            return false;
        }
        match &self.buckets[height as usize] {
            Some(bucket) => bucket.is_full(),
            None => false,
        }
    }

    /// The existing buckets by ascending height, with their peers.
    pub fn all_sorted(&self) -> (r: Vec<(BucketHeight, &[PeerNode])>)
        requires
            self.wf(),
        ensures
            r@.len() == heights_up_to(self.buckets(), BUCKET_COUNT as int, 255).len(),
            forall|k: int|
                0 <= k < r@.len() ==> #[trigger] r@[k].0 == heights_up_to(
                    self.buckets(),
                    BUCKET_COUNT as int,
                    255,
                )[k] && r@[k].1@ == self.bucket_model(r@[k].0 as int).nodes,
    {
        let mut r: Vec<(BucketHeight, &[PeerNode])> = Vec::new();
        let mut h: usize = 0;
        while h < BUCKET_COUNT
            invariant
                h <= BUCKET_COUNT,
                self.wf(),
                r@.len() == heights_up_to(self.buckets(), h as int, 255).len(),
                forall|k: int|
                    0 <= k < r@.len() ==> #[trigger] r@[k].0 == heights_up_to(
                        self.buckets(),
                        h as int,
                        255,
                    )[k] && r@[k].1@ == self.bucket_model(r@[k].0 as int).nodes,
            decreases BUCKET_COUNT - h,
        {
            if let Some(bucket) = &self.buckets[h] {
                r.push((h as BucketHeight, bucket.peers()));
            }
            h = h + 1;
        }
        r
    }

    /// For each existing bucket up to `max_h` (all when `None`), by ascending
    /// height: the height and at most `K_BETA` of its nodes picked at random.
    pub fn extract(&self, max_h: Option<BucketHeight>) -> (r: Vec<(BucketHeight, Vec<&PeerNode>)>)
        requires
            self.wf(),
        ensures
            ({
                let max = match max_h {
                    Some(m) => m as int,
                    None => 255,
                };
                &&& r@.len() == heights_up_to(self.buckets(), BUCKET_COUNT as int, max).len()
                &&& forall|k: int|
                    0 <= k < r@.len() ==> #[trigger] r@[k].0 == heights_up_to(
                        self.buckets(),
                        BUCKET_COUNT as int,
                        max,
                    )[k] && is_pick(
                        r@[k].1@,
                        self.bucket_model(r@[k].0 as int).nodes,
                        K_BETA as nat,
                    )
            }),
    {
        let max: u8 = match max_h {
            Some(m) => m,
            None => 255,
        };
        let mut r: Vec<(BucketHeight, Vec<&PeerNode>)> = Vec::new();
        let mut h: usize = 0;
        while h < BUCKET_COUNT
            invariant
                h <= BUCKET_COUNT,
                self.wf(),
                max as int == match max_h {
                    Some(m) => m as int,
                    None => 255,
                },
                r@.len() == heights_up_to(self.buckets(), h as int, max as int).len(),
                forall|k: int|
                    0 <= k < r@.len() ==> #[trigger] r@[k].0 == heights_up_to(
                        self.buckets(),
                        h as int,
                        max as int,
                    )[k] && is_pick(
                        r@[k].1@,
                        self.bucket_model(r@[k].0 as int).nodes,
                        K_BETA as nat,
                    ),
            decreases BUCKET_COUNT - h,
        {
            if h <= max as usize {
                if let Some(bucket) = &self.buckets[h] {
                    r.push((h as BucketHeight, bucket.pick::<K_BETA>()));
                }
            }
            h = h + 1;
        }
        r
    }

    /// For each existing bucket with an idle node at `now`, by ascending
    /// height: the height and at most `K_ALPHA` of its nodes picked at random.
    pub fn idle_buckets(&self, now: u64) -> (r: Vec<(BucketHeight, Vec<&PeerNode>)>)
        requires
            self.wf(),
        ensures
            r@.len() == idle_heights(self.buckets(), BUCKET_COUNT as int, self.config(), now).len(),
            forall|k: int|
                0 <= k < r@.len() ==> #[trigger] r@[k].0 == idle_heights(
                    self.buckets(),
                    BUCKET_COUNT as int,
                    self.config(),
                    now,
                )[k] && is_pick(r@[k].1@, self.bucket_model(r@[k].0 as int).nodes, K_ALPHA as nat),
    {
        let mut r: Vec<(BucketHeight, Vec<&PeerNode>)> = Vec::new();
        let mut h: usize = 0;
        while h < BUCKET_COUNT
            invariant
                h <= BUCKET_COUNT,
                self.wf(),
                r@.len() == idle_heights(self.buckets(), h as int, self.config(), now).len(),
                forall|k: int|
                    0 <= k < r@.len() ==> #[trigger] r@[k].0 == idle_heights(
                        self.buckets(),
                        h as int,
                        self.config(),
                        now,
                    )[k] && is_pick(
                        r@[k].1@,
                        self.bucket_model(r@[k].0 as int).nodes,
                        K_ALPHA as nat,
                    ),
            decreases BUCKET_COUNT - h,
        {
            if let Some(bucket) = &self.buckets[h] {
                assert(slot_ok(self.buckets()[h as int], self.config()));
                if bucket.has_idle(now) {
                    r.push((h as BucketHeight, bucket.pick::<K_ALPHA>()));
                }
            }
            h = h + 1;
        }
        r
    }

    /// The heights whose bucket is absent or has an idle node at `now`.
    pub fn idle_or_empty_heigth(&self, now: u64) -> (r: Vec<BucketHeight>)
        requires
            self.wf(),
        ensures
            r@ == idle_or_empty(self.buckets(), BUCKET_COUNT as int, self.config(), now),
    {
        let mut r: Vec<BucketHeight> = Vec::new();
        let mut h: usize = 0;
        while h < BUCKET_COUNT
            invariant
                h <= BUCKET_COUNT,
                self.wf(),
                r@ == idle_or_empty(self.buckets(), h as int, self.config(), now),
            decreases BUCKET_COUNT - h,
        {
            let keep = match &self.buckets[h] {
                Some(bucket) => {
                    assert(slot_ok(self.buckets()[h as int], self.config()));
                    bucket.has_idle(now)
                },
                None => true,
            };
            if keep {
                r.push(h as BucketHeight);
            }
            h = h + 1;
        }
        r
    }
}


proof fn lemma_flat_nodes_take(bs: Seq<Option<Bucket>>, h: int)
    requires
        0 <= h < bs.len(),
    ensures
        flat_nodes(bs.take(h + 1)) == flat_nodes(bs.take(h)) + slot_model(bs[h]).nodes,
{
    assert(bs.take(h + 1).drop_last() =~= bs.take(h));
}

impl Tree {
    fn select_nodes(&self, now: u64, alive: bool) -> (r: Vec<&PeerNode>)
        requires
            self.wf(),
        ensures
            r@.map_values(|x: &PeerNode| *x) == liveness_filter(
                self.all_nodes(),
                now,
                self.config().node_ttl,
                alive,
            ),
    {
        let ghost pred = |n: PeerNode| spec_is_alive(n, now, self.config().node_ttl) == alive;
        let mut r: Vec<&PeerNode> = Vec::new();
        let mut h: usize = 0;
        assert(self.buckets().take(0) =~= Seq::<Option<Bucket>>::empty());
        assert(r@.map_values(|x: &PeerNode| *x) =~= Seq::<PeerNode>::empty().filter(pred));
        while h < BUCKET_COUNT
            invariant
                h <= BUCKET_COUNT,
                self.wf(),
                pred == (|n: PeerNode| spec_is_alive(n, now, self.config().node_ttl) == alive),
                r@.map_values(|x: &PeerNode| *x) == flat_nodes(self.buckets().take(h as int)).filter(pred),
            decreases BUCKET_COUNT - h,
        {
            proof {
                lemma_flat_nodes_take(self.buckets(), h as int);
            }
            let ghost before = r@;
            if let Some(bucket) = &self.buckets[h] {
                assert(slot_ok(self.buckets()[h as int], self.config()));
                let mut part = if alive {
                    bucket.alive_nodes(now)
                } else {
                    bucket.idle_nodes(now)
                };
                let ghost p = part@;
                r.append(&mut part);
                proof {
                    assert(r@ == before + p);
                    assert(r@.map_values(|x: &PeerNode| *x) =~= before.map_values(|x: &PeerNode| *x)
                        + p.map_values(|x: &PeerNode| *x));
                    Seq::filter_distributes_over_add(
                        flat_nodes(self.buckets().take(h as int)),
                        slot_model(self.buckets()[h as int]).nodes,
                        pred,
                    );
                }
            } else {
                proof {
                    assert(slot_model(self.buckets()[h as int]).nodes =~= Seq::<PeerNode>::empty());
                    assert(flat_nodes(self.buckets().take(h + 1)) =~= flat_nodes(self.buckets().take(h as int)));
                }
            }
            h = h + 1;
        }
        assert(self.buckets().take(BUCKET_COUNT as int) =~= self.buckets());
        r
    }

    /// The nodes alive at `now`, by ascending height.
    pub fn alive_nodes(&self, now: u64) -> (r: Vec<&PeerNode>)
        requires
            self.wf(),
        ensures
            r@.map_values(|x: &PeerNode| *x) == liveness_filter(
                self.all_nodes(),
                now,
                self.config().node_ttl,
                true,
            ),
    {
        self.select_nodes(now, true)
    }

    /// The nodes not alive at `now`, by ascending height.
    pub fn idle_nodes(&self, now: u64) -> (r: Vec<&PeerNode>)
        requires
            self.wf(),
        ensures
            r@.map_values(|x: &PeerNode| *x) == liveness_filter(
                self.all_nodes(),
                now,
                self.config().node_ttl,
                false,
            ),
    {
        self.select_nodes(now, false)
    }

    /// Removes, in every bucket, the nodes not alive at `now` (see
    /// `Bucket::remove_idle_nodes`).
    pub fn remove_idle_nodes(&mut self, now: u64)
        requires
            old(self).wf(),
        ensures
            final(self).wf(),
            final(self).spec_root() == old(self).spec_root(),
            final(self).config() == old(self).config(),
            Self::idle_removal_is(*old(self), *final(self), now),
    {
        let mut h: usize = 0;
        while h < BUCKET_COUNT
            invariant
                h <= BUCKET_COUNT,
                self.wf(),
                self.spec_root() == old(self).spec_root(),
                self.config() == old(self).config(),
                old(self).wf(),
                forall|g: int|
                    0 <= g < BUCKET_COUNT ==> (#[trigger] self.buckets()[g] is Some
                        == old(self).buckets()[g] is Some) && self.bucket_model(g)
                        == if old(self).buckets()[g] is Some && g < h {
                        spec_insert_pending(
                            BucketModel {
                                nodes: liveness_filter(
                                    old(self).bucket_model(g).nodes,
                                    now,
                                    old(self).config().node_ttl,
                                    true,
                                ),
                                pending: old(self).bucket_model(g).pending,
                            },
                            old(self).config(),
                            now,
                        )
                    } else {
                        old(self).bucket_model(g)
                    },
            decreases BUCKET_COUNT - h,
        {
            let ghost pre = self.buckets();
            assert(slot_ok(self.buckets()[h as int], self.config()));
            match &mut self.buckets[h] {
                Some(bucket) => bucket.remove_idle_nodes(now),
                None => {},
            }
            proof {
                lemma_slots_update(pre, self.buckets(), h as int, self.config());
                assert forall|g: int| 0 <= g < BUCKET_COUNT implies (#[trigger] self.buckets()[g] is Some
                    == old(self).buckets()[g] is Some) && self.bucket_model(g)
                    == if old(self).buckets()[g] is Some && g < h + 1 {
                    spec_insert_pending(
                        BucketModel {
                            nodes: liveness_filter(
                                old(self).bucket_model(g).nodes,
                                now,
                                old(self).config().node_ttl,
                                true,
                            ),
                            pending: old(self).bucket_model(g).pending,
                        },
                        old(self).config(),
                        now,
                    )
                } else {
                    old(self).bucket_model(g)
                } by {
                    if g != h {
                        assert(self.buckets()[g] == pre[g]);
                    }
                }
            }
            h = h + 1;
        }
    }
}


impl Tree {
    /// All nodes, by ascending height.
    fn all_peers(&self) -> (r: Vec<&PeerNode>)
        requires
            self.wf(),
        ensures
            r@.map_values(|x: &PeerNode| *x) == self.all_nodes(),
    {
        let mut r: Vec<&PeerNode> = Vec::new();
        let mut h: usize = 0;
        assert(self.buckets().take(0) =~= Seq::<Option<Bucket>>::empty());
        assert(r@.map_values(|x: &PeerNode| *x) =~= Seq::<PeerNode>::empty());
        while h < BUCKET_COUNT
            invariant
                h <= BUCKET_COUNT,
                self.wf(),
                r@.map_values(|x: &PeerNode| *x) == flat_nodes(self.buckets().take(h as int)),
            decreases BUCKET_COUNT - h,
        {
            proof {
                lemma_flat_nodes_take(self.buckets(), h as int);
            }
            if let Some(bucket) = &self.buckets[h] {
                let peers = bucket.peers();
                let mut i: usize = 0;
                let ghost before = r@;
                while i < peers.len()
                    invariant
                        i <= peers@.len(),
                        r@.map_values(|x: &PeerNode| *x) == before.map_values(|x: &PeerNode| *x)
                            + peers@.take(i as int),
                    decreases peers@.len() - i,
                {
                    let ghost prev = r@;
                    r.push(&peers[i]);
                    assert(r@.map_values(|x: &PeerNode| *x) =~= prev.map_values(|x: &PeerNode| *x).push(peers@[i as int]));
                    assert(peers@.take(i + 1) =~= peers@.take(i as int).push(peers@[i as int]));
                    i = i + 1;
                }
                assert(peers@.take(peers@.len() as int) =~= peers@);
            } else {
                assert(flat_nodes(self.buckets().take(h + 1)) =~= flat_nodes(self.buckets().take(h as int)));
            }
            h = h + 1;
        }
        assert(self.buckets().take(BUCKET_COUNT as int) =~= self.buckets());
        r
    }

    /// At most `ITEM_COUNT` nodes other than `other`, closest to `other`
    /// first (nodes at equal distance by ascending height, then bucket
    /// order).
    pub fn closest_peers<const ITEM_COUNT: usize>(&self, other: &BinaryKey) -> (r: Vec<&PeerNode>)
        requires
            self.wf(),
        ensures
            self.is_closest(r@, other@, ITEM_COUNT as nat),
    {
        let all = self.all_peers();
        let ghost all_m = self.all_nodes();
        let ghost pred = |n: PeerNode| n.id.key() != other@;
        let mut cands: Vec<&PeerNode> = Vec::new();
        let mut i: usize = 0;
        assert(all@.map_values(|x: &PeerNode| *x).take(0).filter(pred) =~= Seq::<PeerNode>::empty());
        assert(cands@.map_values(|x: &PeerNode| *x) =~= Seq::<PeerNode>::empty());
        while i < all.len()
            invariant
                i <= all@.len(),
                all@.map_values(|x: &PeerNode| *x) == all_m,
                pred == (|n: PeerNode| n.id.key() != other@),
                cands@.map_values(|x: &PeerNode| *x) == all_m.take(i as int).filter(pred),
            decreases all@.len() - i,
        {
            proof {
                assert(all_m.take(i + 1) =~= all_m.take(i as int).push(all_m[i as int]));
                all_m.take(i as int).lemma_filter_push(all_m[i as int], pred);
            }
            let ghost prev = cands@;
            let n = all[i];
            if !crate::peer::keys_equal(n.id().as_binary(), other) {
                cands.push(n);
                assert(cands@.map_values(|x: &PeerNode| *x) =~= prev.map_values(|x: &PeerNode| *x).push(all_m[i as int]));
            }
            i = i + 1;
        }
        assert(all_m.take(all_m.len() as int) =~= all_m);
        let ghost cm = cands@.map_values(|x: &PeerNode| *x);
        assert(cm == others(self.all_nodes(), other@));
        let mut pairs: Vec<(u8, usize)> = Vec::new();
        let mut k: usize = 0;
        while k < cands.len()
            invariant
                k <= cands@.len(),
                cm == cands@.map_values(|x: &PeerNode| *x),
                cm == all_m.filter(pred),
                pred == (|n: PeerNode| n.id.key() != other@),
                pairs@ == distance_pairs(cm, other@).take(k as int),
            decreases cands@.len() - k,
        {
            let n = cands[k];
            proof {
                all_m.lemma_filter_pred(pred, k as int);
                n.id.lemma_shape();
                key::lemma_distance_none_iff_equal(n.id.key(), other@);
                assert(cm[k as int] == *n);
            }
            let d = match n.id().calculate_distance(other) {
                Some(d) => d,
                None => 0,
            };
            pairs.push((d, k));
            assert(pairs@ =~= distance_pairs(cm, other@).take(k + 1));
            k = k + 1;
        }
        assert(pairs@ =~= distance_pairs(cm, other@));
        let sorted = crate::sorting::sorted_by_first(pairs);
        proof {
            assert(is_distance_order(sorted@, cm, other@));
        }
        let mut r: Vec<&PeerNode> = Vec::new();
        let mut j: usize = 0;
        while j < sorted.len() && j < ITEM_COUNT
            invariant
                j <= sorted@.len(),
                j <= ITEM_COUNT,
                sorted@.len() == cm.len(),
                cm == cands@.map_values(|x: &PeerNode| *x),
                is_distance_order(sorted@, cm, other@),
                r@.len() == j,
                forall|t: int| 0 <= t < j ==> #[trigger] sorted@[t].1 < cm.len() && *r@[t] == cm[sorted@[t].1 as int],
            decreases sorted@.len() - j,
        {
            proof {
                broadcast use vstd::seq_lib::group_to_multiset_ensures;
                let e = sorted@[j as int];
                assert(sorted@.to_multiset().count(e) > 0);
                assert(distance_pairs(cm, other@).contains(e));
                let w = choose|w: int| 0 <= w < distance_pairs(cm, other@).len() && distance_pairs(cm, other@)[w] == e;
                assert(e.1 < cm.len());
            }
            let idx = sorted[j].1;
            r.push(cands[idx]);
            j = j + 1;
        }
        r
    }
}

} // verus!
