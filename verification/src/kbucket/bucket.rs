//! A k-bucket: at most `K_K` nodes kept in least-recently-seen order, with
//! one pending candidate waiting for the eviction of the oldest node.
use vstd::prelude::*;

use arrayvec::ArrayVec;

use super::key::{valid_nonce, BinaryKey};
use super::node::{spec_is_alive, Node, NodeEvictionStatus};
use crate::clock::{elapsed, elapsed_millis, now_millis};
use crate::config::BucketConfig;
use crate::encoding::message::Version;
use crate::peer::{keys_equal, PeerNode};
use crate::random::{shuffle, thread_rng};
use crate::K_K;

verus! {

#[verifier::external_type_specification]
#[verifier::external_body]
#[verifier::reject_recursive_types(T)]
pub struct ExArrayVec<T, const CAP: usize>(ArrayVec<T, CAP>);

/// The nodes held by a bucket's `ArrayVec`, in order.
pub uninterp spec fn slots(v: ArrayVec<PeerNode, K_K>) -> Seq<PeerNode>;

/// Calls `ArrayVec::new`. Trusted: the new vector holds nothing.
#[verifier::external_body]
fn slots_new() -> (r: ArrayVec<PeerNode, K_K>)
    ensures
        slots(r) == Seq::<PeerNode>::empty(),
{
    ArrayVec::new()
}

/// Calls `ArrayVec::as_slice`. Trusted: the slice shows the held nodes in
/// order, at most the capacity of them.
#[verifier::external_body]
fn slots_as_slice(v: &ArrayVec<PeerNode, K_K>) -> (r: &[PeerNode])
    ensures
        r@ == slots(*v),
        r@.len() <= K_K,
{
    v.as_slice()
}

/// Calls `ArrayVec::is_full`. Trusted: true exactly when the capacity is
/// reached.
#[verifier::external_body]
fn slots_is_full(v: &ArrayVec<PeerNode, K_K>) -> (r: bool)
    ensures
        r == (slots(*v).len() == K_K),
{
    v.is_full()
}

/// Calls `ArrayVec::push`, which panics on a full vector. Trusted: the node
/// is appended.
#[verifier::external_body]
fn slots_push(v: &mut ArrayVec<PeerNode, K_K>, n: PeerNode)
    requires
        slots(*old(v)).len() < K_K,
    ensures
        slots(*final(v)) == slots(*old(v)).push(n),
{
    v.push(n)
}

/// Calls `ArrayVec::insert`, which panics on a full vector or an index past
/// the end. Trusted: the node is inserted at `index`, later nodes shift up.
#[verifier::external_body]
fn slots_insert(v: &mut ArrayVec<PeerNode, K_K>, index: usize, n: PeerNode)
    requires
        slots(*old(v)).len() < K_K,
        index <= slots(*old(v)).len(),
    ensures
        slots(*final(v)) == slots(*old(v)).insert(index as int, n),
{
    v.insert(index, n)
}

/// Calls `ArrayVec::pop_at`. Trusted: an index in bounds removes and returns
/// that node, later nodes shift down; otherwise nothing changes.
#[verifier::external_body]
fn slots_pop_at(v: &mut ArrayVec<PeerNode, K_K>, index: usize) -> (r: Option<PeerNode>)
    ensures
        index < slots(*old(v)).len() ==> r == Some(slots(*old(v))[index as int]) && slots(
            *final(v),
        ) == slots(*old(v)).remove(index as int),
        index >= slots(*old(v)).len() ==> r is None && slots(*final(v)) == slots(*old(v)),
{
    v.pop_at(index)
}

/// The nodes whose liveness at `now` for `ttl` is `alive`, in order.
pub open spec fn liveness_filter(nodes: Seq<PeerNode>, now: u64, ttl: u64, alive: bool) -> Seq<
    PeerNode,
> {
    nodes.filter(|n: PeerNode| spec_is_alive(n, now, ttl) == alive)
}

/// Calls `ArrayVec::retain` with a predicate that keeps the nodes alive at
/// `now` for `ttl`. Trusted: exactly those nodes stay, in order.
#[verifier::external_body]
fn slots_retain_alive(v: &mut ArrayVec<PeerNode, K_K>, now: u64, ttl: u64)
    ensures
        slots(*final(v)) == liveness_filter(slots(*old(v)), now, ttl, true),
{
    v.retain(|n| n.is_alive(now, ttl))
}

/// Result of inserting a node into a bucket.
#[derive(Debug, PartialEq, Eq)]
pub enum NodeInsertOk<'a, TNode> {
    /// The node was inserted into the bucket.
    Inserted { inserted: &'a TNode },
    /// The node was already present and has been refreshed.
    Updated { updated: &'a TNode, pending_eviction: Option<&'a TNode> },
    /// The node waits for the eviction of the least recently seen node.
    Pending { pending_insert: &'a TNode, pending_eviction: Option<&'a TNode> },
    /// No action has been performed.
    NoAction,
}

/// Reasons why a node cannot be inserted into a bucket.
#[derive(Debug, PartialEq, Eq)]
pub enum NodeInsertError<TNode> {
    /// The node is considered invalid and cannot be inserted.
    Invalid(TNode),
    /// The bucket is already full, and the node cannot be inserted.
    Full(TNode),
    /// The node belongs to another network.
    MismatchNetwork(TNode),
    /// The node announces a version that is not supported.
    MismatchVersion(TNode, Version),
}

/// The node pending eviction named by an insertion result.
pub open spec fn pending_of<'a, TNode>(ok: NodeInsertOk<'a, TNode>) -> Option<&'a TNode> {
    match ok {
        NodeInsertOk::Updated { pending_eviction, .. } => pending_eviction,
        NodeInsertOk::Pending { pending_eviction, .. } => pending_eviction,
        _ => None,
    }
}

impl<'a, TNode> NodeInsertOk<'a, TNode> {
    /// Returns an optional reference to the node pending eviction.
    pub fn pending_eviction(&self) -> (r: Option<&TNode>)
        ensures
            r == pending_of(*self),
    {
        match self {
            NodeInsertOk::Inserted { inserted: _ } => None,
            NodeInsertOk::Pending { pending_insert: _, pending_eviction } => *pending_eviction,
            NodeInsertOk::Updated { updated: _, pending_eviction } => *pending_eviction,
            NodeInsertOk::NoAction => None,
        }
    }
}

/// Result of a successful insertion into a bucket of peers.
pub type InsertOk<'a> = NodeInsertOk<'a, PeerNode>;

/// Error of an insertion into a bucket of peers.
pub type InsertError = NodeInsertError<PeerNode>;

/// Model of a bucket: its nodes, least recently seen first, and its pending
/// node.
#[verifier::ext_equal]
pub struct BucketModel {
    pub nodes: Seq<PeerNode>,
    pub pending: Option<PeerNode>,
}

/// The first index of a node with the given key.
pub open spec fn find_key(nodes: Seq<PeerNode>, key: Seq<u8>) -> Option<int>
    decreases nodes.len(),
{
    if nodes.len() == 0 {
        None
    } else {
        match find_key(nodes.drop_last(), key) {
            Some(i) => Some(i),
            None => if nodes.last().id.key() == key {
                Some(nodes.len() - 1)
            } else {
                None
            },
        }
    }
}

/// `find_key` gives the first matching index, or `None` when no node has the
/// key.
pub proof fn lemma_find_key(nodes: Seq<PeerNode>, key: Seq<u8>)
    ensures
        match find_key(nodes, key) {
            Some(i) => 0 <= i < nodes.len() && nodes[i].id.key() == key && forall|j: int|
                0 <= j < i ==> #[trigger] nodes[j].id.key() != key,
            None => forall|j: int| 0 <= j < nodes.len() ==> #[trigger] nodes[j].id.key() != key,
        },
    decreases nodes.len(),
{
    if nodes.len() > 0 {
        let init = nodes.drop_last();
        lemma_find_key(init, key);
        assert forall|j: int| 0 <= j < init.len() implies init[j] == nodes[j] by {}
    }
}

/// The node refreshed at `now`.
pub open spec fn refreshed(n: PeerNode, now: u64) -> PeerNode {
    Node { eviction_status: NodeEvictionStatus::NotRequested, seen_at: now, ..n }
}

/// The node flagged for an eviction check at `now`.
pub open spec fn flagged(n: PeerNode, now: u64) -> PeerNode {
    Node { eviction_status: NodeEvictionStatus::Requested(now), ..n }
}

/// Refreshing the node with `key`: it moves to the end (most recently seen).
pub open spec fn spec_refresh_node(nodes: Seq<PeerNode>, key: Seq<u8>, now: u64) -> Seq<PeerNode> {
    match find_key(nodes, key) {
        None => nodes,
        Some(i) => nodes.remove(i).push(refreshed(nodes[i], now)),
    }
}

/// Moving the pending node into a bucket that is not full, if it is alive; a
/// dead pending node is dropped.
pub open spec fn spec_insert_pending(m: BucketModel, cfg: BucketConfig, now: u64) -> BucketModel {
    if m.nodes.len() >= K_K {
        m
    } else {
        match m.pending {
            None => m,
            Some(p) => if spec_is_alive(p, now, cfg.node_ttl) {
                BucketModel { nodes: m.nodes.push(p), pending: None }
            } else {
                BucketModel { nodes: m.nodes, pending: None }
            },
        }
    }
}

/// The eviction step of a full bucket: a least recently seen node whose
/// eviction request is older than `node_evict_after` is dropped (and the
/// pending node moved in); a dead one without request is flagged.
pub open spec fn spec_try_evict(m: BucketModel, cfg: BucketConfig, now: u64) -> BucketModel {
    if m.nodes.len() < K_K {
        m
    } else {
        match m.nodes[0].eviction_status {
            NodeEvictionStatus::Requested(t) => if elapsed(now, t) < cfg.node_evict_after {
                m
            } else {
                spec_insert_pending(BucketModel { nodes: m.nodes.remove(0), pending: m.pending }, cfg, now)
            },
            NodeEvictionStatus::NotRequested => if spec_is_alive(m.nodes[0], now, cfg.node_ttl) {
                m
            } else {
                BucketModel { nodes: m.nodes.update(0, flagged(m.nodes[0], now)), pending: m.pending }
            },
        }
    }
}

/// The node the eviction step names as candidate, if any.
pub open spec fn spec_eviction_candidate(m: BucketModel, cfg: BucketConfig, now: u64) -> Option<PeerNode> {
    if m.nodes.len() < K_K {
        None
    } else {
        match m.nodes[0].eviction_status {
            NodeEvictionStatus::Requested(t) => if elapsed(now, t) < cfg.node_evict_after {
                Some(m.nodes[0])
            } else {
                None
            },
            NodeEvictionStatus::NotRequested => if spec_is_alive(m.nodes[0], now, cfg.node_ttl) {
                None
            } else {
                Some(flagged(m.nodes[0], now))
            },
        }
    }
}

/// The least recently seen node, when it is flagged for eviction.
pub open spec fn spec_pending_eviction(nodes: Seq<PeerNode>) -> Option<PeerNode> {
    if nodes.len() > 0 && nodes[0].eviction_status is Requested {
        Some(nodes[0])
    } else {
        None
    }
}

/// How an insertion ends.
pub enum InsertOutcome {
    Invalid,
    Updated,
    Inserted,
    Pending,
    Full,
}

/// Inserting `node` at `now`: the new bucket model and how the insertion
/// ends. A known node is refreshed. A new one comes after the eviction step
/// (which may move the pending node in): it takes a free slot; it is refused
/// while the least recently seen node is alive; otherwise it becomes the
/// pending node, unless the eviction step has just moved in the pending copy
/// of it, which is then refreshed, so that no key is held twice.
pub open spec fn spec_insert(m: BucketModel, cfg: BucketConfig, node: PeerNode, now: u64) -> (
    BucketModel,
    InsertOutcome,
) {
    let key = node.id.key();
    if !valid_nonce(node.id.key(), node.id.nonce_bytes()) {
        (m, InsertOutcome::Invalid)
    } else if find_key(m.nodes, key) is Some {
        let m1 = BucketModel { nodes: spec_refresh_node(m.nodes, key, now), pending: m.pending };
        (spec_try_evict(m1, cfg, now), InsertOutcome::Updated)
    } else {
        let m2 = spec_try_evict(m, cfg, now);
        if m2.nodes.len() < K_K {
            (BucketModel { nodes: m2.nodes.push(node), pending: m2.pending }, InsertOutcome::Inserted)
        } else if spec_is_alive(m2.nodes[0], now, cfg.node_ttl) {
            (m2, InsertOutcome::Full)
        } else if find_key(m2.nodes, key) is Some {
            (BucketModel { nodes: spec_refresh_node(m2.nodes, key, now), pending: m2.pending }, InsertOutcome::Updated)
        } else {
            (BucketModel { nodes: m2.nodes, pending: Some(node) }, InsertOutcome::Pending)
        }
    }
}

/// Refreshing `node` at `now`: the new model and how it ends (`Updated` when
/// the node is present, `Inserted` standing for "no action" otherwise).
pub open spec fn spec_refresh(m: BucketModel, cfg: BucketConfig, node: PeerNode, now: u64) -> (
    BucketModel,
    InsertOutcome,
) {
    let key = node.id.key();
    if !valid_nonce(node.id.key(), node.id.nonce_bytes()) {
        (m, InsertOutcome::Invalid)
    } else if find_key(m.nodes, key) is Some {
        let m1 = BucketModel { nodes: spec_refresh_node(m.nodes, key, now), pending: m.pending };
        (spec_try_evict(m1, cfg, now), InsertOutcome::Updated)
    } else {
        (m, InsertOutcome::Inserted)
    }
}

/// The reference handed back names the given node.
pub open spec fn ref_opt_is(r: Option<&PeerNode>, n: Option<PeerNode>) -> bool {
    match r {
        Some(x) => n == Some(*x),
        None => n is None,
    }
}

/// The value returned by an insertion or a refresh, for the outcome and the
/// final model.
pub open spec fn insert_result_is(
    r: Result<InsertOk, InsertError>,
    outcome: InsertOutcome,
    fin: BucketModel,
    node: PeerNode,
    refresh: bool,
) -> bool {
    match outcome {
        InsertOutcome::Invalid => r == Err::<InsertOk, InsertError>(NodeInsertError::Invalid(node)),
        InsertOutcome::Full => r == Err::<InsertOk, InsertError>(NodeInsertError::Full(node)),
        InsertOutcome::Updated => r matches Ok(NodeInsertOk::Updated { updated, pending_eviction })
            && fin.nodes.len() > 0 && *updated == fin.nodes.last() && ref_opt_is(
            pending_eviction,
            spec_pending_eviction(fin.nodes),
        ),
        InsertOutcome::Inserted => if refresh {
            r matches Ok(NodeInsertOk::NoAction)
        } else {
            r matches Ok(NodeInsertOk::Inserted { inserted }) && *inserted == node
        },
        InsertOutcome::Pending => r matches Ok(NodeInsertOk::Pending { pending_insert, pending_eviction })
            && *pending_insert == node && ref_opt_is(
            pending_eviction,
            spec_pending_eviction(fin.nodes),
        ),
    }
}

/// At most `K_K` nodes, a pending node only while full, and no key held
/// twice.
pub open spec fn model_wf(m: BucketModel) -> bool {
    &&& m.nodes.len() <= K_K
    &&& m.pending is Some ==> m.nodes.len() == K_K
    &&& keys_unique(m)
}

/// Refreshing a node keeps the number of nodes.
pub proof fn lemma_refresh_node_len(nodes: Seq<PeerNode>, key: Seq<u8>, now: u64)
    ensures
        spec_refresh_node(nodes, key, now).len() == nodes.len(),
{
    lemma_find_key(nodes, key);
}

/// Law: moving the pending node in and the eviction step keep a bucket
/// well formed.
pub proof fn lemma_evict_keeps_wf(m: BucketModel, cfg: BucketConfig, now: u64)
    requires
        model_wf(m),
    ensures
        model_wf(spec_insert_pending(m, cfg, now)),
        model_wf(spec_try_evict(m, cfg, now)),
        spec_try_evict(m, cfg, now).nodes.len() > 0 <== m.nodes.len() > 0,
{
    lemma_insert_pending_unique(m, cfg, now);
    lemma_try_evict_unique(m, cfg, now);
    if m.nodes.len() == K_K {
        let r = BucketModel { nodes: m.nodes.remove(0), pending: m.pending };
        assert(spec_insert_pending(r, cfg, now).pending is None);
    }
}

/// Law: inserting a node keeps a bucket well formed.
pub proof fn lemma_insert_keeps_wf(m: BucketModel, cfg: BucketConfig, node: PeerNode, now: u64)
    requires
        model_wf(m),
    ensures
        model_wf(spec_insert(m, cfg, node, now).0),
        model_wf(spec_refresh(m, cfg, node, now).0),
{
    lemma_refresh_node_len(m.nodes, node.id.key(), now);
    let m1 = BucketModel { nodes: spec_refresh_node(m.nodes, node.id.key(), now), pending: m.pending };
    lemma_insert_keeps_unique(m, cfg, node, now);
    lemma_refresh_node_unique(m.nodes, m.pending, node.id.key(), now);
    lemma_evict_keeps_wf(m1, cfg, now);
    lemma_evict_keeps_wf(m, cfg, now);
    lemma_refresh_node_len(spec_try_evict(m, cfg, now).nodes, node.id.key(), now);
}

/// No two nodes of the bucket share a key, and the key of the pending node is
/// none of theirs.
pub open spec fn keys_unique(m: BucketModel) -> bool {
    &&& forall|i: int, j: int|
        0 <= i < j < m.nodes.len() ==> #[trigger] m.nodes[i].id.key() != #[trigger] m.nodes[j].id.key()
    &&& m.pending matches Some(p) ==> forall|i: int|
        0 <= i < m.nodes.len() ==> #[trigger] m.nodes[i].id.key() != p.id.key()
}

/// Some node of `nodes` has `key`.
pub open spec fn has_key(nodes: Seq<PeerNode>, key: Seq<u8>) -> bool {
    exists|j: int| 0 <= j < nodes.len() && #[trigger] nodes[j].id.key() == key
}

/// Every key of `after` is a key of `before` or the key of `extra`.
pub open spec fn keys_from(after: Seq<PeerNode>, before: Seq<PeerNode>, extra: Option<PeerNode>) -> bool {
    forall|i: int|
        0 <= i < after.len() ==> has_key(before, #[trigger] after[i].id.key()) || (extra matches Some(p)
            && after[i].id.key() == p.id.key())
}

proof fn lemma_keys_from_none(after: Seq<PeerNode>, before: Seq<PeerNode>, extra: Option<PeerNode>)
    requires
        keys_from(after, before, None),
    ensures
        keys_from(after, before, extra),
{
}

/// Keys taken from `mid`, itself taken from `before` and `extra`, come from
/// `before` and `extra`.
proof fn lemma_keys_from_trans(
    after: Seq<PeerNode>,
    mid: Seq<PeerNode>,
    before: Seq<PeerNode>,
    extra: Option<PeerNode>,
)
    requires
        keys_from(after, mid, extra),
        keys_from(mid, before, extra),
    ensures
        keys_from(after, before, extra),
{
    assert forall|i: int| 0 <= i < after.len() implies has_key(before, #[trigger] after[i].id.key()) || (
    extra matches Some(p) && after[i].id.key() == p.id.key()) by {
        if has_key(mid, after[i].id.key()) {
            let j = choose|j: int| 0 <= j < mid.len() && #[trigger] mid[j].id.key() == after[i].id.key();
            assert(has_key(before, mid[j].id.key()) || (extra matches Some(p) && mid[j].id.key() == p.id.key()));
        }
    }
}

proof fn lemma_refresh_node_unique(nodes: Seq<PeerNode>, pending: Option<PeerNode>, key: Seq<u8>, now: u64)
    requires
        keys_unique(BucketModel { nodes, pending }),
    ensures
        keys_unique(BucketModel { nodes: spec_refresh_node(nodes, key, now), pending }),
        keys_from(spec_refresh_node(nodes, key, now), nodes, None),
{
    lemma_find_key(nodes, key);
    let r = spec_refresh_node(nodes, key, now);
    if let Some(i) = find_key(nodes, key) {
        let rest = nodes.remove(i);
        assert forall|a: int| 0 <= a < r.len() implies #[trigger] r[a].id.key() == nodes[if a == r.len() - 1 {
            i
        } else if a < i {
            a
        } else {
            a + 1
        }].id.key() by {
            if a < r.len() - 1 {
                assert(r[a] == rest[a]);
            }
        }
        assert forall|a: int, b: int| 0 <= a < b < r.len() implies #[trigger] r[a].id.key()
            != #[trigger] r[b].id.key() by {
            let ia = if a < i { a } else { a + 1 };
            let ib = if b == r.len() - 1 { i } else if b < i { b } else { b + 1 };
            if ia < ib {
                assert(nodes[ia].id.key() != nodes[ib].id.key());
            } else {
                assert(nodes[ib].id.key() != nodes[ia].id.key());
            }
        }
        assert forall|a: int| 0 <= a < r.len() implies has_key(nodes, #[trigger] r[a].id.key()) by {
            let ia = if a == r.len() - 1 { i } else if a < i { a } else { a + 1 };
            assert(nodes[ia].id.key() == r[a].id.key());
        }
    } else {
        assert forall|a: int| 0 <= a < r.len() implies has_key(nodes, #[trigger] r[a].id.key()) by {
            assert(nodes[a].id.key() == r[a].id.key());
        }
    }
}

proof fn lemma_remove_first_unique(m: BucketModel)
    requires
        keys_unique(m),
        m.nodes.len() > 0,
    ensures
        keys_unique(BucketModel { nodes: m.nodes.remove(0), pending: m.pending }),
        keys_from(m.nodes.remove(0), m.nodes, None),
{
    let rest = m.nodes.remove(0);
    assert forall|a: int| 0 <= a < rest.len() implies #[trigger] rest[a].id.key() == m.nodes[a + 1].id.key() by {}
    assert forall|a: int, b: int| 0 <= a < b < rest.len() implies #[trigger] rest[a].id.key()
        != #[trigger] rest[b].id.key() by {
        assert(m.nodes[a + 1].id.key() != m.nodes[b + 1].id.key());
    }
    assert forall|a: int| 0 <= a < rest.len() implies has_key(m.nodes, #[trigger] rest[a].id.key()) by {
        assert(m.nodes[a + 1].id.key() == rest[a].id.key());
    }
}

proof fn lemma_insert_pending_unique(m: BucketModel, cfg: BucketConfig, now: u64)
    requires
        keys_unique(m),
    ensures
        keys_unique(spec_insert_pending(m, cfg, now)),
        keys_from(spec_insert_pending(m, cfg, now).nodes, m.nodes, m.pending),
{
    let r = spec_insert_pending(m, cfg, now);
    assert forall|a: int| 0 <= a < r.nodes.len() implies has_key(m.nodes, #[trigger] r.nodes[a].id.key()) || (
    m.pending matches Some(p) && r.nodes[a].id.key() == p.id.key()) by {
        if a < m.nodes.len() {
            assert(m.nodes[a].id.key() == r.nodes[a].id.key());
        }
    }
}

proof fn lemma_update_first_unique(m: BucketModel, n: PeerNode)
    requires
        keys_unique(m),
        m.nodes.len() > 0,
        n.id.key() == m.nodes[0].id.key(),
    ensures
        keys_unique(BucketModel { nodes: m.nodes.update(0, n), pending: m.pending }),
        keys_from(m.nodes.update(0, n), m.nodes, None),
{
    let r = m.nodes.update(0, n);
    assert forall|a: int| 0 <= a < r.len() implies #[trigger] r[a].id.key() == m.nodes[a].id.key() by {}
    assert forall|a: int| 0 <= a < r.len() implies has_key(m.nodes, #[trigger] r[a].id.key()) by {
        assert(m.nodes[a].id.key() == r[a].id.key());
    }
    assert forall|a: int, b: int| 0 <= a < b < r.len() implies #[trigger] r[a].id.key()
        != #[trigger] r[b].id.key() by {
        assert(m.nodes[a].id.key() != m.nodes[b].id.key());
    }
}

proof fn lemma_same_keys(m: BucketModel)
    ensures
        keys_from(m.nodes, m.nodes, m.pending),
{
    assert forall|a: int| 0 <= a < m.nodes.len() implies has_key(m.nodes, #[trigger] m.nodes[a].id.key()) by {}
}

proof fn lemma_try_evict_unique(m: BucketModel, cfg: BucketConfig, now: u64)
    requires
        keys_unique(m),
    ensures
        keys_unique(spec_try_evict(m, cfg, now)),
        keys_from(spec_try_evict(m, cfg, now).nodes, m.nodes, m.pending),
{
    lemma_same_keys(m);
    if m.nodes.len() >= K_K {
        match m.nodes[0].eviction_status {
            NodeEvictionStatus::Requested(t) => {
                if elapsed(now, t) >= cfg.node_evict_after {
                    let rm = BucketModel { nodes: m.nodes.remove(0), pending: m.pending };
                    lemma_remove_first_unique(m);
                    lemma_insert_pending_unique(rm, cfg, now);
                    lemma_keys_from_none(rm.nodes, m.nodes, m.pending);
                    lemma_keys_from_trans(spec_insert_pending(rm, cfg, now).nodes, rm.nodes, m.nodes, m.pending);
                }
            },
            NodeEvictionStatus::NotRequested => {
                if !spec_is_alive(m.nodes[0], now, cfg.node_ttl) {
                    lemma_update_first_unique(m, flagged(m.nodes[0], now));
                    lemma_keys_from_none(m.nodes.update(0, flagged(m.nodes[0], now)), m.nodes, m.pending);
                }
            },
        }
    }
}

/// No two nodes of `nodes` share a key.
pub open spec fn keys_distinct(nodes: Seq<PeerNode>) -> bool {
    forall|i: int, j: int| 0 <= i < j < nodes.len() ==> #[trigger] nodes[i].id.key() != #[trigger] nodes[j].id.key()
}

/// Filtering keeps the keys distinct, and takes every key from the input.
proof fn lemma_filter_keys_distinct(s: Seq<PeerNode>, pred: spec_fn(PeerNode) -> bool)
    requires
        keys_distinct(s),
    ensures
        keys_distinct(s.filter(pred)),
        keys_from(s.filter(pred), s, None),
    decreases s.len(),
{
    if s.len() == 0 {
        s.lemma_filter_len(pred);
    } else {
        let t = s.drop_last();
        let x = s.last();
        assert(s =~= t.push(x));
        assert forall|i: int, j: int| 0 <= i < j < t.len() implies #[trigger] t[i].id.key() != #[trigger] t[j].id.key() by {
            assert(s[i].id.key() != s[j].id.key());
        }
        lemma_filter_keys_distinct(t, pred);
        t.lemma_filter_push(x, pred);
        let ft = t.filter(pred);
        assert forall|a: int| 0 <= a < ft.len() implies #[trigger] ft[a].id.key() != x.id.key() by {
            let j = choose|j: int| 0 <= j < t.len() && #[trigger] t[j].id.key() == ft[a].id.key();
            assert(s[j].id.key() != s[s.len() - 1].id.key());
        }
        assert forall|a: int| 0 <= a < ft.len() implies has_key(s, #[trigger] ft[a].id.key()) by {
            let j = choose|j: int| 0 <= j < t.len() && #[trigger] t[j].id.key() == ft[a].id.key();
            assert(s[j] == t[j]);
        }
        if pred(x) {
            let f = ft.push(x);
            assert forall|a: int, b: int| 0 <= a < b < f.len() implies #[trigger] f[a].id.key()
                != #[trigger] f[b].id.key() by {
                if b == f.len() - 1 {
                    assert(ft[a].id.key() != x.id.key());
                } else {
                    assert(ft[a].id.key() != ft[b].id.key());
                }
            }
            assert forall|a: int| 0 <= a < f.len() implies has_key(s, #[trigger] f[a].id.key()) by {
                if a == f.len() - 1 {
                    assert(s[s.len() - 1] == x);
                } else {
                    assert(f[a] == ft[a]);
                }
            }
        }
    }
}

/// Keeping the nodes alive at `now` keeps the keys of a bucket unique.
proof fn lemma_liveness_filter_unique(m: BucketModel, now: u64, ttl: u64)
    requires
        keys_unique(m),
    ensures
        keys_unique(BucketModel { nodes: liveness_filter(m.nodes, now, ttl, true), pending: m.pending }),
{
    let pred = |n: PeerNode| spec_is_alive(n, now, ttl) == true;
    lemma_filter_keys_distinct(m.nodes, pred);
    let f = m.nodes.filter(pred);
    if let Some(p) = m.pending {
        assert forall|a: int| 0 <= a < f.len() implies #[trigger] f[a].id.key() != p.id.key() by {
            let j = choose|j: int| 0 <= j < m.nodes.len() && #[trigger] m.nodes[j].id.key() == f[a].id.key();
        }
    }
}

/// Removing the node at `i` keeps the keys of a bucket unique.
proof fn lemma_remove_at_unique(m: BucketModel, i: int)
    requires
        keys_unique(m),
        0 <= i < m.nodes.len(),
    ensures
        keys_unique(BucketModel { nodes: m.nodes.remove(i), pending: m.pending }),
{
    let r = m.nodes.remove(i);
    assert forall|a: int| 0 <= a < r.len() implies #[trigger] r[a] == m.nodes[if a < i { a } else { a + 1 }] by {}
    assert forall|a: int, b: int| 0 <= a < b < r.len() implies #[trigger] r[a].id.key() != #[trigger] r[b].id.key() by {
        let ia = if a < i { a } else { a + 1 };
        let ib = if b < i { b } else { b + 1 };
        assert(m.nodes[ia].id.key() != m.nodes[ib].id.key());
    }
    if let Some(p) = m.pending {
        assert forall|a: int| 0 <= a < r.len() implies #[trigger] r[a].id.key() != p.id.key() by {
            let ia = if a < i { a } else { a + 1 };
            assert(m.nodes[ia].id.key() != p.id.key());
        }
    }
}

/// Every node of the bucket, and its pending node, has a key that `p`
/// accepts.
pub open spec fn keys_satisfy(m: BucketModel, p: spec_fn(Seq<u8>) -> bool) -> bool {
    &&& forall|i: int| 0 <= i < m.nodes.len() ==> p(#[trigger] m.nodes[i].id.key())
    &&& m.pending matches Some(q) ==> p(q.id.key())
}

proof fn lemma_refresh_node_keys(m: BucketModel, key: Seq<u8>, now: u64, p: spec_fn(Seq<u8>) -> bool)
    requires
        keys_satisfy(m, p),
    ensures
        keys_satisfy(BucketModel { nodes: spec_refresh_node(m.nodes, key, now), pending: m.pending }, p),
{
    lemma_find_key(m.nodes, key);
    if let Some(i) = find_key(m.nodes, key) {
        let r = spec_refresh_node(m.nodes, key, now);
        assert forall|a: int| 0 <= a < r.len() implies p(#[trigger] r[a].id.key()) by {
            if a == r.len() - 1 {
                assert(r[a].id.key() == m.nodes[i].id.key());
            } else if a < i {
                assert(r[a] == m.nodes[a]);
            } else {
                assert(r[a] == m.nodes[a + 1]);
            }
        }
    }
}

proof fn lemma_insert_pending_keys(m: BucketModel, cfg: BucketConfig, now: u64, p: spec_fn(Seq<u8>) -> bool)
    requires
        keys_satisfy(m, p),
    ensures
        keys_satisfy(spec_insert_pending(m, cfg, now), p),
{
    let r = spec_insert_pending(m, cfg, now);
    assert forall|a: int| 0 <= a < r.nodes.len() implies p(#[trigger] r.nodes[a].id.key()) by {
        if a < m.nodes.len() {
            assert(r.nodes[a] == m.nodes[a]);
        }
    }
}

proof fn lemma_remove_keys(m: BucketModel, i: int, p: spec_fn(Seq<u8>) -> bool)
    requires
        keys_satisfy(m, p),
        0 <= i < m.nodes.len(),
    ensures
        keys_satisfy(BucketModel { nodes: m.nodes.remove(i), pending: m.pending }, p),
{
    let r = m.nodes.remove(i);
    assert forall|a: int| 0 <= a < r.len() implies p(#[trigger] r[a].id.key()) by {
        if a < i {
            assert(r[a] == m.nodes[a]);
        } else {
            assert(r[a] == m.nodes[a + 1]);
        }
    }
}

proof fn lemma_try_evict_keys(m: BucketModel, cfg: BucketConfig, now: u64, p: spec_fn(Seq<u8>) -> bool)
    requires
        keys_satisfy(m, p),
    ensures
        keys_satisfy(spec_try_evict(m, cfg, now), p),
{
    if m.nodes.len() >= K_K {
        match m.nodes[0].eviction_status {
            NodeEvictionStatus::Requested(t) => {
                if elapsed(now, t) >= cfg.node_evict_after {
                    lemma_remove_keys(m, 0, p);
                    lemma_insert_pending_keys(
                        BucketModel { nodes: m.nodes.remove(0), pending: m.pending },
                        cfg,
                        now,
                        p,
                    );
                }
            },
            NodeEvictionStatus::NotRequested => {
                let r = spec_try_evict(m, cfg, now);
                assert forall|a: int| 0 <= a < r.nodes.len() implies p(#[trigger] r.nodes[a].id.key()) by {
                    assert(r.nodes[a].id.key() == m.nodes[a].id.key());
                }
            },
        }
    }
}

/// Law: inserting or refreshing a node whose key `p` accepts keeps every
/// key of the bucket accepted by `p`.
pub proof fn lemma_insert_keeps_keys(
    m: BucketModel,
    cfg: BucketConfig,
    node: PeerNode,
    now: u64,
    p: spec_fn(Seq<u8>) -> bool,
)
    requires
        keys_satisfy(m, p),
        p(node.id.key()),
    ensures
        keys_satisfy(spec_insert(m, cfg, node, now).0, p),
        keys_satisfy(spec_refresh(m, cfg, node, now).0, p),
{
    let key = node.id.key();
    lemma_refresh_node_keys(m, key, now, p);
    lemma_try_evict_keys(BucketModel { nodes: spec_refresh_node(m.nodes, key, now), pending: m.pending }, cfg, now, p);
    lemma_try_evict_keys(m, cfg, now, p);
    let m2 = spec_try_evict(m, cfg, now);
    lemma_refresh_node_keys(m2, key, now, p);
    if m2.nodes.len() < K_K {
        let r = m2.nodes.push(node);
        assert forall|a: int| 0 <= a < r.len() implies p(#[trigger] r[a].id.key()) by {
            if a < m2.nodes.len() {
                assert(r[a] == m2.nodes[a]);
            }
        }
    }
}

/// Law: removing a node, or the nodes that are not alive, and then moving
/// the pending node in keeps every key of the bucket accepted by `p`.
pub proof fn lemma_removal_keeps_keys(m: BucketModel, cfg: BucketConfig, now: u64, p: spec_fn(Seq<u8>) -> bool)
    requires
        keys_satisfy(m, p),
    ensures
        forall|i: int|
            0 <= i < m.nodes.len() ==> keys_satisfy(
                spec_insert_pending(
                    BucketModel { nodes: #[trigger] m.nodes.remove(i), pending: m.pending },
                    cfg,
                    now,
                ),
                p,
            ),
        keys_satisfy(
            spec_insert_pending(
                BucketModel { nodes: liveness_filter(m.nodes, now, cfg.node_ttl, true), pending: m.pending },
                cfg,
                now,
            ),
            p,
        ),
{
    assert forall|i: int| 0 <= i < m.nodes.len() implies keys_satisfy(
        spec_insert_pending(BucketModel { nodes: #[trigger] m.nodes.remove(i), pending: m.pending }, cfg, now),
        p,
    ) by {
        lemma_remove_keys(m, i, p);
        lemma_insert_pending_keys(BucketModel { nodes: m.nodes.remove(i), pending: m.pending }, cfg, now, p);
    }
    let pred = |n: PeerNode| spec_is_alive(n, now, cfg.node_ttl) == true;
    broadcast use vstd::seq_lib::group_filter_ensures;
    let f = liveness_filter(m.nodes, now, cfg.node_ttl, true);
    assert forall|a: int| 0 <= a < f.len() implies p(#[trigger] f[a].id.key()) by {
        assert(m.nodes.filter(pred).contains(f[a])) by {
            assert(f[a] == m.nodes.filter(pred)[a]);
        }
        m.nodes.lemma_filter_contains_rev(pred, f[a]);
        let j = choose|j: int| 0 <= j < m.nodes.len() && m.nodes[j] == f[a];
        assert(p(m.nodes[j].id.key()));
    }
    lemma_insert_pending_keys(BucketModel { nodes: f, pending: m.pending }, cfg, now, p);
}

/// The eviction step keeps the most recently seen node of a non-empty
/// bucket.
pub proof fn lemma_evict_keeps_last(m: BucketModel, cfg: BucketConfig, now: u64)
    requires
        m.nodes.len() > 0,
    ensures
        has_key(spec_try_evict(m, cfg, now).nodes, m.nodes.last().id.key()),
{
    let r = spec_try_evict(m, cfg, now);
    let last = m.nodes.len() - 1;
    if m.nodes.len() >= K_K {
        match m.nodes[0].eviction_status {
            NodeEvictionStatus::Requested(t) => {
                if elapsed(now, t) >= cfg.node_evict_after {
                    let rm = BucketModel { nodes: m.nodes.remove(0), pending: m.pending };
                    assert(rm.nodes[last - 1] == m.nodes[last]);
                    assert(r.nodes[last - 1] == m.nodes[last]);
                } else {
                    assert(r.nodes[last] == m.nodes[last]);
                }
            },
            NodeEvictionStatus::NotRequested => {
                assert(r.nodes[last].id.key() == m.nodes[last].id.key());
            },
        }
    } else {
        assert(r.nodes[last] == m.nodes[last]);
    }
}

/// Every node of `before` whose key is gone from `after` had its eviction
/// requested at least `node_evict_after` ms before `now` (and was not seen
/// since).
pub open spec fn evictions_checked(before: Seq<PeerNode>, after: Seq<PeerNode>, cfg: BucketConfig, now: u64) -> bool {
    forall|j: int|
        0 <= j < before.len() && !has_key(after, #[trigger] before[j].id.key()) ==> (before[j].eviction_status
            matches NodeEvictionStatus::Requested(t) && elapsed(now, t) >= cfg.node_evict_after)
}

proof fn lemma_insert_pending_superset(m: BucketModel, cfg: BucketConfig, now: u64, k: Seq<u8>)
    requires
        has_key(m.nodes, k),
    ensures
        has_key(spec_insert_pending(m, cfg, now).nodes, k),
{
    let j = choose|j: int| 0 <= j < m.nodes.len() && #[trigger] m.nodes[j].id.key() == k;
    assert(spec_insert_pending(m, cfg, now).nodes[j] == m.nodes[j]);
}

proof fn lemma_try_evict_checked(m: BucketModel, cfg: BucketConfig, now: u64)
    requires
        keys_unique(m),
    ensures
        evictions_checked(m.nodes, spec_try_evict(m, cfg, now).nodes, cfg, now),
{
    let r = spec_try_evict(m, cfg, now);
    if m.nodes.len() >= K_K {
        match m.nodes[0].eviction_status {
            NodeEvictionStatus::Requested(t) => {
                if elapsed(now, t) >= cfg.node_evict_after {
                    let rm = BucketModel { nodes: m.nodes.remove(0), pending: m.pending };
                    assert forall|j: int|
                        0 <= j < m.nodes.len() && !has_key(r.nodes, #[trigger] m.nodes[j].id.key()) implies (
                    m.nodes[j].eviction_status matches NodeEvictionStatus::Requested(t)
                        && elapsed(now, t) >= cfg.node_evict_after) by {
                        if j > 0 {
                            assert(rm.nodes[j - 1] == m.nodes[j]);
                            assert(has_key(rm.nodes, m.nodes[j].id.key()));
                            lemma_insert_pending_superset(rm, cfg, now, m.nodes[j].id.key());
                        }
                    }
                } else {
                    assert forall|j: int| 0 <= j < m.nodes.len() implies has_key(
                        r.nodes,
                        #[trigger] m.nodes[j].id.key(),
                    ) by {
                        assert(r.nodes[j] == m.nodes[j]);
                    }
                }
            },
            NodeEvictionStatus::NotRequested => {
                assert forall|j: int| 0 <= j < m.nodes.len() implies has_key(
                    r.nodes,
                    #[trigger] m.nodes[j].id.key(),
                ) by {
                    assert(r.nodes[j].id.key() == m.nodes[j].id.key());
                }
            },
        }
    } else {
        assert forall|j: int| 0 <= j < m.nodes.len() implies has_key(r.nodes, #[trigger] m.nodes[j].id.key()) by {
            assert(r.nodes[j] == m.nodes[j]);
        }
    }
}

/// Refreshing a node keeps every key.
proof fn lemma_refresh_node_keys_kept(nodes: Seq<PeerNode>, key: Seq<u8>, now: u64)
    ensures
        forall|k: Seq<u8>| has_key(nodes, k) ==> has_key(spec_refresh_node(nodes, key, now), k),
{
    lemma_find_key(nodes, key);
    let r = spec_refresh_node(nodes, key, now);
    assert forall|k: Seq<u8>| has_key(nodes, k) implies has_key(r, k) by {
        let j = choose|j: int| 0 <= j < nodes.len() && #[trigger] nodes[j].id.key() == k;
        match find_key(nodes, key) {
            None => {
                assert(r[j] == nodes[j]);
            },
            Some(i) => {
                let rest = nodes.remove(i);
                if j == i {
                    assert(r[r.len() - 1].id.key() == k);
                } else if j < i {
                    assert(r[j] == rest[j]);
                } else {
                    assert(r[j - 1] == rest[j - 1]);
                }
            },
        }
    }
}

/// Refreshing the node at `i` keeps every other node, in order, and moves
/// the refreshed one last.
proof fn lemma_refresh_node_shape(nodes: Seq<PeerNode>, key: Seq<u8>, now: u64)
    requires
        find_key(nodes, key) is Some,
    ensures
        ({
            let i = find_key(nodes, key)->0;
            let r = spec_refresh_node(nodes, key, now);
            &&& r.len() == nodes.len()
            &&& r.last() == refreshed(nodes[i], now)
            &&& forall|j: int| 0 <= j < nodes.len() && j != i ==> #[trigger] nodes[j] == r[if j < i {
                j
            } else {
                j - 1
            }]
        }),
{
    lemma_find_key(nodes, key);
}

/// Law: a node leaves a bucket on an insertion or a refresh only after its
/// eviction was requested (the node being pinged) and `node_evict_after`
/// elapsed without the node being seen again.
pub proof fn lemma_eviction_needs_check(m: BucketModel, cfg: BucketConfig, node: PeerNode, now: u64)
    requires
        keys_unique(m),
    ensures
        evictions_checked(m.nodes, spec_insert(m, cfg, node, now).0.nodes, cfg, now),
        evictions_checked(m.nodes, spec_refresh(m, cfg, node, now).0.nodes, cfg, now),
{
    let key = node.id.key();
    lemma_find_key(m.nodes, key);
    lemma_try_evict_checked(m, cfg, now);
    assert forall|j: int| 0 <= j < m.nodes.len() implies has_key(m.nodes, #[trigger] m.nodes[j].id.key()) by {}
    if find_key(m.nodes, key) is Some {
        let i = find_key(m.nodes, key)->0;
        lemma_refresh_node_unique(m.nodes, m.pending, key, now);
        lemma_refresh_node_shape(m.nodes, key, now);
        let m1 = BucketModel { nodes: spec_refresh_node(m.nodes, key, now), pending: m.pending };
        lemma_try_evict_checked(m1, cfg, now);
        let m2 = spec_try_evict(m1, cfg, now);
        assert forall|j: int|
            0 <= j < m.nodes.len() && !has_key(m2.nodes, #[trigger] m.nodes[j].id.key()) implies (
        m.nodes[j].eviction_status matches NodeEvictionStatus::Requested(t) && elapsed(now, t)
            >= cfg.node_evict_after) by {
            if j == i {
                let last = m1.nodes.len() - 1;
                assert(m1.nodes[last].id.key() == m.nodes[j].id.key());
                assert(!has_key(m2.nodes, m1.nodes[last].id.key()));
                assert(m1.nodes[last].eviction_status is NotRequested);
            } else {
                let jj = if j < i { j } else { j - 1 };
                assert(m1.nodes[jj] == m.nodes[j]);
            }
        }
    } else {
        let m2 = spec_try_evict(m, cfg, now);
        lemma_refresh_node_keys_kept(m2.nodes, key, now);
        assert forall|k: Seq<u8>| has_key(m2.nodes, k) implies has_key(m2.nodes.push(node), k) by {
            let j = choose|j: int| 0 <= j < m2.nodes.len() && #[trigger] m2.nodes[j].id.key() == k;
            assert(m2.nodes.push(node)[j] == m2.nodes[j]);
        }
    }
}

/// Law: inserting or refreshing a node keeps the keys of a bucket unique
/// (the nodes, and the pending node apart from them).
pub proof fn lemma_insert_keeps_unique(m: BucketModel, cfg: BucketConfig, node: PeerNode, now: u64)
    requires
        model_wf(m),
    ensures
        keys_unique(spec_insert(m, cfg, node, now).0),
        keys_unique(spec_refresh(m, cfg, node, now).0),
{
    let key = node.id.key();
    lemma_find_key(m.nodes, key);
    lemma_refresh_node_unique(m.nodes, m.pending, key, now);
    let m1 = BucketModel { nodes: spec_refresh_node(m.nodes, key, now), pending: m.pending };
    lemma_try_evict_unique(m1, cfg, now);
    lemma_try_evict_unique(m, cfg, now);
    if find_key(m.nodes, key) is None {
        let m2 = spec_try_evict(m, cfg, now);
        lemma_find_key(m2.nodes, key);
        lemma_refresh_node_unique(m2.nodes, m2.pending, key, now);
        if m2.nodes.len() < K_K {
            lemma_try_evict_short_keys(m, cfg, now);
            assert forall|a: int| 0 <= a < m2.nodes.len() implies #[trigger] m2.nodes[a].id.key() != key by {
                let j = choose|j: int| 0 <= j < m.nodes.len() && #[trigger] m.nodes[j].id.key() == m2.nodes[a].id.key();
                assert(m.nodes[j].id.key() != key);
            }
            let fin = m2.nodes.push(node);
            assert forall|a: int, b: int| 0 <= a < b < fin.len() implies #[trigger] fin[a].id.key()
                != #[trigger] fin[b].id.key() by {
                if b == fin.len() - 1 {
                    assert(m2.nodes[a].id.key() != key);
                } else {
                    assert(m2.nodes[a].id.key() != m2.nodes[b].id.key());
                }
            }
        }
    }
}

/// When the eviction step leaves a free slot, the pending node was not moved
/// in: every key comes from the nodes before.
proof fn lemma_try_evict_short_keys(m: BucketModel, cfg: BucketConfig, now: u64)
    requires
        model_wf(m),
        spec_try_evict(m, cfg, now).nodes.len() < K_K,
    ensures
        keys_from(spec_try_evict(m, cfg, now).nodes, m.nodes, None),
{
    let r = spec_try_evict(m, cfg, now);
    if m.nodes.len() < K_K {
        assert forall|a: int| 0 <= a < r.nodes.len() implies has_key(m.nodes, #[trigger] r.nodes[a].id.key()) by {
            assert(m.nodes[a] == r.nodes[a]);
        }
    } else {
        let rm = m.nodes.remove(0);
        assert forall|a: int| 0 <= a < r.nodes.len() implies has_key(m.nodes, #[trigger] r.nodes[a].id.key()) by {
            assert(r.nodes[a] == rm[a]);
            assert(m.nodes[a + 1] == rm[a]);
        }
    }
}

/// Law: after an insertion of `first` left it pending while the least
/// recently seen node `l` was flagged for eviction, and with no call in
/// between, inserting a new node once `node_evict_after` has elapsed since
/// `l` was flagged, the pending `first` being no longer alive, evicts `l`,
/// drops `first`, and inserts the node as the most recently seen one.
pub proof fn lemma_insert_after_expired_eviction(
    m: BucketModel,
    cfg: BucketConfig,
    first: PeerNode,
    t1: u64,
    node: PeerNode,
    t2: u64,
)
    requires
        model_wf(m),
        spec_insert(m, cfg, first, t1).1 is Pending,
        spec_pending_eviction(spec_insert(m, cfg, first, t1).0.nodes) matches Some(l) && l.eviction_status matches NodeEvictionStatus::Requested(t)
            && elapsed(t2, t) >= cfg.node_evict_after,
        !spec_is_alive(first, t2, cfg.node_ttl),
        valid_nonce(node.id.key(), node.id.nonce_bytes()),
        find_key(spec_insert(m, cfg, first, t1).0.nodes, node.id.key()) is None,
    ensures
        ({
            let m1 = spec_insert(m, cfg, first, t1).0;
            let step = spec_insert(m1, cfg, node, t2);
            &&& step.1 is Inserted
            &&& step.0.nodes == m1.nodes.remove(0).push(node)
            &&& step.0.pending is None
            &&& !has_key(step.0.nodes.drop_last(), m1.nodes[0].id.key())
        }),
{
    lemma_insert_keeps_wf(m, cfg, first, t1);
    let m1 = spec_insert(m, cfg, first, t1).0;
    assert(m1.pending == Some(first));
    assert(m1.nodes.len() == K_K);
    let rest = m1.nodes.remove(0);
    let step = spec_insert(m1, cfg, node, t2);
    assert(step.0.nodes.drop_last() =~= rest);
    if has_key(rest, m1.nodes[0].id.key()) {
        let j = choose|j: int| 0 <= j < rest.len() && #[trigger] rest[j].id.key() == m1.nodes[0].id.key();
        assert(rest[j] == m1.nodes[j + 1]);
        assert(m1.nodes[0].id.key() != m1.nodes[j + 1].id.key());
    }
}

/// Law: refreshing (or inserting again) a node whose key the bucket holds
/// marks that node seen at `now` and clears its eviction request: the
/// bucket then holds a node with that key, seen at `now`, not flagged, and
/// no node with that key seen earlier. The refreshed node is the most
/// recently seen one, save when the eviction step has just moved the
/// pending node in after it.
pub proof fn lemma_refresh_marks_seen(m: BucketModel, cfg: BucketConfig, node: PeerNode, now: u64)
    requires
        model_wf(m),
        valid_nonce(node.id.key(), node.id.nonce_bytes()),
        has_key(m.nodes, node.id.key()),
    ensures
        ({
            let key = node.id.key();
            let r = spec_refresh(m, cfg, node, now);
            let i = spec_insert(m, cfg, node, now);
            &&& r.1 is Updated && i.1 is Updated
            &&& r.0 == i.0
            &&& exists|j: int|
                0 <= j < r.0.nodes.len() && (#[trigger] r.0.nodes[j]).id.key() == key && r.0.nodes[j].seen_at == now
                    && r.0.nodes[j].eviction_status is NotRequested
            &&& forall|j: int|
                0 <= j < r.0.nodes.len() && (#[trigger] r.0.nodes[j]).id.key() == key ==> r.0.nodes[j].seen_at == now
            &&& r.0.nodes.len() > 0
            &&& (r.0.nodes.last().id.key() == key || (r.0.nodes.len() >= 2 && r.0.nodes[r.0.nodes.len() - 2].id.key()
                == key && m.pending == Some(r.0.nodes.last())))
        }),
{
    let key = node.id.key();
    lemma_find_key(m.nodes, key);
    let i = find_key(m.nodes, key)->0;
    lemma_refresh_node_shape(m.nodes, key, now);
    lemma_refresh_node_unique(m.nodes, m.pending, key, now);
    let m1 = BucketModel { nodes: spec_refresh_node(m.nodes, key, now), pending: m.pending };
    let fin = spec_try_evict(m1, cfg, now);
    lemma_try_evict_unique(m1, cfg, now);
    let last = m1.nodes.len() - 1;
    assert(m1.nodes[last].id.key() == key);
    assert(m1.nodes.len() >= 2 ==> last != 0);
    // The refreshed node, last, survives the eviction step, which touches
    // only the first node (of a full bucket, so not the last one).
    let jl = if m1.nodes.len() >= K_K && m1.nodes[0].eviction_status is Requested && elapsed(
        now,
        m1.nodes[0].eviction_status->Requested_0,
    ) >= cfg.node_evict_after {
        last - 1
    } else {
        last
    };
    if m1.nodes.len() >= K_K {
        assert(m1.nodes.remove(0)[last - 1] == m1.nodes[last]);
    }
    assert(fin.nodes[jl] == m1.nodes[last]);
    assert(m1.nodes[last] == refreshed(m.nodes[i], now));
    assert forall|j: int|
        0 <= j < fin.nodes.len() && (#[trigger] fin.nodes[j]).id.key() == key implies fin.nodes[j].seen_at == now by {
        if j != jl {
            if j < jl {
                assert(fin.nodes[j].id.key() != fin.nodes[jl].id.key());
            } else {
                assert(fin.nodes[jl].id.key() != fin.nodes[j].id.key());
            }
        }
    }
}

/// `r` holds min(`count`, |`nodes`|) of `nodes`, taken at distinct positions.
pub open spec fn is_pick(r: Seq<&PeerNode>, nodes: Seq<PeerNode>, count: nat) -> bool {
    &&& r.len() == if nodes.len() < count {
        nodes.len()
    } else {
        count
    }
    &&& exists|idx: Seq<int>|
        {
            &&& idx.len() == r.len()
            &&& idx.no_duplicates()
            &&& forall|k: int|
                0 <= k < idx.len() ==> 0 <= #[trigger] idx[k] < nodes.len() && *r[k] == nodes[idx[k]]
        }
}

/// The position of the first node with `key`.
fn position(nodes: &[PeerNode], key: &BinaryKey) -> (r: Option<usize>)
    ensures
        match r {
            Some(i) => find_key(nodes@, key@) == Some(i as int),
            None => find_key(nodes@, key@) is None,
        },
{
    proof {
        lemma_find_key(nodes@, key@);
    }
    let mut i: usize = 0;
    while i < nodes.len()
        invariant
            i <= nodes@.len(),
            forall|j: int| 0 <= j < i ==> #[trigger] nodes@[j].id.key() != key@,
        decreases nodes@.len() - i,
    {
        if keys_equal(nodes[i].id().as_binary(), key) {
            proof {
                lemma_find_key(nodes@, key@);
                match find_key(nodes@, key@) {
                    Some(k) => {
                        if k < i {
                            assert(nodes@[k].id.key() != key@);
                        }
                        if k > i {
                            assert(nodes@[i as int].id.key() != key@);
                        }
                    },
                    None => {
                        assert(nodes@[i as int].id.key() != key@);
                    },
                }
            }
            return Some(i);
        }
        i = i + 1;
    }
    None
}

/// A bucket of peers.
pub struct Bucket {
    nodes: ArrayVec<PeerNode, K_K>,
    pending_node: Option<PeerNode>,
    bucket_config: BucketConfig,
}

impl Bucket {
    /// The model of this bucket.
    pub closed spec fn model(&self) -> BucketModel {
        BucketModel { nodes: slots(self.nodes), pending: self.pending_node }
    }

    /// The configuration of this bucket.
    pub closed spec fn config(&self) -> BucketConfig {
        self.bucket_config
    }

    /// At most `K_K` nodes, a pending node only while the bucket is full,
    /// and no key held twice (among the nodes and the pending node).
    pub open spec fn wf(&self) -> bool {
        &&& self.model().nodes.len() <= K_K
        &&& self.model().pending is Some ==> self.model().nodes.len() == K_K
        &&& keys_unique(self.model())
    }

    /// Creates a new, empty `Bucket` with the given configuration.
    pub fn new(bucket_config: BucketConfig) -> (r: Self)
        ensures
            r.model() == (BucketModel { nodes: Seq::empty(), pending: None }),
            r.config() == bucket_config,
            r.wf(),
    {
        Bucket { nodes: slots_new(), pending_node: None, bucket_config }
    }

    /// Refreshes the node with `key` (if present), moving it to the end.
    fn refresh_node(&mut self, key: &BinaryKey, now: u64) -> (r: bool)
        ensures
            r == find_key(old(self).model().nodes, key@) is Some,
            final(self).model() == (BucketModel {
                nodes: spec_refresh_node(old(self).model().nodes, key@, now),
                pending: old(self).model().pending,
            }),
            final(self).config() == old(self).config(),
    {
        let idx = position(slots_as_slice(&self.nodes), key);
        match idx {
            None => false,
            Some(i) => {
                proof {
                    lemma_find_key(slots(self.nodes), key@);
                }
                match slots_pop_at(&mut self.nodes, i) {
                    Some(mut n) => {
                        n.refresh(now);
                        slots_push(&mut self.nodes, n);
                        true
                    },
                    None => false,
                }
            },
        }
    }

    /// Moves the pending node in if the bucket is not full and it is alive;
    /// drops it if it is dead.
    fn insert_pending(&mut self, now: u64)
        requires
            old(self).model().nodes.len() <= K_K,
        ensures
            final(self).model() == spec_insert_pending(old(self).model(), old(self).config(), now),
            final(self).config() == old(self).config(),
    {
        if slots_is_full(&self.nodes) {
            return ;
        }
        if let Some(pending) = self.pending_node.take() {
            if pending.is_alive(now, self.bucket_config.node_ttl) {
                slots_push(&mut self.nodes, pending);
            }
        }
    }

    /// If the bucket is full, flags the least recently seen node for
    /// eviction, or, when its request is old enough, evicts it and moves the
    /// pending node in. Returns the candidate for eviction (if any).
    fn try_perform_eviction(&mut self, now: u64) -> (r: Option<&PeerNode>)
        requires
            old(self).model().nodes.len() <= K_K,
        ensures
            final(self).model() == spec_try_evict(old(self).model(), old(self).config(), now),
            final(self).config() == old(self).config(),
            ref_opt_is(r, spec_eviction_candidate(old(self).model(), old(self).config(), now)),
    {
        if !slots_is_full(&self.nodes) {
            return None;
        }
        let status = slots_as_slice(&self.nodes)[0].eviction_status;
        match status {
            NodeEvictionStatus::Requested(instant) => {
                if elapsed_millis(now, instant) < self.bucket_config.node_evict_after {
                    let s = slots_as_slice(&self.nodes);
                    Some(&s[0])
                } else {
                    let _ = slots_pop_at(&mut self.nodes, 0);
                    self.insert_pending(now);
                    None
                }
            },
            NodeEvictionStatus::NotRequested => {
                if slots_as_slice(&self.nodes)[0].is_alive(now, self.bucket_config.node_ttl) {
                    None
                } else {
                    let ghost before = slots(self.nodes);
                    match slots_pop_at(&mut self.nodes, 0) {
                        Some(mut first) => {
                            first.flag_for_check(now);
                            slots_insert(&mut self.nodes, 0, first);
                            assert(slots(self.nodes) =~= before.update(0, flagged(before[0], now)));
                        },
                        None => {},
                    }
                    let s = slots_as_slice(&self.nodes);
                    Some(&s[0])
                }
            },
        }
    }

    /// Returns the least recently seen node if it is flagged for eviction.
    fn pending_eviction_node(&self) -> (r: Option<&PeerNode>)
        ensures
            ref_opt_is(r, spec_pending_eviction(self.model().nodes)),
    {
        let s = slots_as_slice(&self.nodes);
        if s.len() > 0 {
            match s[0].eviction_status {
                NodeEvictionStatus::NotRequested => None,
                NodeEvictionStatus::Requested(_) => Some(&s[0]),
            }
        } else {
            None
        }
    }

    /// What inserting (or refreshing) `node` into a bucket at `now` does:
    /// the model goes from `pre` to `post` and `r` is returned.
    pub open spec fn update_at_is(
        pre: Bucket,
        post: Bucket,
        r: Result<InsertOk, InsertError>,
        node: PeerNode,
        now: u64,
        refresh: bool,
    ) -> bool {
        let step = if refresh {
            spec_refresh(pre.model(), pre.config(), node, now)
        } else {
            spec_insert(pre.model(), pre.config(), node, now)
        };
        &&& post.model() =~= step.0
        &&& insert_result_is(r, step.1, post.model(), node, refresh)
    }

    /// Tries to insert a node, seen now (the wall clock is read), and returns
    /// the result (see `insert_at`).
    pub fn insert(&mut self, node: PeerNode) -> (r: Result<InsertOk<'_>, InsertError>)
        requires
            old(self).wf(),
        ensures
            final(self).wf(),
            final(self).config() == old(self).config(),
            exists|now: u64| Self::update_at_is(*old(self), *final(self), r, node, now, false),
    {
        let now = now_millis();
        self.insert_at(node, now)
    }

    /// Tries to refresh a node, seen now (the wall clock is read), and returns
    /// the result (see `refresh_at`).
    pub fn refresh(&mut self, node: PeerNode) -> (r: Result<InsertOk<'_>, InsertError>)
        requires
            old(self).wf(),
        ensures
            final(self).wf(),
            final(self).config() == old(self).config(),
            exists|now: u64| Self::update_at_is(*old(self), *final(self), r, node, now, true),
    {
        let now = now_millis();
        self.refresh_at(node, now)
    }

    /// Tries to insert a node at `now` and returns the result (see
    /// `spec_insert`).
    pub fn insert_at(&mut self, node: PeerNode, now: u64) -> (r: Result<InsertOk<'_>, InsertError>)
        requires
            old(self).wf(),
        ensures
            final(self).wf(),
            final(self).config() == old(self).config(),
            Self::update_at_is(*old(self), *final(self), r, node, now, false),
    {
        proof {
            lemma_insert_keeps_wf(self.model(), self.config(), node, now);
            lemma_refresh_node_len(self.model().nodes, node.id.key(), now);
            lemma_evict_keeps_wf(self.model(), self.config(), now);
        }
        if !node.id().verify_nonce() {
            return Err(NodeInsertError::Invalid(node));
        }
        if self.refresh_node(node.id().as_binary(), now) {
            let _ = self.try_perform_eviction(now);
            let s = slots_as_slice(&self.nodes);
            assert(s@.len() > 0);
            return Ok(
                NodeInsertOk::Updated {
                    pending_eviction: self.pending_eviction_node(),
                    updated: &s[s.len() - 1],
                },
            );
        }
        let _ = self.try_perform_eviction(now);
        if !slots_is_full(&self.nodes) {
            slots_push(&mut self.nodes, node);
            let s = slots_as_slice(&self.nodes);
            return Ok(NodeInsertOk::Inserted { inserted: &s[s.len() - 1] });
        }
        if slots_as_slice(&self.nodes)[0].is_alive(now, self.bucket_config.node_ttl) {
            Err(NodeInsertError::Full(node))
        } else if self.refresh_node(node.id().as_binary(), now) {
            let s = slots_as_slice(&self.nodes);
            Ok(
                NodeInsertOk::Updated {
                    pending_eviction: self.pending_eviction_node(),
                    updated: &s[s.len() - 1],
                },
            )
        } else {
            self.pending_node = Some(node);
            match &self.pending_node {
                Some(p) => Ok(
                    NodeInsertOk::Pending {
                        pending_insert: p,
                        pending_eviction: self.pending_eviction_node(),
                    },
                ),
                None => Ok(NodeInsertOk::NoAction),
            }
        }
    }

    /// Tries to refresh a node at `now`.
    pub fn refresh_at(&mut self, node: PeerNode, now: u64) -> (r: Result<InsertOk<'_>, InsertError>)
        requires
            old(self).wf(),
        ensures
            final(self).wf(),
            final(self).config() == old(self).config(),
            Self::update_at_is(*old(self), *final(self), r, node, now, true),
    {
        proof {
            lemma_insert_keeps_wf(self.model(), self.config(), node, now);
            lemma_refresh_node_len(self.model().nodes, node.id.key(), now);
        }
        if !node.id().verify_nonce() {
            return Err(NodeInsertError::Invalid(node));
        }
        if !self.refresh_node(node.id().as_binary(), now) {
            return Ok(NodeInsertOk::NoAction);
        }
        let _ = self.try_perform_eviction(now);
        let s = slots_as_slice(&self.nodes);
        Ok(
            NodeInsertOk::Updated {
                pending_eviction: self.pending_eviction_node(),
                updated: &s[s.len() - 1],
            },
        )
    }

    /// Returns the peers in the bucket, least recently seen first.
    pub fn peers(&self) -> (r: &[PeerNode])
        ensures
            r@ == self.model().nodes,
    {
        slots_as_slice(&self.nodes)
    }

    /// The least recently seen node was seen more than `bucket_ttl` before
    /// `now`.
    pub fn has_idle(&self, now: u64) -> (r: bool)
        ensures
            r == (self.model().nodes.len() > 0 && elapsed(now, self.model().nodes[0].seen_at)
                > self.config().bucket_ttl),
    {
        let s = slots_as_slice(&self.nodes);
        if s.len() == 0 {
            false
        } else {
            elapsed_millis(now, s[0].seen_at) > self.bucket_config.bucket_ttl
        }
    }

    /// Removes the nodes not alive at `now`, then moves the pending node in.
    pub fn remove_idle_nodes(&mut self, now: u64)
        requires
            old(self).wf(),
        ensures
            final(self).wf(),
            final(self).config() == old(self).config(),
            final(self).model() == spec_insert_pending(
                BucketModel {
                    nodes: liveness_filter(old(self).model().nodes, now, old(self).config().node_ttl, true),
                    pending: old(self).model().pending,
                },
                old(self).config(),
                now,
            ),
    {
        let ttl = self.bucket_config.node_ttl;
        slots_retain_alive(&mut self.nodes, now, ttl);
        proof {
            let old_nodes = old(self).model().nodes;
            old_nodes.lemma_filter_len(|n: PeerNode| spec_is_alive(n, now, ttl) == true);
            lemma_liveness_filter_unique(old(self).model(), now, ttl);
            lemma_insert_pending_unique(
                BucketModel { nodes: liveness_filter(old_nodes, now, ttl, true), pending: old(self).model().pending },
                old(self).config(),
                now,
            );
        }
        self.insert_pending(now);
    }

    /// The nodes alive at `now`, in bucket order.
    pub fn alive_nodes(&self, now: u64) -> (r: Vec<&PeerNode>)
        ensures
            r@.map_values(|x: &PeerNode| *x) == liveness_filter(self.model().nodes, now, self.config().node_ttl, true),
    {
        self.select_nodes(now, true)
    }

    /// The nodes not alive at `now`, in bucket order.
    pub fn idle_nodes(&self, now: u64) -> (r: Vec<&PeerNode>)
        ensures
            r@.map_values(|x: &PeerNode| *x) == liveness_filter(self.model().nodes, now, self.config().node_ttl, false),
    {
        self.select_nodes(now, false)
    }

    fn select_nodes(&self, now: u64, alive: bool) -> (r: Vec<&PeerNode>)
        ensures
            r@.map_values(|x: &PeerNode| *x) == liveness_filter(self.model().nodes, now, self.config().node_ttl, alive),
    {
        let ttl = self.bucket_config.node_ttl;
        let ghost pred = |n: PeerNode| spec_is_alive(n, now, ttl) == alive;
        let s = slots_as_slice(&self.nodes);
        let mut r: Vec<&PeerNode> = Vec::new();
        let mut i: usize = 0;
        assert(s@.take(0).filter(pred) =~= Seq::<PeerNode>::empty());
        while i < s.len()
            invariant
                i <= s@.len(),
                ttl == self.config().node_ttl,
                pred == (|n: PeerNode| spec_is_alive(n, now, ttl) == alive),
                s@ == self.model().nodes,
                r@.map_values(|x: &PeerNode| *x) == s@.take(i as int).filter(pred),
            decreases s@.len() - i,
        {
            let ghost before = r@;
            proof {
                let t = s@.take(i + 1);
                assert(t =~= s@.take(i as int).push(s@[i as int]));
                s@.take(i as int).lemma_filter_push(s@[i as int], pred);
            }
            if s[i].is_alive(now, ttl) == alive {
                r.push(&s[i]);
                assert(r@.map_values(|x: &PeerNode| *x) =~= before.map_values(|x: &PeerNode| *x).push(s@[i as int]));
            }
            i = i + 1;
        }
        assert(s@.take(s@.len() as int) =~= s@);
        r
    }

    /// Checks if the bucket contains a node with the given key.
    pub fn has_node(&self, peer: &BinaryKey) -> (r: bool)
        ensures
            r == find_key(self.model().nodes, peer@) is Some,
    {
        position(slots_as_slice(&self.nodes), peer).is_some()
    }

    /// Checks if the bucket is full.
    pub fn is_full(&self) -> (r: bool)
        ensures
            r == (self.model().nodes.len() == K_K),
    {
        slots_is_full(&self.nodes)
    }

    /// Removes the node with the given key; then moves the pending node in if
    /// it is alive (a dead one is dropped). Returns the removed node.
    pub fn remove_id(&mut self, id: &BinaryKey, now: u64) -> (r: Option<PeerNode>)
        requires
            old(self).wf(),
        ensures
            final(self).wf(),
            final(self).config() == old(self).config(),
            match find_key(old(self).model().nodes, id@) {
                None => r is None && final(self).model() == old(self).model(),
                Some(i) => r == Some(old(self).model().nodes[i]) && final(self).model()
                    == spec_insert_pending(
                    BucketModel {
                        nodes: old(self).model().nodes.remove(i),
                        pending: old(self).model().pending,
                    },
                    old(self).config(),
                    now,
                ),
            },
    {
        let node_idx = match position(slots_as_slice(&self.nodes), id) {
            Some(i) => i,
            None => return None,
        };
        proof {
            lemma_find_key(slots(self.nodes), id@);
            let rm = BucketModel { nodes: self.model().nodes.remove(node_idx as int), pending: self.model().pending };
            lemma_remove_at_unique(self.model(), node_idx as int);
            lemma_insert_pending_unique(rm, self.config(), now);
        }
        let removed = slots_pop_at(&mut self.nodes, node_idx);
        if let Some(pending) = self.pending_node.take() {
            if pending.is_alive(now, self.bucket_config.node_ttl) {
                slots_push(&mut self.nodes, pending);
            }
        }
        removed
    }

    /// Picks at most `ITEM_COUNT` random nodes from this bucket, each at most
    /// once.
    pub fn pick<const ITEM_COUNT: usize>(&self) -> (r: Vec<&PeerNode>)
        ensures
            is_pick(r@, self.model().nodes, ITEM_COUNT as nat),
    {
        let s = slots_as_slice(&self.nodes);
        let mut idxs: Vec<usize> = Vec::new();
        let mut i: usize = 0;
        while i < s.len()
            invariant
                i <= s@.len(),
                idxs@.len() == i,
                forall|k: int| 0 <= k < i ==> #[trigger] idxs@[k] == k,
            decreases s@.len() - i,
        {
            idxs.push(i);
            i = i + 1;
        }
        proof {
            assert(idxs@.no_duplicates());
            idxs@.lemma_multiset_has_no_duplicates();
        }
        let ghost before = idxs@;
        let mut rng = thread_rng();
        shuffle(&mut idxs, &mut rng);
        proof {
            broadcast use vstd::seq_lib::group_to_multiset_ensures;
            assert forall|x: usize| idxs@.to_multiset().contains(x) implies idxs@.to_multiset().count(x) == 1 by {
                assert(before.to_multiset().contains(x));
            }
            idxs@.lemma_multiset_has_no_duplicates_conv();
            assert forall|k: int| 0 <= k < idxs@.len() implies #[trigger] idxs@[k] < s@.len() by {
                assert(idxs@.to_multiset().count(idxs@[k]) > 0);
                assert(before.contains(idxs@[k]));
            }
        }
        let mut r: Vec<&PeerNode> = Vec::new();
        let mut j: usize = 0;
        while j < idxs.len() && j < ITEM_COUNT
            invariant
                j <= idxs@.len(),
                j <= ITEM_COUNT,
                idxs@.len() == s@.len(),
                s@ == self.model().nodes,
                idxs@.no_duplicates(),
                forall|k: int| 0 <= k < idxs@.len() ==> #[trigger] idxs@[k] < s@.len(),
                r@.len() == j,
                forall|k: int| 0 <= k < j ==> *#[trigger] r@[k] == s@[idxs@[k] as int],
            decreases idxs@.len() - j,
        {
            r.push(&s[idxs[j]]);
            j = j + 1;
        }
        let ghost idx = idxs@.take(j as int).map_values(|x: usize| x as int);
        assert(idx.len() == r@.len());
        assert forall|k: int| 0 <= k < idx.len() implies 0 <= #[trigger] idx[k] < self.model().nodes.len()
            && *r@[k] == self.model().nodes[idx[k]] by {
            assert(idxs@[k] < s@.len());
        }
        assert(idx.no_duplicates()) by {
            assert forall|a: int, b: int| 0 <= a < idx.len() && 0 <= b < idx.len() && a != b implies idx[a] != idx[b] by {
                assert(idxs@[a] != idxs@[b]);
            }
        }
        assert(r@.len() == if self.model().nodes.len() < ITEM_COUNT {
            self.model().nodes.len()
        } else {
            ITEM_COUNT as nat
        });
        r
    }
}

} // verus!
