//! A routing-table entry: an identifier, a value, and liveness information.
use vstd::prelude::*;

use super::key::{spec_distance, BinaryID};
use super::BucketHeight;
use crate::clock::{elapsed, elapsed_millis, now_millis};

verus! {

/// An enumeration representing the eviction status of a node.
#[derive(Debug, PartialEq, Eq, Clone, Copy)]
pub enum NodeEvictionStatus {
    /// No eviction was requested.
    NotRequested,
    /// Eviction was requested at the given time (milliseconds).
    Requested(u64),
}

/// A node in the network with an associated ID, value, and eviction status.
/// Times are in milliseconds.
#[derive(Debug, PartialEq, Eq)]
pub struct Node<TValue> {
    pub id: BinaryID,
    pub value: TValue,
    pub eviction_status: NodeEvictionStatus,
    pub seen_at: u64,
    pub network_id: u8,
}

/// The node was seen less than `ttl` milliseconds before `now`.
pub open spec fn spec_is_alive<V>(n: Node<V>, now: u64, ttl: u64) -> bool {
    elapsed(now, n.seen_at) < ttl
}

impl<TValue> Node<TValue> {
    /// A node seen at `now` with no eviction requested.
    pub open spec fn new_spec(id: BinaryID, value: TValue, network_id: u8, now: u64) -> Node<TValue> {
        Node { id, value, eviction_status: NodeEvictionStatus::NotRequested, seen_at: now, network_id }
    }

    /// Creates a new node with the provided ID, value, and network ID, seen
    /// now (the wall clock is read).
    pub fn new(id: BinaryID, value: TValue, network_id: u8) -> (r: Self)
        ensures
            exists|now: u64| r == Self::new_spec(id, value, network_id, now),
    {
        Self::new_at(id, value, network_id, now_millis())
    }

    /// Creates a new node with the provided ID, value, and network ID, seen at
    /// `now`.
    pub fn new_at(id: BinaryID, value: TValue, network_id: u8, now: u64) -> (r: Self)
        ensures
            r == Self::new_spec(id, value, network_id, now),
    {
        Node { id, value, seen_at: now, eviction_status: NodeEvictionStatus::NotRequested, network_id }
    }

    /// Calculates the distance between this node and another node in the
    /// network.
    pub fn calculate_distance(&self, other: &Node<TValue>) -> (r: Option<BucketHeight>)
        ensures
            r == spec_distance(self.id.key(), other.id.key()),
            r is Some ==> r->0 < 128,
    {
        self.id.calculate_distance(other.id.as_binary())
    }

    /// Returns the ID of the node.
    pub fn id(&self) -> (r: &BinaryID)
        ensures
            *r == self.id,
    {
        &self.id
    }

    /// Returns the value associated with the node.
    pub fn value(&self) -> (r: &TValue)
        ensures
            *r == self.value,
    {
        &self.value
    }

    /// Refreshes the last seen time to `now` and clears the eviction status.
    pub fn refresh(&mut self, now: u64)
        ensures
            *final(self) == (Node {
                eviction_status: NodeEvictionStatus::NotRequested,
                seen_at: now,
                ..*old(self)
            }),
    {
        self.eviction_status = NodeEvictionStatus::NotRequested;
        self.seen_at = now;
    }

    /// Flags the node for an eviction check requested at `now`.
    pub fn flag_for_check(&mut self, now: u64)
        ensures
            *final(self) == (Node { eviction_status: NodeEvictionStatus::Requested(now), ..*old(self) }),
    {
        self.eviction_status = NodeEvictionStatus::Requested(now);
    }

    /// Checks if the node has been seen less than `duration` milliseconds
    /// before `now`.
    pub fn is_alive(&self, now: u64, duration: u64) -> (r: bool)
        ensures
            r == spec_is_alive(*self, now, duration),
    {
        elapsed_millis(now, self.seen_at) < duration
    }
}

} // verus!
