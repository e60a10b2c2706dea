//! Kadcast: a structured peer-to-peer broadcast overlay (Kademlia routing
//! tables, binary wire encoding and the decisions of the message handler).
use vstd::prelude::*;

pub mod clock;
pub mod config;
pub mod encoding;
pub mod handling;
pub mod hashing;
pub mod kbucket;
pub mod maintainer;
pub mod peer;
pub mod random;
pub mod sorting;
pub mod transport;
pub mod utils;
pub mod versioning;

verus! {

/// Max amount of nodes a bucket should contain.
pub const K_K: usize = 20;

/// Length in bytes of a peer identifier.
pub const K_ID_LEN_BYTES: usize = 16;

/// Length in bytes of the proof-of-work nonce of an identifier.
pub const K_NONCE_LEN: usize = 4;

/// Minimum number of trailing zero bits an identifier digest must show.
pub const K_DIFF_MIN_BIT: usize = 8;

/// Number of trailing zero bits produced when generating an identifier.
pub const K_DIFF_PRODUCED_BIT: usize = 8;

/// Largest UDP datagram handled.
pub const MAX_DATAGRAM_SIZE: usize = 65_507;

/// Redundancy factor for lookup.
pub const K_ALPHA: usize = 3;

/// Redundancy factor for broadcast.
pub const K_BETA: usize = 3;

} // verus!
