//! Message payloads: node lists and broadcast frames.
use vstd::prelude::*;

pub mod broadcast;
pub mod nodes;

pub use broadcast::BroadcastPayload;
pub use nodes::{IpInfo, NodePayload, PeerEncodedInfo};

verus! {

} // verus!
