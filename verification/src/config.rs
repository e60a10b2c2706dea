//! Configuration of a Kadcast peer. Durations are in milliseconds.
use vstd::prelude::*;

use crate::transport::encoding::raptorq::decoder::RaptorQDecoderConf;
use crate::transport::encoding::raptorq::encoder::RaptorQEncoderConf;
use crate::transport::encoding::{Configurable, TransportDecoder, TransportEncoder};

verus! {

/// Default value while a node is considered alive (no eviction will be
/// requested).
pub const BUCKET_DEFAULT_NODE_TTL_MILLIS: u64 = 30000;

/// Default value after which a node can be evicted if requested.
pub const BUCKET_DEFAULT_NODE_EVICT_AFTER_MILLIS: u64 = 5000;

/// Default value after which a bucket is considered idle.
pub const BUCKET_DEFAULT_TTL_SECS: u64 = 3600;

/// Default minimum peers required for network integration without
/// bootstrapping.
pub const DEFAULT_MIN_PEERS_FOR_INTEGRATION: usize = 3;

/// Default behaviour for propagation of incoming broadcast messages.
pub const ENABLE_BROADCAST_PROPAGATION: bool = true;

/// Default internal channel size.
pub const DEFAULT_CHANNEL_SIZE: usize = 1000;

/// Default number of attempts to send a datagram.
pub const DEFAULT_SEND_RETRY_COUNT: u8 = 3;

/// Default pause (ms) between two attempts to send a datagram.
pub const DEFAULT_SEND_RETRY_SLEEP_MILLIS: u64 = 5;

/// Default period (s) of the blocklist refresh.
pub const DEFAULT_BLOCKLIST_REFRESH_SECS: u64 = 10;

/// Default announced version.
pub const DEFAULT_VERSION: &'static str = "0.0.1";

/// Default accepted versions.
pub const DEFAULT_VERSION_MATCH: &'static str = "*";

/// The default announced version.
pub fn default_version() -> (r: String)
    ensures
        r@ == DEFAULT_VERSION@,
{
    DEFAULT_VERSION.to_owned()
}

/// The default accepted versions.
pub fn default_version_match() -> (r: String)
    ensures
        r@ == DEFAULT_VERSION_MATCH@,
{
    DEFAULT_VERSION_MATCH.to_owned()
}

/// Bucket configuration.
#[derive(Debug, Copy, Clone, PartialEq, Eq)]
pub struct BucketConfig {
    /// Maximum duration (ms) for a node to be considered alive (no eviction
    /// will be requested).
    pub node_ttl: u64,
    /// Duration (ms) after which a node can be evicted if requested.
    pub node_evict_after: u64,
    /// Duration (ms) after which a bucket is considered idle.
    pub bucket_ttl: u64,
    /// Minimum number of nodes at which bootstrapping is not required.
    pub min_peers: usize,
}

/// The default minimum number of peers.
pub fn default_min_peers() -> (r: usize)
    ensures
        r == DEFAULT_MIN_PEERS_FOR_INTEGRATION,
{
    DEFAULT_MIN_PEERS_FOR_INTEGRATION
}

impl Default for BucketConfig {
    fn default() -> (r: Self)
        ensures
            r == (BucketConfig {
                node_ttl: BUCKET_DEFAULT_NODE_TTL_MILLIS,
                node_evict_after: BUCKET_DEFAULT_NODE_EVICT_AFTER_MILLIS,
                bucket_ttl: 3_600_000,
                min_peers: DEFAULT_MIN_PEERS_FOR_INTEGRATION,
            }),
    {
        BucketConfig {
            node_evict_after: BUCKET_DEFAULT_NODE_EVICT_AFTER_MILLIS,
            node_ttl: BUCKET_DEFAULT_NODE_TTL_MILLIS,
            bucket_ttl: BUCKET_DEFAULT_TTL_SECS * 1000,
            min_peers: default_min_peers(),
        }
    }
}

/// Network configuration.
#[derive(Debug, Copy, Clone, PartialEq, Eq)]
pub struct NetworkConfig {
    /// Receive buffer size requested for the UDP socket.
    pub udp_recv_buffer_size: Option<usize>,
    /// Pause (ms) between two sent datagrams.
    pub udp_send_backoff_timeout: Option<u64>,
    /// Pause (ms) between two attempts to send a datagram.
    pub udp_send_retry_interval: u64,
    /// Number of attempts to send a datagram.
    pub udp_send_retry_count: u8,
    /// Period (ms) of the blocklist refresh.
    pub blocklist_refresh_interval: u64,
}

impl Default for NetworkConfig {
    fn default() -> (r: Self)
        ensures
            r == (NetworkConfig {
                udp_recv_buffer_size: Some(5_000_000),
                udp_send_backoff_timeout: None,
                udp_send_retry_interval: DEFAULT_SEND_RETRY_SLEEP_MILLIS,
                udp_send_retry_count: DEFAULT_SEND_RETRY_COUNT,
                blocklist_refresh_interval: 10_000,
            }),
    {
        NetworkConfig {
            udp_recv_buffer_size: Some(5_000_000),
            udp_send_backoff_timeout: None,
            udp_send_retry_interval: DEFAULT_SEND_RETRY_SLEEP_MILLIS,
            udp_send_retry_count: DEFAULT_SEND_RETRY_COUNT,
            blocklist_refresh_interval: DEFAULT_BLOCKLIST_REFRESH_SECS * 1000,
        }
    }
}

/// Forward error correction configuration.
#[derive(Debug, Copy, Clone, PartialEq, Eq)]
pub struct FECConfig {
    pub encoder: RaptorQEncoderConf,
    pub decoder: RaptorQDecoderConf,
}

impl Default for FECConfig {
    fn default() -> (r: Self)
        ensures
            r.encoder == RaptorQEncoderConf::spec_default(),
            r.decoder == RaptorQDecoderConf::spec_default(),
    {
        FECConfig {
            encoder: TransportEncoder::default_configuration(),
            decoder: TransportDecoder::default_configuration(),
        }
    }
}

/// Configuration of a Kadcast peer.
#[derive(Debug, Clone)]
pub struct Config {
    /// Network id; `None` stands for network 0.
    pub kadcast_id: Option<u8>,
    /// Public address of the peer; no domain name allowed.
    pub public_address: String,
    /// Optional address to bind for incoming connections.
    pub listen_address: Option<String>,
    /// Known bootstrapping nodes (domain names allowed).
    pub bootstrapping_nodes: Vec<String>,
    /// Automatic propagation of incoming broadcast messages.
    pub auto_propagate: bool,
    /// Size of the internal channels.
    pub channel_size: usize,
    /// Answer a `Nodes` message with `FindNodes` (otherwise with `Ping`).
    pub recursive_discovery: bool,
    /// Buckets configuration.
    pub bucket: BucketConfig,
    /// Network configuration.
    pub network: NetworkConfig,
    /// FEC configuration.
    pub fec: FECConfig,
    /// Announced version.
    pub version: String,
    /// Accepted versions (a semver requirement).
    pub version_match: String,
}

impl Default for Config {
    fn default() -> (r: Self)
        ensures
            r.public_address@ == "127.0.0.1:9000"@,
            r.kadcast_id is None,
            r.listen_address is None,
            r.bootstrapping_nodes@.len() == 0,
            r.auto_propagate == ENABLE_BROADCAST_PROPAGATION,
            r.channel_size == DEFAULT_CHANNEL_SIZE,
            r.recursive_discovery,
            r.bucket.node_ttl == BUCKET_DEFAULT_NODE_TTL_MILLIS,
            r.bucket.node_evict_after == BUCKET_DEFAULT_NODE_EVICT_AFTER_MILLIS,
            r.bucket.bucket_ttl == 3_600_000,
            r.bucket.min_peers == DEFAULT_MIN_PEERS_FOR_INTEGRATION,
            r.network.udp_recv_buffer_size == Some(5_000_000usize),
            r.network.udp_send_backoff_timeout is None,
            r.network.udp_send_retry_interval == DEFAULT_SEND_RETRY_SLEEP_MILLIS,
            r.network.udp_send_retry_count == DEFAULT_SEND_RETRY_COUNT,
            r.network.blocklist_refresh_interval == 10_000,
            r.fec.encoder == RaptorQEncoderConf::spec_default(),
            r.fec.decoder == RaptorQDecoderConf::spec_default(),
            r.version@ == DEFAULT_VERSION@,
            r.version_match@ == DEFAULT_VERSION_MATCH@,
    {
        Config {
            public_address: "127.0.0.1:9000".to_owned(),
            kadcast_id: None,
            listen_address: None,
            bootstrapping_nodes: Vec::new(),
            auto_propagate: ENABLE_BROADCAST_PROPAGATION,
            channel_size: DEFAULT_CHANNEL_SIZE,
            recursive_discovery: true,
            network: NetworkConfig::default(),
            bucket: BucketConfig::default(),
            fec: FECConfig::default(),
            version: default_version(),
            version_match: default_version_match(),
        }
    }
}

} // verus!
