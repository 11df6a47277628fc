//! What the node keeps of its peers.

use vstd::prelude::*;

verus! {

/// A peer as the node knows it.
#[derive(Debug)]
pub struct PeerInfo {
    pub peer_id: String,
    pub address: String,
    pub connected_at: u64,
    pub last_seen: u64,
    pub version: String,
    pub height: u64,
    pub ping_ms: Option<u64>,
    pub is_outbound: bool,
}

/// Counts of what went over the network.
#[derive(Debug)]
pub struct NetworkStats {
    pub peer_count: usize,
    pub connected_peers: Vec<PeerInfo>,
    pub blocks_received: u64,
    pub blocks_sent: u64,
    pub transactions_received: u64,
    pub transactions_sent: u64,
    pub bytes_received: u64,
    pub bytes_sent: u64,
    pub uptime_seconds: u64,
}

} // verus!
