//! The daemon's settings.

use vstd::prelude::*;

verus! {

/// The settings that are read once at startup.
#[derive(Debug, Clone)]
pub struct Config {
    /// Ledger node endpoint.
    pub rpc_url: String,
    /// Port that the peer transport binds.
    pub p2p_port: u16,
    /// Seed peers of the peer transport.
    pub p2p_bootstrap_peers: Vec<String>,
    /// Whether the controller adapts its thresholds.
    pub adaptive: bool,
    /// Baseline of the smallest weight delta that is worth a stitch.
    pub base_min_delta: u64,
    /// Baseline of the seconds between two stitches.
    pub base_rate_limit: u64,
    /// The reward for the least suspicious stitch, in sompi.
    pub base_reward_sompi: u64,
    /// The reward for the most suspicious stitch, in sompi.
    pub max_reward_sompi: u64,
    /// The fewest seconds between two stitches, whatever the adaptation.
    pub min_rate_limit: u64,
    /// Capacity of the window of recent blocks.
    pub dag_window: usize,
}

} // verus!
