//! Decision engine of a blockDAG healing daemon: a bounded window over the
//! most recent blocks, detection of fractures in it, and the controller that
//! decides when a stitch is worth a reward.

pub mod config;
pub mod block;
pub mod graph;
pub mod model;
pub mod fracture;
pub mod dag;
pub mod chain;
pub mod adaptive;
pub mod healing;
pub mod rate;
pub mod orchestrator;
