//! Replica nodes of a volume: their data set, its write-ahead log, snapshots and
//! point-in-time recovery, and the scenario that drives a topology through failures.

pub mod dataset;
pub mod node;
pub mod recovery;
pub mod scenario;
