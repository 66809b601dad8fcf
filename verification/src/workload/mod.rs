//! Workloads that write numbered pages to a volume and look for every one of them afterwards.
pub mod command;
pub mod cutover;
pub mod page;
pub mod plan;
