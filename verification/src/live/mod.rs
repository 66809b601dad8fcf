//! The live benchmark of a partitioned volume: how it is set up, where its threads run, and what they do.
pub mod config;
pub mod placement;
pub mod run;
