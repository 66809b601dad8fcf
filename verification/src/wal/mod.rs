//! A write-ahead log that combines writes into extents and reduces them into a block store.

pub mod arena;
pub mod combiner;
pub mod config;
pub mod lane;
pub mod run;
