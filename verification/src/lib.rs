//! Decision logic of a userspace block-storage toolkit.
//!
//! Every module states its behaviour in contracts over mathematical models
//! (sequences of bytes and characters, maps, unbounded integers) and proves them.
pub mod arena_io;
pub mod args;
pub mod bytes;
pub mod continuity;
pub mod cpus;
pub mod error;
pub mod gateway;
pub mod iscsi;
pub mod live;
pub mod migration;
pub mod order;
pub mod pit;
pub mod pwal;
pub mod random;
pub mod repl;
pub mod secret;
pub mod switches;
pub mod text;
pub mod textmap;
pub mod tools;
pub mod topology;
pub mod vhost;
pub mod wal;
pub mod workload;
