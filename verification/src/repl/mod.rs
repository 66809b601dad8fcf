//! Replication of volumes: what is asked for, what is sent and what is answered.
pub mod commands;
pub mod fields;
pub mod limit;
pub mod options;
