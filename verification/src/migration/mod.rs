//! The migration of blocks between leaves of different speed while they are written.
pub mod leaf;
pub mod scenario;
