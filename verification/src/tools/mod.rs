//! The decisions of the small tools.
pub mod capacity;
pub mod contract;
pub mod detect;
pub mod migratectl;
pub mod mirror;
pub mod ofi_volume;
pub mod readview;
