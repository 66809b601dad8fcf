//! Ordered dispatch of work between lanes: the rings that carry descriptors, the payload slots
//! that travel with them, and the owner, dispatcher and ingress rules.

pub mod config;
pub mod dispatch;
pub mod ring;
