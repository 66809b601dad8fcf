//! A placement-free vhost-user block device: requests, guest memory, queues, configuration.

pub mod config;
pub mod lane;
pub mod options;
pub mod queue;
pub mod regions;
pub mod request;
pub mod stage;
pub mod worker;
