//! A placement-free iSCSI target for volumes of 4 KiB blocks: protocol data units, login,
//! SCSI commands, sessions and lanes.

pub mod backend;
pub mod connection;
pub mod fan;
pub mod header;
pub mod keys;
pub mod lane;
pub mod login;
pub mod options;
pub mod scsi;
pub mod sessions;
pub mod writer;
