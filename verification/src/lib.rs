//! Typed, verified access to block devices as exposed by a sysfs-like
//! pseudo-filesystem.
//!
//! The pseudo-filesystem itself is an external capability: callers capture the
//! directories and small text files of `<root>/class/block/...` in a [`fs::SysFs`]
//! value and hand it to the library.  Everything built on top of that value is
//! verified: enumerating instances, reading and parsing attribute files,
//! deriving the partition/whole-disk hierarchy, classifying a device's
//! technology, decoding SCSI peripheral-device-type codes, and parsing the
//! multi-valued active-scheduler attribute.

pub mod block;
pub mod class;
pub mod error;
pub mod fs;
pub mod parse;
pub mod scheduler;
pub mod scsi;
pub mod text;
