//! Contiguous fixed-size VHD/RMD virtual disks for IODD hardware.
//!
//! IODD devices map a file's extents once at mount time and stream sectors
//! straight off the block device. Two properties are mandatory: the file must
//! be fully allocated, and it must occupy a single contiguous extent.
//!
//! This library holds the decisions: what a size means, what a footer says,
//! which runs a file occupies, what verdict a file earns, and what may happen
//! next while a file is being built. It reads and writes nothing.

pub mod bytes;
pub mod cli;
pub mod cmd;
pub mod contig;
pub mod error;
pub mod footer;
pub mod paths;
pub mod report;
pub mod size;
pub mod source;
pub mod text;
