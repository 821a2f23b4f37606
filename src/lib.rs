//! Block-device I/O counters: parsing of the kernel's partition table and
//! disk statistics, conversion of sectors to bytes, aggregation, and a
//! wraparound-correcting accumulator that keeps counters from decreasing.
//! Also the filtering of the mount table and the space of a filesystem.
//!
//! The library reads no file itself: it takes the text of each source as
//! bytes and returns plain values.

pub mod counters;
pub mod error;
pub mod mounts;
pub mod nowrap;
pub mod partitions;
pub mod stats;
pub mod text;
pub mod usage;

pub use counters::DiskIOCounters;
pub use error::DiskError;
pub use mounts::{disk_partitions, fstype, MountedPartition};
pub use nowrap::{total_disk_io_counters, DiskIOCountersNoWrap};
pub use partitions::get_partitions;
pub use stats::{get_sector_size, line_disk_stats, per_disk_counters, NamedCounters};
pub use usage::{disk_space, DiskSpace};
