//! Media ingestion library: resolves capture timestamps from metadata
//! key/value bags, names files into a date-partitioned tree with
//! deterministic tie-breaking, detects content duplicates by hash, and
//! plans the per-file placement decisions of a batch run.

pub mod exif;
pub mod exif_writer;
pub mod file_ops;
pub mod hashing;
pub mod naming;
pub mod strmap;
pub mod strutil;
pub mod timestamp;
