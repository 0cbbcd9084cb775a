//! Row-level snapshot-and-rescue engine: checksummed pages, a row codec,
//! a write-ahead log, snapshots and best-effort recovery.
//!
//! Everything works on plain byte images of the data file, the log and the
//! snapshot artifact, so the caller decides where the bytes live and does
//! the reading, writing and syncing.

pub mod encoding;
pub mod checksum;
pub mod page;
pub mod store;
pub mod buffer;
pub mod record;
pub mod wal;
pub mod row;
pub mod engine;
pub mod snapshot;
pub mod artifact;
pub mod rescue;
pub mod header;
pub mod retry;
