//! A persistent key-value store backed by a single append-oriented binary log.
//!
//! Records carry a key, an opaque value, and a MIME string; large values are
//! compressed. The store rebuilds its in-memory index by replaying the log,
//! with the later of two records for one key winning.

pub mod accept;
pub mod bytes;
pub mod codec;
pub mod compress;
pub mod entry;
pub mod result;
pub mod store;
pub mod stream;
