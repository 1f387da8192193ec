//! A local, durable, strictly ordered append-only journal.
//!
//! Records are immutable byte payloads.  Appending a record assigns it a
//! monotonically increasing [`journal::Position`]; durability is confirmed
//! asynchronously through a completion signal.  The persistent representation
//! is a sequence of length-prefixed, checksummed records, and reopening a
//! journal from its stored bytes reconstructs the order and the durable
//! frontier that existed at the last durable point.

pub mod codec;
pub mod completion;
pub mod journal;
pub mod metrics;

