//! Log aggregation for a canister.
//!
//! Entries kept in three priority tiers are gathered into one [`Log`], put in
//! timestamp order, and written out as a JSON document that respects a byte
//! budget: when the whole document is too large, the longest prefix of the
//! entries that still fits is written instead.

pub mod budget;
pub mod entry;
pub mod json;
pub mod log;
pub mod order;
pub mod parse;
pub mod store;
pub mod text;

pub use entry::{LogEntry, Priority, RawEntry, Sort};
pub use log::Log;
pub use store::BufferStore;
