//! The three tiers that a log is filled from.
//!
//! Each tier is a ring buffer of `ic_canister_log`. The buffers are filled
//! elsewhere; a log only reads what they hold at the moment.

use crate::entry::{Priority, RawEntry};
use ic_canister_log::LogBuffer;
use vstd::prelude::*;

verus! {

/// Makes `ic_canister_log::LogBuffer` known as a type. Nothing is claimed of
/// what is inside it.
#[verifier::external_type_specification]
#[verifier::external_body]
pub struct ExLogBuffer(LogBuffer);

/// The entries that a `LogBuffer` holds, the oldest first: those that were
/// appended to it and have not been pushed out by later ones.
pub uninterp spec fn buffer_entries(buffer: LogBuffer) -> Seq<RawEntry>;

/// Reads a buffer through `LogBuffer::iter`, which walks the entries in the
/// order of their insertion, and copies each of them field by field. The
/// contract claims that the result is what the buffer holds, in that order.
#[verifier::external_body]
fn export_buffer(buffer: &LogBuffer) -> (entries: Vec<RawEntry>)
    ensures
        entries@ == buffer_entries(*buffer),
{
    buffer.iter().map(
        |entry| RawEntry {
            timestamp: entry.timestamp,
            counter: entry.counter,
            file: entry.file.to_string(),
            line: entry.line,
            message: entry.message.clone(),
        },
    ).collect()
}

/// The buffers of the three tiers, borrowed for the time of an export.
pub struct BufferStore<'a> {
    pub info: &'a LogBuffer,
    pub debug: &'a LogBuffer,
    pub error: &'a LogBuffer,
}

impl<'a> BufferStore<'a> {
    /// What the buffer of the tier `priority` holds, the oldest entry first.
    pub open spec fn exported(&self, priority: Priority) -> Seq<RawEntry> {
        match priority {
            Priority::Info => buffer_entries(*self.info),
            Priority::Debug => buffer_entries(*self.debug),
            Priority::Error => buffer_entries(*self.error),
        }
    }

    /// Exports the tier `priority`: all entries that its buffer holds, the
    /// oldest first. The buffer is left as it is.
    pub fn export(&self, priority: Priority) -> (entries: Vec<RawEntry>)
        ensures
            entries@ == self.exported(priority),
    {
        match priority {
            Priority::Info => export_buffer(self.info),
            Priority::Debug => export_buffer(self.debug),
            Priority::Error => export_buffer(self.error),
        }
    }
}

} // verus!
