//! The records that a log holds, and the two small enums that steer it.

use vstd::prelude::*;

verus! {

/// The tier a log entry belongs to.
#[derive(Copy, Clone, Debug, PartialEq, Eq, Structural)]
pub enum Priority {
    Info,
    Debug,
    Error,
}

/// The direction in which a log is put in timestamp order.
#[derive(Copy, Clone, Debug, PartialEq, Eq, Structural)]
pub enum Sort {
    Ascending,
    Descending,
}

/// An entry as a tier's buffer hands it out: everything but the tier itself.
#[derive(Debug, PartialEq, Eq)]
pub struct RawEntry {
    pub timestamp: u64,
    pub counter: u64,
    pub file: String,
    pub line: u32,
    pub message: String,
}

/// One record of a log.
#[derive(Debug, PartialEq, Eq)]
pub struct LogEntry {
    pub timestamp: u64,
    pub priority: Priority,
    pub file: String,
    pub line: u32,
    pub message: String,
    pub counter: u64,
}

impl Priority {
    /// The name of the tier as it is written into a document.
    pub open spec fn name(self) -> Seq<char> {
        match self {
            Priority::Info => "Info"@,
            Priority::Debug => "Debug"@,
            Priority::Error => "Error"@,
        }
    }

    /// The name of the tier as it is written into a document.
    pub fn as_str(&self) -> (name: &'static str)
        ensures
            name@ == self.name(),
    {
        match self {
            Priority::Info => "Info",
            Priority::Debug => "Debug",
            Priority::Error => "Error",
        }
    }
}

impl LogEntry {
    /// The entry that `raw` becomes once it is tagged with its tier.
    pub open spec fn tagged(raw: RawEntry, priority: Priority) -> LogEntry {
        LogEntry {
            timestamp: raw.timestamp,
            priority,
            file: raw.file,
            line: raw.line,
            message: raw.message,
            counter: raw.counter,
        }
    }

    /// Tags an exported entry with the tier it was exported from.
    pub fn from_raw(raw: RawEntry, priority: Priority) -> (entry: LogEntry)
        ensures
            entry == LogEntry::tagged(raw, priority),
    {
        LogEntry {
            timestamp: raw.timestamp,
            priority,
            file: raw.file,
            line: raw.line,
            message: raw.message,
            counter: raw.counter,
        }
    }
}

impl Clone for LogEntry {
    fn clone(&self) -> (copy: LogEntry)
        ensures
            copy == *self,
    {
        LogEntry {
            timestamp: self.timestamp,
            priority: self.priority,
            file: self.file.clone(),
            line: self.line,
            message: self.message.clone(),
            counter: self.counter,
        }
    }
}

impl Clone for RawEntry {
    fn clone(&self) -> (copy: RawEntry)
        ensures
            copy == *self,
    {
        RawEntry {
            timestamp: self.timestamp,
            counter: self.counter,
            file: self.file.clone(),
            line: self.line,
            message: self.message.clone(),
        }
    }
}

} // verus!
