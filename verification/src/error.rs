//! The closed set of failures an operation can report.

use vstd::prelude::*;

verus! {

/// Everything that can go wrong in one invocation. Each failure aborts the
/// operation it occurred in; there is no retry.
#[derive(Debug)]
pub enum TimeCheckerError {
    /// A stop was requested while no entry is open.
    NoActiveTask,
    /// Stored content exists but cannot be read or parsed.
    DataLoadError(String),
    /// The storage location cannot be written.
    DataSaveError(String),
    /// A period argument other than the supported one.
    InvalidPeriod(String),
}

impl TimeCheckerError {
    /// The human-readable text that names this failure.
    pub open spec fn spec_message(self) -> Seq<char> {
        match self {
            TimeCheckerError::NoActiveTask => "no active task"@,
            TimeCheckerError::DataLoadError(msg) => "failed to load data: "@ + msg@,
            TimeCheckerError::DataSaveError(msg) => "failed to save data: "@ + msg@,
            TimeCheckerError::InvalidPeriod(p) => "invalid period: "@ + p@,
        }
    }

    /// A human-readable message naming the failure.
    pub fn message(&self) -> (m: String)
        ensures
            m@ == self.spec_message(),
    {
        match self {
            TimeCheckerError::NoActiveTask => String::from_str("no active task"),
            TimeCheckerError::DataLoadError(msg) => {
                let mut s = String::from_str("failed to load data: ");
                s.append(msg.as_str());
                s
            },
            TimeCheckerError::DataSaveError(msg) => {
                let mut s = String::from_str("failed to save data: ");
                s.append(msg.as_str());
                s
            },
            TimeCheckerError::InvalidPeriod(p) => {
                let mut s = String::from_str("invalid period: ");
                s.append(p.as_str());
                s
            },
        }
    }
}

} // verus!
