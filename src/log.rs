//! Log levels and how messages of each level are labelled.
use vstd::prelude::*;

verus! {

/// Severity of a log message.
#[derive(PartialEq, Eq, Structural, Copy, Clone, Debug)]
pub enum LogLevel {
    Debug,
    Info,
    Warning,
    Error,
}

impl LogLevel {
    /// The label printed before a message of this level.
    pub fn tag(&self) -> (r: &'static str)
        ensures
            r@ == match *self {
                LogLevel::Debug => "[DEBUG]"@,
                LogLevel::Info => "[INFO]"@,
                LogLevel::Warning => "[WARN]"@,
                LogLevel::Error => "[ERROR]"@,
            },
    {
        proof {
            reveal_strlit("[DEBUG]");
            reveal_strlit("[INFO]");
            reveal_strlit("[WARN]");
            reveal_strlit("[ERROR]");
        }
        match self {
            LogLevel::Debug => "[DEBUG]",
            LogLevel::Info => "[INFO]",
            LogLevel::Warning => "[WARN]",
            LogLevel::Error => "[ERROR]",
        }
    }

    /// Warnings and errors go to the error stream, the rest to standard output.
    pub fn is_error_stream(&self) -> (r: bool)
        ensures
            r == (*self == LogLevel::Warning || *self == LogLevel::Error),
    {
        match self {
            LogLevel::Warning | LogLevel::Error => true,
            _ => false,
        }
    }
}

} // verus!
