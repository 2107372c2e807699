//! Diagnostics levels. Printing diagnostics is left to the program around the
//! library.
use vstd::prelude::*;

verus! {

#[derive(Clone, Copy, Debug, PartialEq, Eq, Structural)]
pub enum LogLevel {
    Debug,
    Warning,
    Error,
}

/// A diagnostics sink's setting: which level of message it reports.
#[derive(Clone, Copy, Debug, PartialEq, Eq, Structural)]
pub struct Log {
    pub level: LogLevel,
}

} // verus!
