//! Error kinds of the logging subsystem.

use vstd::prelude::*;

verus! {

/// What can go wrong while building, installing or reloading the log
/// pipeline.
#[derive(Clone, Copy, Debug, PartialEq, Eq, Structural)]
pub enum LoggerError {
    /// A directive's level name is not in the fixed set.
    Filter,
    /// A configured log path cannot be split into directory and file name.
    File,
    /// A new filter could not be installed over the live pipeline.
    Reload,
    /// A path value could not be rendered as text.
    Convert,
    /// The log file or its directory could not be opened.
    IO,
}

impl LoggerError {
    /// A short description of the error.
    pub fn message(&self) -> (r: &'static str)
        ensures
            r@ == match *self {
                LoggerError::Filter => "failed to parse filter expression"@,
                LoggerError::File => "failed to open log file"@,
                LoggerError::Reload => "reload error"@,
                LoggerError::Convert => "path convert error"@,
                LoggerError::IO => "io error"@,
            },
    {
        match self {
            LoggerError::Filter => "failed to parse filter expression",
            LoggerError::File => "failed to open log file",
            LoggerError::Reload => "reload error",
            LoggerError::Convert => "path convert error",
            LoggerError::IO => "io error",
        }
    }
}

} // verus!
