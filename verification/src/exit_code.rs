//! How a run ends for the process that started it.

use crate::phrack_downloader_error::PhrackDownloaderError;
use vstd::prelude::*;

verus! {

/// The ways in which the program can end.
#[derive(Clone, Copy, Debug, PartialEq, Eq, Structural)]
pub enum ExitCode {
    /// The run went through. Jobs that failed on the way do not count.
    Success,
    /// The run was given up with an error.
    GenericError,
}

/// The number that the process ends with.
pub open spec fn exit_status(code: ExitCode) -> i32 {
    match code {
        ExitCode::Success => 0,
        ExitCode::GenericError => 1,
    }
}

impl ExitCode {
    /// The number that the process ends with.
    pub fn as_i32(&self) -> (status: i32)
        ensures
            status == exit_status(*self),
    {
        match self {
            ExitCode::Success => 0,
            ExitCode::GenericError => 1,
        }
    }

    /// How a run that was given up with `error` ends the process: whatever
    /// the error, as a generic error.
    pub fn for_error(error: &PhrackDownloaderError) -> (code: ExitCode)
        ensures
            code == ExitCode::GenericError,
    {
        ExitCode::GenericError
    }
}

} // verus!
