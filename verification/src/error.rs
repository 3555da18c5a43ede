//! The ways in which a run can go wrong.
use vstd::prelude::*;

verus! {

/// What went wrong.
#[derive(Debug)]
pub enum Error {
    /// A required argument was not given; the payload is its name.
    ArgNotSet(String),
    /// The cleanup command could not be run; the payload says why.
    ExecutionFailed(String),
    /// An argument could not be read; the payload is its name.
    GetArgFailed(String),
    /// The logger could not be started.
    InitLoggerFailed(String),
    /// A concurrent task could not be joined.
    JoinError(String),
    /// The path of a manifest is not valid text.
    ManifestToStrFailed,
    /// The directory of a project has no name.
    NoFileName,
    /// The manifest of a project has no directory above it.
    ParentNotFound,
    /// The arguments could not be parsed.
    ParseArgsError(String),
    /// A size was asked for that was never measured.
    SizeNotCalculated,
    /// The project was left alone on purpose.
    Skipped,
}

impl Error {
    /// The fixed part of the message that goes with each error.
    pub open spec fn summary(&self) -> Seq<char> {
        match self {
            Error::ArgNotSet(_) => "Argument not set"@,
            Error::ExecutionFailed(_) => "Command failed to execute"@,
            Error::GetArgFailed(_) => "Failed to get argument"@,
            Error::InitLoggerFailed(_) => "Failed to start logger"@,
            Error::JoinError(_) => "Failed to join async"@,
            Error::ManifestToStrFailed => "Manifest could not be converted into &str"@,
            Error::NoFileName => "Failed to get File Name of parent"@,
            Error::ParentNotFound => "Parent not found"@,
            Error::ParseArgsError(_) => "Failed to parse Args"@,
            Error::SizeNotCalculated => "Size not Calculated"@,
            Error::Skipped => "Skipped"@,
        }
    }

    /// The fixed part of the message that goes with this error.
    pub fn message(&self) -> (text: &'static str)
        ensures
            text@ == self.summary(),
    {
        match self {
            Error::ArgNotSet(_) => "Argument not set",
            Error::ExecutionFailed(_) => "Command failed to execute",
            Error::GetArgFailed(_) => "Failed to get argument",
            Error::InitLoggerFailed(_) => "Failed to start logger",
            Error::JoinError(_) => "Failed to join async",
            Error::ManifestToStrFailed => "Manifest could not be converted into &str",
            Error::NoFileName => "Failed to get File Name of parent",
            Error::ParentNotFound => "Parent not found",
            Error::ParseArgsError(_) => "Failed to parse Args",
            Error::SizeNotCalculated => "Size not Calculated",
            Error::Skipped => "Skipped",
        }
    }

    /// What the error is about, where it carries a detail.
    pub fn detail(&self) -> (text: Option<&String>)
        ensures
            text == match self {
                Error::ArgNotSet(s) => Some(s),
                Error::ExecutionFailed(s) => Some(s),
                Error::GetArgFailed(s) => Some(s),
                Error::InitLoggerFailed(s) => Some(s),
                Error::JoinError(s) => Some(s),
                Error::ParseArgsError(s) => Some(s),
                _ => None,
            },
    {
        match self {
            Error::ArgNotSet(s) => Some(s),
            Error::ExecutionFailed(s) => Some(s),
            Error::GetArgFailed(s) => Some(s),
            Error::InitLoggerFailed(s) => Some(s),
            Error::JoinError(s) => Some(s),
            Error::ParseArgsError(s) => Some(s),
            _ => None,
        }
    }
}

} // verus!
