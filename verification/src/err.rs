//! Errors, with the text shown to the user for each.
use vstd::prelude::*;
use crate::path::{FsPath, spec_display};

verus! {

/// Why creating a project failed.  An I/O failure carries the path and the
/// system's description of the error.
#[derive(Debug)]
pub enum Init {
    ProjectAlreadyExists,
    Io(FsPath, String),
}

/// Why an operation on a project failed.  I/O and JSON failures carry the
/// path or context and the description of the underlying error.
#[derive(Debug)]
pub enum Reason {
    Io(FsPath, String),
    IoString(String, String),
    Json(FsPath, String),
    JsonString(String, String),
    Other(String),
}

/// The message for a project-creation failure.
pub open spec fn spec_init_message(e: &Init) -> Seq<char> {
    match e {
        Init::ProjectAlreadyExists => "project already exists"@,
        Init::Io(path, error) => "encountered error with "@ + spec_display(path@) + ": "@ + error@,
    }
}

/// The message for a failure.
pub open spec fn spec_reason_message(e: &Reason) -> Seq<char> {
    match e {
        Reason::Io(path, error) => "filesystem error with "@ + spec_display(path@) + ": "@ + error@,
        Reason::IoString(context, error) => context@ + ": "@ + error@,
        Reason::Json(path, error) => "failed to parse JSON at "@ + spec_display(path@) + ": "@
            + error@,
        Reason::JsonString(context, error) => context@ + ": "@ + error@,
        Reason::Other(message) => message@,
    }
}

impl Init {
    /// The text shown to the user.
    pub fn describe(&self) -> (r: String)
        ensures
            r@ == spec_init_message(self),
    {
        match self {
            Init::ProjectAlreadyExists => String::from_str("project already exists"),
            Init::Io(path, error) => {
                let mut s = String::from_str("encountered error with ");
                s.append(path.display().as_str());
                s.append(": ");
                s.append(error.as_str());
                s
            },
        }
    }
}

impl Reason {
    /// The text shown to the user.
    pub fn describe(&self) -> (r: String)
        ensures
            r@ == spec_reason_message(self),
    {
        match self {
            Reason::Io(path, error) => {
                let mut s = String::from_str("filesystem error with ");
                s.append(path.display().as_str());
                s.append(": ");
                s.append(error.as_str());
                s
            },
            Reason::IoString(context, error) => {
                let mut s = context.clone();
                s.append(": ");
                s.append(error.as_str());
                s
            },
            Reason::Json(path, error) => {
                let mut s = String::from_str("failed to parse JSON at ");
                s.append(path.display().as_str());
                s.append(": ");
                s.append(error.as_str());
                s
            },
            Reason::JsonString(context, error) => {
                let mut s = context.clone();
                s.append(": ");
                s.append(error.as_str());
                s
            },
            Reason::Other(message) => message.clone(),
        }
    }
}

} // verus!
