//! Typed errors. Every variant carries the path or value that caused it: a
//! message shown while files are about to be deleted must say which file it
//! is talking about.
use vstd::prelude::*;
use vstd::string::*;
use crate::text::{has_part, has_suffix, stands_at};

verus! {

#[derive(Debug, Clone, PartialEq)]
pub enum Error {
    Refused { path: String, reason: String },
    ConfigParse { path: String, source: String },
    Config(String),
    NoHome,
    /// `missing` tells the one kind of I/O failure that is harmless to a deletion.
    Io { path: String, missing: bool, source: String },
    Trash { path: String, source: String },
    Command { program: String, status: String, stderr: String },
    Other(String),
}

pub enum ErrorModel {
    Refused { path: Seq<char>, reason: Seq<char> },
    ConfigParse { path: Seq<char>, source: Seq<char> },
    Config(Seq<char>),
    NoHome,
    Io { path: Seq<char>, missing: bool, source: Seq<char> },
    Trash { path: Seq<char>, source: Seq<char> },
    Command { program: Seq<char>, status: Seq<char>, stderr: Seq<char> },
    Other(Seq<char>),
}

impl View for Error {
    type V = ErrorModel;

    open spec fn view(&self) -> ErrorModel {
        match self {
            Error::Refused { path, reason } => ErrorModel::Refused { path: path@, reason: reason@ },
            Error::ConfigParse { path, source } => ErrorModel::ConfigParse {
                path: path@,
                source: source@,
            },
            Error::Config(message) => ErrorModel::Config(message@),
            Error::NoHome => ErrorModel::NoHome,
            Error::Io { path, missing, source } => ErrorModel::Io {
                path: path@,
                missing: *missing,
                source: source@,
            },
            Error::Trash { path, source } => ErrorModel::Trash { path: path@, source: source@ },
            Error::Command { program, status, stderr } => ErrorModel::Command {
                program: program@,
                status: status@,
                stderr: stderr@,
            },
            Error::Other(message) => ErrorModel::Other(message@),
        }
    }
}

impl ErrorModel {
    /// The text of an error.
    pub open spec fn text(self) -> Seq<char> {
        match self {
            ErrorModel::Refused { path, reason } => "refusing to touch "@ + path + ": "@ + reason,
            ErrorModel::ConfigParse { path, source } => "config error in "@ + path + ": "@ + source,
            ErrorModel::Config(message) => "config error: "@ + message,
            ErrorModel::NoHome => "could not determine the home directory"@,
            ErrorModel::Io { path, missing, source } => "io error at "@ + path + ": "@ + source,
            ErrorModel::Trash { path, source } => "failed to move "@ + path + " to the trash: "@
                + source,
            ErrorModel::Command { program, status, stderr } => "`"@ + program
                + "` failed with status "@ + status + ": "@ + stderr,
            ErrorModel::Other(message) => message,
        }
    }
}

impl Error {
    /// An I/O failure, told apart by whether the path was simply missing.
    pub fn io(path: &str, missing: bool, source: &str) -> (e: Self)
        ensures
            e@ == (ErrorModel::Io { path: path@, missing, source: source@ }),
    {
        Error::Io { path: path.to_owned(), missing, source: source.to_owned() }
    }

    pub fn refused(path: &str, reason: &str) -> (e: Self)
        ensures
            e@ == (ErrorModel::Refused { path: path@, reason: reason@ }),
    {
        Error::Refused { path: path.to_owned(), reason: reason.to_owned() }
    }

    /// True when the failure is that the path is simply gone, which is no failure of a deletion.
    pub fn is_not_found(&self) -> (r: bool)
        ensures
            r == (self@ matches ErrorModel::Io { path, missing, source } && missing),
    {
        match self {
            Error::Io { missing, .. } => *missing,
            _ => false,
        }
    }

    /// The text of the error.
    pub fn message(&self) -> (s: String)
        ensures
            s@ == self@.text(),
    {
        match self {
            Error::Refused { path, reason } => "refusing to touch ".to_owned().concat(
                path.as_str(),
            ).concat(": ").concat(reason.as_str()),
            Error::ConfigParse { path, source } => "config error in ".to_owned().concat(
                path.as_str(),
            ).concat(": ").concat(source.as_str()),
            Error::Config(message) => "config error: ".to_owned().concat(message.as_str()),
            Error::NoHome => "could not determine the home directory".to_owned(),
            Error::Io { path, missing, source } => "io error at ".to_owned().concat(
                path.as_str(),
            ).concat(": ").concat(source.as_str()),
            Error::Trash { path, source } => "failed to move ".to_owned().concat(
                path.as_str(),
            ).concat(" to the trash: ").concat(source.as_str()),
            Error::Command { program, status, stderr } => "`".to_owned().concat(
                program.as_str(),
            ).concat("` failed with status ").concat(status.as_str()).concat(": ").concat(
                stderr.as_str(),
            ),
            Error::Other(message) => message.clone(),
        }
    }
}

/// The message of a refusal names the path and the reason.
pub proof fn a_refusal_names_its_path(path: Seq<char>, reason: Seq<char>)
    ensures
        has_part((ErrorModel::Refused { path, reason }).text(), path),
        has_suffix((ErrorModel::Refused { path, reason }).text(), reason),
{
    let text = (ErrorModel::Refused { path, reason }).text();
    let start = "refusing to touch "@.len() as int;
    assert(text.subrange(start, start + path.len()) =~= path);
    assert(stands_at(text, start, path));
    assert(text.skip(text.len() - reason.len()) =~= reason);
}

} // verus!
