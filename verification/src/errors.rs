//! The errors of reading and writing files.

use vstd::prelude::*;
use vstd::string::StringExecFns;

verus! {

/// The standard library's I/O error, carried as it came.
#[verifier::external_type_specification]
#[verifier::external_body]
pub struct ExIoError(std::io::Error);

/// What was being done when an I/O error came up.
#[derive(Debug, Clone, Copy, PartialEq, Eq, Structural)]
pub enum FileOperation {
    Read,
    Write,
    Mkdir,
}

impl FileOperation {
    /// The operation in words.
    pub open spec fn words(self) -> Seq<char> {
        match self {
            FileOperation::Read => "reading a file"@,
            FileOperation::Write => "writing a file"@,
            FileOperation::Mkdir => "creating a directory"@,
        }
    }

    /// The operation in words.
    pub fn to_string(&self) -> (r: String)
        ensures
            r@ == self.words(),
    {
        match self {
            FileOperation::Read => String::from_str("reading a file"),
            FileOperation::Write => String::from_str("writing a file"),
            FileOperation::Mkdir => String::from_str("creating a directory"),
        }
    }
}

/// An I/O error with the path it happened at and what was being done.
#[derive(Debug)]
pub struct IoError {
    pub operation: FileOperation,
    pub path: String,
    pub source: std::io::Error,
}

impl IoError {
    pub fn new(operation: FileOperation, path: String, error: std::io::Error) -> (r: Self)
        ensures
            r.operation == operation,
            r.path == path,
            r.source == error,
    {
        Self { operation, path, source: error }
    }

    /// The error in words, without its cause.
    pub open spec fn words(&self) -> Seq<char> {
        "I/O error: "@ + self.operation.words() + " on path '"@ + self.path@ + "'"@
    }

    /// The error in words, without its cause.
    pub fn to_string(&self) -> (r: String)
        ensures
            r@ == self.words(),
    {
        let mut text = String::from_str("I/O error: ");
        text.append(self.operation.to_string().as_str());
        text.append(" on path '");
        text.append(self.path.as_str());
        text.append("'");
        text
    }
}

/// The formats of the files that are parsed.
#[derive(Debug, Clone, Copy, PartialEq, Eq, Structural)]
pub enum FileFormat {
    Toml,
}

impl FileFormat {
    /// The format's name.
    pub fn to_string(&self) -> (r: String)
        ensures
            r@ == "toml"@,
    {
        String::from_str("toml")
    }
}

} // verus!
