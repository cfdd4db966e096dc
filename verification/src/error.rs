//! Errors reported while reading a document.
use vstd::prelude::*;

use crate::text::extend_chars;
use crate::text::{chars_of, string_of};

verus! {

/// Why a read failed.
#[derive(Debug, Clone, PartialEq, Eq)]
pub enum Error {
    /// A stream the read needs is absent.
    NotFound(String),
    /// The input is not in a form that can be read.
    InvalidData(String),
    /// The input exceeds a configured limit.
    ResourceLimit { resource: String, limit: usize, actual: usize },
}

/// The three kinds of failure.
#[derive(Debug, Clone, Copy, PartialEq, Eq, Structural)]
pub enum ErrorKind {
    NotFound,
    InvalidData,
    ResourceLimit,
}

/// Kind of an error.
pub open spec fn error_kind(e: Error) -> ErrorKind {
    match e {
        Error::NotFound(_) => ErrorKind::NotFound,
        Error::InvalidData(_) => ErrorKind::InvalidData,
        Error::ResourceLimit { .. } => ErrorKind::ResourceLimit,
    }
}

/// "not found: ", "invalid data: " or "resource limit exceeded: ", then the detail.
pub open spec fn error_message(e: Error) -> Seq<char> {
    match e {
        Error::NotFound(d) => "not found: "@ + d@,
        Error::InvalidData(d) => "invalid data: "@ + d@,
        Error::ResourceLimit { resource, .. } => "resource limit exceeded: "@ + resource@,
    }
}

/// A string holding the characters of a literal.
pub fn owned(s: &str) -> (r: String)
    ensures
        r@ == s@,
{
    s.to_owned()
}

impl Error {
    pub fn kind(&self) -> (r: ErrorKind)
        ensures
            r == error_kind(*self),
    {
        match self {
            Error::NotFound(_) => ErrorKind::NotFound,
            Error::InvalidData(_) => ErrorKind::InvalidData,
            Error::ResourceLimit { .. } => ErrorKind::ResourceLimit,
        }
    }

    /// Human-readable description: "not found: ...", "invalid data: ..." or
    /// "resource limit exceeded: ...".
    pub fn message(&self) -> (r: String)
        ensures
            r@ == error_message(*self),
    {
        let (head, detail) = match self {
            Error::NotFound(d) => ("not found: ", d.as_str()),
            Error::InvalidData(d) => ("invalid data: ", d.as_str()),
            Error::ResourceLimit { resource, .. } => ("resource limit exceeded: ", resource.as_str()),
        };
        let mut out = chars_of(head);
        let d = chars_of(detail);
        extend_chars(&mut out, d.as_slice());
        string_of(out.as_slice())
    }
}

} // verus!
