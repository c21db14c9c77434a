//! Errors of the library.

use crate::text::cat;
use crate::text::cat3;
use vstd::prelude::*;

verus! {

/// What can go wrong.
#[derive(Debug, Clone)]
pub enum Error {
    /// Reading or writing a file failed.
    Io { path: String, message: String },
    /// A text is no valid JSON, or not the JSON that was asked for.
    Json(String),
    InvalidPackageName(String),
    InvalidConstraint(String),
    InvalidVersion(String),
    PackageNotFound(String),
    NoMatchingVersion { package: String, constraint: String },
    Resolve(String),
    Download { url: String, message: String },
    ChecksumMismatch { package: String, expected: String, actual: String },
    Archive(String),
    Cache(String),
    Manifest(String),
    Lockfile(String),
    Other(String),
}

/// The text of an error.
pub open spec fn error_text(e: Error) -> Seq<char> {
    match e {
        Error::Io { path, message } => "I/O error at "@ + path@ + ": "@ + message@,
        Error::Json(m) => "JSON error: "@ + m@,
        Error::InvalidPackageName(m) => "invalid package name: "@ + m@,
        Error::InvalidConstraint(m) => "invalid version constraint: "@ + m@,
        Error::InvalidVersion(m) => "invalid version: "@ + m@,
        Error::PackageNotFound(m) => "package not found: "@ + m@,
        Error::NoMatchingVersion { package, constraint } => "no matching version for "@ + package@
            + " satisfying "@ + constraint@,
        Error::Resolve(m) => "dependency resolution failed: "@ + m@,
        Error::Download { url, message } => "download failed for "@ + url@ + ": "@ + message@,
        Error::ChecksumMismatch { package, expected, actual } => "checksum mismatch for "@
            + package@ + ": expected "@ + expected@ + ", got "@ + actual@,
        Error::Archive(m) => "archive error: "@ + m@,
        Error::Cache(m) => "cache error: "@ + m@,
        Error::Manifest(m) => "manifest error: "@ + m@,
        Error::Lockfile(m) => "lockfile error: "@ + m@,
        Error::Other(m) => m@,
    }
}

impl Error {
    /// The text of the error.
    pub fn to_text(&self) -> (r: String)
        ensures
            r@ == error_text(*self),
    {
        match self {
            Error::Io { path, message } => {
                let head = cat("I/O error at ", path.as_str());
                cat3(head.as_str(), ": ", message.as_str())
            },
            Error::Json(m) => cat("JSON error: ", m.as_str()),
            Error::InvalidPackageName(m) => cat("invalid package name: ", m.as_str()),
            Error::InvalidConstraint(m) => cat("invalid version constraint: ", m.as_str()),
            Error::InvalidVersion(m) => cat("invalid version: ", m.as_str()),
            Error::PackageNotFound(m) => cat("package not found: ", m.as_str()),
            Error::NoMatchingVersion { package, constraint } => {
                let head = cat("no matching version for ", package.as_str());
                cat3(head.as_str(), " satisfying ", constraint.as_str())
            },
            Error::Resolve(m) => cat("dependency resolution failed: ", m.as_str()),
            Error::Download { url, message } => {
                let head = cat("download failed for ", url.as_str());
                cat3(head.as_str(), ": ", message.as_str())
            },
            Error::ChecksumMismatch { package, expected, actual } => {
                let head = cat("checksum mismatch for ", package.as_str());
                let want = cat3(head.as_str(), ": expected ", expected.as_str());
                cat3(want.as_str(), ", got ", actual.as_str())
            },
            Error::Archive(m) => cat("archive error: ", m.as_str()),
            Error::Cache(m) => cat("cache error: ", m.as_str()),
            Error::Manifest(m) => cat("manifest error: ", m.as_str()),
            Error::Lockfile(m) => cat("lockfile error: ", m.as_str()),
            Error::Other(m) => m.clone(),
        }
    }

    /// An error of the file system.
    pub fn io(path: &str, message: &str) -> (r: Self)
        ensures
            r matches Error::Io { path: p, message: m } && p@ == path@ && m@ == message@,
    {
        Error::Io { path: String::from_str(path), message: String::from_str(message) }
    }

    /// An error in an archive.
    pub fn archive(msg: &str) -> (r: Self)
        ensures
            r matches Error::Archive(m) && m@ == msg@,
    {
        Error::Archive(String::from_str(msg))
    }

    /// A failed download.
    pub fn download(url: &str, message: &str) -> (r: Self)
        ensures
            r matches Error::Download { url: u, message: m } && u@ == url@ && m@ == message@,
    {
        Error::Download { url: String::from_str(url), message: String::from_str(message) }
    }

    /// Any other error.
    pub fn other(msg: &str) -> (r: Self)
        ensures
            r matches Error::Other(m) && m@ == msg@,
    {
        Error::Other(String::from_str(msg))
    }
}

} // verus!
