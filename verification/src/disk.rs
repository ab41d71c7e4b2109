//! Answers read from the disk. A probe can only be made by asking the disk:
//! its fields are private to this module, so each one holds the path that was
//! asked about and the answer that came back.

use vstd::prelude::*;

verus! {

/// Whether a regular file (links followed) is at a path.
#[derive(Debug)]
pub struct FileProbe {
    path: String,
    found: bool,
}

/// Whether anything is at a path.
#[derive(Debug)]
pub struct PathProbe {
    path: String,
    found: bool,
}

impl FileProbe {
    /// The path asked about.
    pub closed spec fn path_of(&self) -> Seq<char> {
        self.path@
    }

    /// The disk's answer.
    pub closed spec fn found_of(&self) -> bool {
        self.found
    }

    /// The disk's answer.
    pub fn found(&self) -> (r: bool)
        ensures
            r == self.found_of(),
    {
        self.found
    }
}

impl PathProbe {
    /// The path asked about.
    pub closed spec fn path_of(&self) -> Seq<char> {
        self.path@
    }

    /// The disk's answer.
    pub closed spec fn found_of(&self) -> bool {
        self.found
    }

    /// The disk's answer.
    pub fn found(&self) -> (r: bool)
        ensures
            r == self.found_of(),
    {
        self.found
    }
}

/// Asks `std::path::Path::is_file` whether a regular file is at `path`. What
/// is on disk is not known here, so nothing is said of the answer; the probe
/// holds the path asked about.
#[verifier::external_body]
pub fn probe_file(path: &str) -> (r: FileProbe)
    ensures
        r.path_of() == path@,
{
    FileProbe { path: path.to_string(), found: std::path::Path::new(path).is_file() }
}

/// Asks `std::path::Path::exists` whether anything is at `path`. What is on
/// disk is not known here, so nothing is said of the answer; the probe holds
/// the path asked about.
#[verifier::external_body]
pub fn probe_path(path: &str) -> (r: PathProbe)
    ensures
        r.path_of() == path@,
{
    PathProbe { path: path.to_string(), found: std::path::Path::new(path).exists() }
}

} // verus!
