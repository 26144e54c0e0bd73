//! Diff types produced when comparing a local directory tree against a
//! remote directory tree.

use vstd::prelude::*;

verus! {

/// Outcome of comparing one relative path present locally and/or remotely.
#[derive(Debug, Clone, Copy, PartialEq, Eq, Structural)]
pub enum DiffStatus {
    /// File exists locally but not on the remote server.
    LocalOnly,
    /// File exists on the remote server but not locally.
    RemoteOnly,
    /// File exists on both sides but sizes differ.
    SizeMismatch,
    /// Sizes match but content hashes differ (only when hashing is enabled).
    HashMismatch,
    /// File matches on both sides.
    Match,
    /// File was scanned on one side only, without comparing (`--build`).
    Scan,
}

/// A single comparison result for one relative path.
#[derive(Debug, Clone)]
pub struct DiffEntry {
    pub relative_path: String,
    pub status: DiffStatus,
    pub local_size: Option<u64>,
    pub remote_size: Option<u64>,
    pub local_md5: Option<String>,
    pub remote_md5: Option<String>,
}

/// The name of a status as reports write it (its `Debug` form).
pub open spec fn status_label(s: DiffStatus) -> Seq<char> {
    match s {
        DiffStatus::LocalOnly => "LocalOnly"@,
        DiffStatus::RemoteOnly => "RemoteOnly"@,
        DiffStatus::SizeMismatch => "SizeMismatch"@,
        DiffStatus::HashMismatch => "HashMismatch"@,
        DiffStatus::Match => "Match"@,
        DiffStatus::Scan => "Scan"@,
    }
}

/// The name of a status as reports write it, e.g. `RemoteOnly`.
pub fn status_name(s: DiffStatus) -> (r: &'static str)
    ensures
        r@ == status_label(s),
{
    match s {
        DiffStatus::LocalOnly => "LocalOnly",
        DiffStatus::RemoteOnly => "RemoteOnly",
        DiffStatus::SizeMismatch => "SizeMismatch",
        DiffStatus::HashMismatch => "HashMismatch",
        DiffStatus::Match => "Match",
        DiffStatus::Scan => "Scan",
    }
}

} // verus!
