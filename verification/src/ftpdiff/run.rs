//! Decisions of an ftpdiff run: the exit code, and the entries of a
//! one-side scan (`--build`).

use vstd::prelude::*;
use crate::diff::{DiffEntry, DiffStatus};
use crate::local::LocalEntry;
use crate::remote::RemoteEntry;

verus! {

/// Whether some entry is not a `Match`.
pub fn differences_found(entries: &[DiffEntry]) -> (r: bool)
    ensures
        r == exists|i: int| 0 <= i < entries@.len() && #[trigger] entries@[i].status != DiffStatus::Match,
{
    let mut i: usize = 0;
    while i < entries.len()
        invariant
            i <= entries@.len(),
            forall|k: int| 0 <= k < i ==> #[trigger] entries@[k].status == DiffStatus::Match,
        decreases entries@.len() - i,
    {
        if entries[i].status != DiffStatus::Match {
            return true;
        }
        i = i + 1;
    }
    false
}

/// The exit code of a comparison: 1 when differences were found, else 0.
pub fn compare_exit_code(entries: &[DiffEntry]) -> (r: i32)
    ensures
        r == (if exists|i: int| 0 <= i < entries@.len() && #[trigger] entries@[i].status
            != DiffStatus::Match {
            1i32
        } else {
            0i32
        }),
{
    if differences_found(entries) {
        1
    } else {
        0
    }
}

/// Whether `scanned` is a scan of the local `files`: one entry per file, in
/// order, with its path and local size, no remote size and no hashes.
pub open spec fn is_local_scan(files: Seq<LocalEntry>, scanned: Seq<DiffEntry>) -> bool {
    &&& scanned.len() == files.len()
    &&& forall|i: int|
        0 <= i < files.len() ==> {
            &&& (#[trigger] scanned[i]).relative_path@ == files[i].relative_path@
            &&& scanned[i].local_size == Some(files[i].size)
            &&& scanned[i].remote_size is None
            &&& scanned[i].local_md5 is None
            &&& scanned[i].remote_md5 is None
        }
}

/// Whether `scanned` is a scan of the remote `files`.
pub open spec fn is_remote_scan(files: Seq<RemoteEntry>, scanned: Seq<DiffEntry>) -> bool {
    &&& scanned.len() == files.len()
    &&& forall|i: int|
        0 <= i < files.len() ==> {
            &&& (#[trigger] scanned[i]).relative_path@ == files[i].relative_path@
            &&& scanned[i].local_size is None
            &&& scanned[i].remote_size == Some(files[i].size)
            &&& scanned[i].local_md5 is None
            &&& scanned[i].remote_md5 is None
        }
}

/// The entries of a scan of the local side: one `Scan` entry per file, in
/// order, with its local size.
pub fn scan_local(entries: &[LocalEntry]) -> (r: Vec<DiffEntry>)
    ensures
        is_local_scan(entries@, r@),
        forall|i: int| 0 <= i < r@.len() ==> (#[trigger] r@[i]).status == DiffStatus::Scan,
{
    let mut out: Vec<DiffEntry> = Vec::new();
    let mut i: usize = 0;
    while i < entries.len()
        invariant
            i <= entries@.len(),
            out@.len() == i,
            forall|k: int|
                0 <= k < i ==> {
                    &&& (#[trigger] out@[k]).relative_path@ == entries@[k].relative_path@
                    &&& out@[k].status == DiffStatus::Scan
                    &&& out@[k].local_size == Some(entries@[k].size)
                    &&& out@[k].remote_size is None
                    &&& out@[k].local_md5 is None
                    &&& out@[k].remote_md5 is None
                },
        decreases entries@.len() - i,
    {
        out.push(
            DiffEntry {
                relative_path: entries[i].relative_path.clone(),
                status: DiffStatus::Scan,
                local_size: Some(entries[i].size),
                remote_size: None,
                local_md5: None,
                remote_md5: None,
            },
        );
        i = i + 1;
    }
    out
}

/// The entries of a scan of the remote side: one `Scan` entry per file, in
/// order, with its remote size.
pub fn scan_remote(entries: &[RemoteEntry]) -> (r: Vec<DiffEntry>)
    ensures
        is_remote_scan(entries@, r@),
        forall|i: int| 0 <= i < r@.len() ==> (#[trigger] r@[i]).status == DiffStatus::Scan,
{
    let mut out: Vec<DiffEntry> = Vec::new();
    let mut i: usize = 0;
    while i < entries.len()
        invariant
            i <= entries@.len(),
            out@.len() == i,
            forall|k: int|
                0 <= k < i ==> {
                    &&& (#[trigger] out@[k]).relative_path@ == entries@[k].relative_path@
                    &&& out@[k].status == DiffStatus::Scan
                    &&& out@[k].local_size is None
                    &&& out@[k].remote_size == Some(entries@[k].size)
                    &&& out@[k].local_md5 is None
                    &&& out@[k].remote_md5 is None
                },
        decreases entries@.len() - i,
    {
        out.push(
            DiffEntry {
                relative_path: entries[i].relative_path.clone(),
                status: DiffStatus::Scan,
                local_size: None,
                remote_size: Some(entries[i].size),
                local_md5: None,
                remote_md5: None,
            },
        );
        i = i + 1;
    }
    out
}

} // verus!
