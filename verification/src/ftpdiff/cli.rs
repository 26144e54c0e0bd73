//! Command-line options of ftpdiff, as plain values.

use vstd::prelude::*;
use crate::connection::ConnectionArgs;

verus! {

/// Compare a remote FTP/FTPS directory tree against a local copy.
#[derive(Debug, Clone)]
pub struct Cli {
    pub connection: ConnectionArgs,
    /// Compare files by MD5 hash in addition to size.
    pub hash: bool,
    /// Glob patterns to exclude from comparison.
    pub exclude: Vec<String>,
    /// Also write a structured CSV report to this path.
    pub csv: Option<String>,
    /// Print progress diagnostics to stderr as the comparison runs.
    pub verbose: bool,
    /// Read the local side from a previous `ftpdiff --csv` report.
    pub local_csv: Option<String>,
    /// Read the remote side from a previous `ftpdiff --csv` report.
    pub remote_csv: Option<String>,
    /// Scan exactly one side and write it to `--csv` without comparing.
    pub build: bool,
}

} // verus!
