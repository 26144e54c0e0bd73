//! Command-line options of ftpops, as plain values.

use vstd::prelude::*;
use crate::connection::ConnectionArgs;
use crate::ftpops::filter::Filter;
use crate::ftpops::validate::{CopyTarget, DeleteTarget};

verus! {

/// Perform bulk copy/delete operations based on an ftpdiff CSV report.
#[derive(Debug, Clone)]
pub struct Cli {
    pub command: Command,
}

/// The two subcommands.
#[derive(Debug, Clone)]
pub enum Command {
    /// Copy files between local and remote, filtered by diff status.
    Copy {
        connection: ConnectionArgs,
        to: CopyTarget,
        filter: Filter,
        csv: String,
        skip_existing: bool,
        dry_run: bool,
    },
    /// Delete files locally or remotely, filtered by diff status.
    Delete { connection: ConnectionArgs, on: DeleteTarget, filter: Filter, csv: String, dry_run: bool },
}

} // verus!
