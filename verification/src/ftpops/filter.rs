//! The `--filter` value and its mapping to ftpdiff CSV status strings.

use vstd::prelude::*;

verus! {

/// Which diff status to operate on (`--filter remote-only` /
/// `--filter local-only`).
#[derive(Debug, Clone, Copy, PartialEq, Eq, Structural)]
pub enum Filter {
    RemoteOnly,
    LocalOnly,
}

/// The status text that a filter selects.
pub open spec fn filter_status(f: Filter) -> Seq<char> {
    match f {
        Filter::RemoteOnly => "RemoteOnly"@,
        Filter::LocalOnly => "LocalOnly"@,
    }
}

impl Filter {
    /// The exact string this filter matches in the CSV `status` column
    /// (the name that `ftpdiff --csv` writes for the status).
    pub fn status_str(self) -> (r: &'static str)
        ensures
            r@ == filter_status(self),
    {
        match self {
            Filter::RemoteOnly => "RemoteOnly",
            Filter::LocalOnly => "LocalOnly",
        }
    }
}

} // verus!
