//! Validates that `--filter` is compatible with the chosen `--to`/`--on`
//! direction: `RemoteOnly` entries only make sense downloading to local or
//! deleting from remote; `LocalOnly` entries only make sense uploading to
//! remote or deleting from local.

use vstd::prelude::*;
use crate::ftpops::filter::Filter;
use crate::text::owned;

verus! {

/// Which side `copy` writes to.
#[derive(Debug, Clone, Copy, PartialEq, Eq, Structural)]
pub enum CopyTarget {
    Local,
    Remote,
}

/// Which side `delete` removes from.
#[derive(Debug, Clone, Copy, PartialEq, Eq, Structural)]
pub enum DeleteTarget {
    Local,
    Remote,
}

/// An invalid combination of options, with the explanation.
#[derive(Debug)]
pub struct ValidationError(pub String);

/// The filter that a copy in direction `to` accepts.
pub open spec fn copy_filter(to: CopyTarget) -> Filter {
    match to {
        CopyTarget::Local => Filter::RemoteOnly,
        CopyTarget::Remote => Filter::LocalOnly,
    }
}

/// The filter that a delete on side `on` accepts.
pub open spec fn delete_filter(on: DeleteTarget) -> Filter {
    match on {
        DeleteTarget::Local => Filter::LocalOnly,
        DeleteTarget::Remote => Filter::RemoteOnly,
    }
}

/// Accepts `copy --to local` with `remote-only` and `copy --to remote` with
/// `local-only`; rejects the other two combinations with an explanation.
pub fn validate_copy(to: CopyTarget, filter: Filter) -> (r: Result<(), ValidationError>)
    ensures
        r is Ok <==> filter == copy_filter(to),
        (to == CopyTarget::Local && filter == Filter::LocalOnly) ==> (r matches Err(e) && e.0@
            == "--filter local-only doesn't apply to 'copy --to local': LocalOnly entries have no remote file to download from - did you mean --filter remote-only, or copy --to remote?"@),
        (to == CopyTarget::Remote && filter == Filter::RemoteOnly) ==> (r matches Err(e) && e.0@
            == "--filter remote-only doesn't apply to 'copy --to remote': RemoteOnly entries have no local file to upload from - did you mean --filter local-only, or copy --to local?"@),
{
    match (to, filter) {
        (CopyTarget::Local, Filter::RemoteOnly) => Ok(()),
        (CopyTarget::Remote, Filter::LocalOnly) => Ok(()),
        (CopyTarget::Local, Filter::LocalOnly) => Err(
            ValidationError(
                owned(
                    "--filter local-only doesn't apply to 'copy --to local': LocalOnly entries have no remote file to download from - did you mean --filter remote-only, or copy --to remote?",
                ),
            ),
        ),
        (CopyTarget::Remote, Filter::RemoteOnly) => Err(
            ValidationError(
                owned(
                    "--filter remote-only doesn't apply to 'copy --to remote': RemoteOnly entries have no local file to upload from - did you mean --filter local-only, or copy --to local?",
                ),
            ),
        ),
    }
}

/// Accepts `delete --on remote` with `remote-only` and `delete --on local`
/// with `local-only`; rejects the other two combinations with an
/// explanation.
pub fn validate_delete(on: DeleteTarget, filter: Filter) -> (r: Result<(), ValidationError>)
    ensures
        r is Ok <==> filter == delete_filter(on),
        (on == DeleteTarget::Remote && filter == Filter::LocalOnly) ==> (r matches Err(e) && e.0@
            == "--filter local-only doesn't apply to 'delete --on remote': LocalOnly entries don't exist on the remote side - did you mean --filter remote-only, or delete --on local?"@),
        (on == DeleteTarget::Local && filter == Filter::RemoteOnly) ==> (r matches Err(e) && e.0@
            == "--filter remote-only doesn't apply to 'delete --on local': RemoteOnly entries don't exist locally - did you mean --filter local-only, or delete --on remote?"@),
{
    match (on, filter) {
        (DeleteTarget::Remote, Filter::RemoteOnly) => Ok(()),
        (DeleteTarget::Local, Filter::LocalOnly) => Ok(()),
        (DeleteTarget::Remote, Filter::LocalOnly) => Err(
            ValidationError(
                owned(
                    "--filter local-only doesn't apply to 'delete --on remote': LocalOnly entries don't exist on the remote side - did you mean --filter remote-only, or delete --on local?",
                ),
            ),
        ),
        (DeleteTarget::Local, Filter::RemoteOnly) => Err(
            ValidationError(
                owned(
                    "--filter remote-only doesn't apply to 'delete --on local': RemoteOnly entries don't exist locally - did you mean --filter local-only, or delete --on remote?",
                ),
            ),
        ),
    }
}

} // verus!
