//! Local directory entries, as the local walk reports them.

use vstd::prelude::*;
use crate::text::{chars_of, string_of};

verus! {

/// A file found while walking the local directory tree.
#[derive(Debug, Clone, PartialEq)]
pub struct LocalEntry {
    pub relative_path: String,
    pub size: u64,
}

/// `s` with every `\` replaced by `/`.
pub open spec fn with_forward_slashes(s: Seq<char>) -> Seq<char> {
    s.map_values(|c: char| if c == '\\' { '/' } else { c })
}

/// Writes a path relative to the walked root with `/` separators, whatever
/// separator the platform used.
pub fn normalize_separators(path: &str) -> (r: String)
    ensures
        r@ == with_forward_slashes(path@),
{
    let mut cs = chars_of(path);
    let ghost orig = cs@;
    let mut i: usize = 0;
    while i < cs.len()
        invariant
            i <= cs@.len(),
            cs@.len() == orig.len(),
            forall|k: int| 0 <= k < i ==> cs@[k] == (if orig[k] == '\\' { '/' } else { orig[k] }),
            forall|k: int| i <= k < cs@.len() ==> cs@[k] == orig[k],
        decreases cs@.len() - i,
    {
        if cs[i] == '\\' {
            cs.set(i, '/');
        }
        i = i + 1;
    }
    assert(cs@ =~= with_forward_slashes(path@));
    string_of(cs.as_slice())
}

} // verus!
