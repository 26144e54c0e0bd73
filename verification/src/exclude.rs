//! Glob-based exclude pattern matching for local and remote relative paths.

use vstd::prelude::*;
use crate::csv_source::local_view;
use crate::local::LocalEntry;
use crate::remote::{remote_view, RemoteEntry};

verus! {

/// Whether `glob::Pattern::new` accepts `pattern`.
pub uninterp spec fn glob_pattern_compiles(pattern: Seq<char>) -> bool;

/// What `glob::Pattern::matches` (default match options) answers for the
/// pattern compiled from `pattern` and the text `path`.
pub uninterp spec fn glob_pattern_matches(pattern: Seq<char>, path: Seq<char>) -> bool;

/// Compiles `pattern` with `glob::Pattern::new` and, if it compiles, matches
/// `path` against it with `glob::Pattern::matches`; a pattern that does not
/// compile matches nothing. Both answers are only named.
#[verifier::external_body]
fn glob_match(pattern: &str, path: &str) -> (r: bool)
    ensures
        r == (glob_pattern_compiles(pattern@) && glob_pattern_matches(pattern@, path@)),
{
    match glob::Pattern::new(pattern) {
        Ok(compiled) => compiled.matches(path),
        Err(_) => false,
    }
}

/// Whether `path` matches some pattern of `patterns` that compiles.
pub open spec fn excluded_by(path: Seq<char>, patterns: Seq<Seq<char>>) -> bool {
    exists|i: int|
        0 <= i < patterns.len() && glob_pattern_compiles(#[trigger] patterns[i])
            && glob_pattern_matches(patterns[i], path)
}

/// The characters of each pattern.
pub open spec fn patterns_view(patterns: Seq<String>) -> Seq<Seq<char>> {
    patterns.map_values(|s: String| s@)
}

/// Returns true if `relative_path` matches any of `patterns` (glob syntax).
/// A pattern that is not valid glob syntax matches nothing.
pub fn is_excluded(relative_path: &str, patterns: &[String]) -> (r: bool)
    ensures
        r == excluded_by(relative_path@, patterns_view(patterns@)),
{
    let ghost pv = patterns_view(patterns@);
    let mut i: usize = 0;
    while i < patterns.len()
        invariant
            i <= patterns@.len(),
            pv == patterns_view(patterns@),
            forall|k: int|
                0 <= k < i ==> !(glob_pattern_compiles(#[trigger] pv[k]) && glob_pattern_matches(
                    pv[k],
                    relative_path@,
                )),
        decreases patterns@.len() - i,
    {
        if glob_match(patterns[i].as_str(), relative_path) {
            assert(glob_pattern_compiles(pv[i as int]));
            return true;
        }
        i = i + 1;
    }
    false
}

/// The (path, size) pairs whose path no pattern excludes, in order.
pub open spec fn kept_entries(es: Seq<(Seq<char>, u64)>, patterns: Seq<Seq<char>>) -> Seq<
    (Seq<char>, u64),
>
    decreases es.len(),
{
    if es.len() == 0 {
        Seq::empty()
    } else {
        let prev = kept_entries(es.drop_last(), patterns);
        if excluded_by(es.last().0, patterns) {
            prev
        } else {
            prev.push(es.last())
        }
    }
}

/// The local entries whose path none of `patterns` excludes, in order (as
/// a live walk would have skipped the others).
pub fn drop_excluded_local(entries: &[LocalEntry], patterns: &[String]) -> (r: Vec<LocalEntry>)
    ensures
        local_view(r@) == kept_entries(local_view(entries@), patterns_view(patterns@)),
{
    let mut out: Vec<LocalEntry> = Vec::new();
    let mut i: usize = 0;
    while i < entries.len()
        invariant
            i <= entries@.len(),
            local_view(out@) == kept_entries(
                local_view(entries@.take(i as int)),
                patterns_view(patterns@),
            ),
        decreases entries@.len() - i,
    {
        let e = &entries[i];
        assert(local_view(entries@.take(i + 1)).drop_last() =~= local_view(entries@.take(i as int)));
        if !is_excluded(e.relative_path.as_str(), patterns) {
            let ghost before = out@;
            out.push(LocalEntry { relative_path: e.relative_path.clone(), size: e.size });
            assert(local_view(out@) =~= local_view(before).push((e.relative_path@, e.size)));
        }
        i = i + 1;
    }
    assert(entries@.take(entries@.len() as int) =~= entries@);
    out
}

/// The remote entries whose path none of `patterns` excludes, in order.
pub fn drop_excluded_remote(entries: &[RemoteEntry], patterns: &[String]) -> (r: Vec<RemoteEntry>)
    ensures
        remote_view(r@) == kept_entries(remote_view(entries@), patterns_view(patterns@)),
{
    let mut out: Vec<RemoteEntry> = Vec::new();
    let mut i: usize = 0;
    while i < entries.len()
        invariant
            i <= entries@.len(),
            remote_view(out@) == kept_entries(
                remote_view(entries@.take(i as int)),
                patterns_view(patterns@),
            ),
        decreases entries@.len() - i,
    {
        let e = &entries[i];
        assert(remote_view(entries@.take(i + 1)).drop_last() =~= remote_view(entries@.take(i as int)));
        if !is_excluded(e.relative_path.as_str(), patterns) {
            let ghost before = out@;
            out.push(RemoteEntry { relative_path: e.relative_path.clone(), size: e.size });
            assert(remote_view(out@) =~= remote_view(before).push((e.relative_path@, e.size)));
        }
        i = i + 1;
    }
    assert(entries@.take(entries@.len() as int) =~= entries@);
    out
}

} // verus!
