//! Human-readable colored text output for diff results.

use vstd::prelude::*;
use crate::compare::status_for;
use crate::diff::{DiffEntry, DiffStatus};
use crate::number::{decimal, u64_to_decimal};
use crate::paint::{cyan_star, dimmed_equals, green_plus, painted, red_minus, yellow_tilde};
use crate::text::{owned, push_str};

verus! {

/// The glyph that marks each status.
pub open spec fn status_glyph(s: DiffStatus) -> Seq<char> {
    match s {
        DiffStatus::LocalOnly => "+"@,
        DiffStatus::RemoteOnly => "-"@,
        DiffStatus::SizeMismatch => "~"@,
        DiffStatus::HashMismatch => "~"@,
        DiffStatus::Match => "="@,
        DiffStatus::Scan => "*"@,
    }
}

/// An optional size as `{:?}` writes it: `Some(n)` or `None`.
pub open spec fn size_debug(s: Option<u64>) -> Seq<char> {
    match s {
        Some(n) => "Some("@ + decimal(n as nat) + ")"@,
        None => "None"@,
    }
}

/// The line for `e` after its (possibly colored) glyph `g`.
pub open spec fn entry_text(g: Seq<char>, e: DiffEntry) -> Seq<char> {
    match e.status {
        DiffStatus::SizeMismatch => g + " "@ + e.relative_path@ + " (local="@ + size_debug(
            e.local_size,
        ) + ", remote="@ + size_debug(e.remote_size) + ")"@,
        DiffStatus::HashMismatch => g + " "@ + e.relative_path@ + " (hash differs)"@,
        _ => g + " "@ + e.relative_path@,
    }
}

fn push_size_debug(s: &mut String, size: Option<u64>)
    ensures
        final(s)@ == old(s)@ + size_debug(size),
{
    match size {
        Some(n) => {
            push_str(s, "Some(");
            let digits = u64_to_decimal(n);
            push_str(s, digits.as_str());
            push_str(s, ")");
        },
        None => {
            push_str(s, "None");
        },
    }
}

/// The line for `entry` after the glyph `glyph`: the relative path, plus
/// both sizes for a size mismatch or a note for a hash mismatch.
pub fn entry_line(glyph: &str, entry: &DiffEntry) -> (r: String)
    ensures
        r@ == entry_text(glyph@, *entry),
{
    let mut s = owned(glyph);
    push_str(&mut s, " ");
    push_str(&mut s, entry.relative_path.as_str());
    match entry.status {
        DiffStatus::SizeMismatch => {
            push_str(&mut s, " (local=");
            push_size_debug(&mut s, entry.local_size);
            push_str(&mut s, ", remote=");
            push_size_debug(&mut s, entry.remote_size);
            push_str(&mut s, ")");
        },
        DiffStatus::HashMismatch => {
            push_str(&mut s, " (hash differs)");
        },
        _ => {},
    }
    s
}

/// Formats one diff entry as a single colored line: `+` local-only, `-`
/// remote-only, `~` size or hash mismatch, `=` match, `*` scanned.
pub fn format_entry(entry: &DiffEntry) -> (r: String)
    ensures
        exists|g: Seq<char>| painted(status_glyph(entry.status), g) && r@ == entry_text(g, *entry),
{
    let glyph = match entry.status {
        DiffStatus::LocalOnly => green_plus(),
        DiffStatus::RemoteOnly => red_minus(),
        DiffStatus::SizeMismatch => yellow_tilde(),
        DiffStatus::HashMismatch => yellow_tilde(),
        DiffStatus::Match => dimmed_equals(),
        DiffStatus::Scan => cyan_star(),
    };
    let r = entry_line(glyph.as_str(), entry);
    assert(painted(status_glyph(entry.status), glyph@) && r@ == entry_text(glyph@, *entry));
    r
}

/// Counts of entries by status.
pub struct Summary {
    pub local_only: usize,
    pub remote_only: usize,
    pub size_mismatch: usize,
    pub hash_mismatch: usize,
    pub matched: usize,
}

/// The number of entries with status `s`.
pub open spec fn count_status(es: Seq<DiffEntry>, s: DiffStatus) -> nat
    decreases es.len(),
{
    if es.len() == 0 {
        0
    } else {
        count_status(es.drop_last(), s) + if es.last().status == s {
            1nat
        } else {
            0nat
        }
    }
}

proof fn lemma_count_bounded(es: Seq<DiffEntry>, s: DiffStatus)
    ensures
        count_status(es, s) <= es.len(),
    decreases es.len(),
{
    if es.len() > 0 {
        lemma_count_bounded(es.drop_last(), s);
    }
}

/// Tallies `entries` by status. `Scan` entries, which a comparison never
/// produces, are not counted.
pub fn summarize(entries: &[DiffEntry]) -> (r: Summary)
    ensures
        r.local_only == count_status(entries@, DiffStatus::LocalOnly),
        r.remote_only == count_status(entries@, DiffStatus::RemoteOnly),
        r.size_mismatch == count_status(entries@, DiffStatus::SizeMismatch),
        r.hash_mismatch == count_status(entries@, DiffStatus::HashMismatch),
        r.matched == count_status(entries@, DiffStatus::Match),
{
    let mut summary = Summary {
        local_only: 0,
        remote_only: 0,
        size_mismatch: 0,
        hash_mismatch: 0,
        matched: 0,
    };
    let mut i: usize = 0;
    while i < entries.len()
        invariant
            i <= entries@.len(),
            summary.local_only == count_status(entries@.take(i as int), DiffStatus::LocalOnly),
            summary.remote_only == count_status(entries@.take(i as int), DiffStatus::RemoteOnly),
            summary.size_mismatch == count_status(entries@.take(i as int), DiffStatus::SizeMismatch),
            summary.hash_mismatch == count_status(entries@.take(i as int), DiffStatus::HashMismatch),
            summary.matched == count_status(entries@.take(i as int), DiffStatus::Match),
        decreases entries@.len() - i,
    {
        let ghost t = entries@.take(i + 1);
        assert(t.drop_last() =~= entries@.take(i as int));
        proof {
            lemma_count_bounded(entries@.take(i as int), DiffStatus::LocalOnly);
            lemma_count_bounded(entries@.take(i as int), DiffStatus::RemoteOnly);
            lemma_count_bounded(entries@.take(i as int), DiffStatus::SizeMismatch);
            lemma_count_bounded(entries@.take(i as int), DiffStatus::HashMismatch);
            lemma_count_bounded(entries@.take(i as int), DiffStatus::Match);
        }
        match entries[i].status {
            DiffStatus::LocalOnly => summary.local_only = summary.local_only + 1,
            DiffStatus::RemoteOnly => summary.remote_only = summary.remote_only + 1,
            DiffStatus::SizeMismatch => summary.size_mismatch = summary.size_mismatch + 1,
            DiffStatus::HashMismatch => summary.hash_mismatch = summary.hash_mismatch + 1,
            DiffStatus::Match => summary.matched = summary.matched + 1,
            DiffStatus::Scan => {},
        }
        i = i + 1;
    }
    assert(entries@.take(entries@.len() as int) =~= entries@);
    summary
}

/// The summary line for the given counts.
pub open spec fn summary_text(s: Summary) -> Seq<char> {
    "Summary: "@ + decimal(s.matched as nat) + " matched, "@ + decimal(s.local_only as nat)
        + " local-only, "@ + decimal(s.remote_only as nat) + " remote-only, "@ + decimal(
        s.size_mismatch as nat,
    ) + " size mismatch, "@ + decimal(s.hash_mismatch as nat) + " hash mismatch"@
}

/// Formats a one-line summary of the tallies.
pub fn format_summary(summary: &Summary) -> (r: String)
    ensures
        r@ == summary_text(*summary),
{
    let mut s = owned("Summary: ");
    push_str(&mut s, u64_to_decimal(summary.matched as u64).as_str());
    push_str(&mut s, " matched, ");
    push_str(&mut s, u64_to_decimal(summary.local_only as u64).as_str());
    push_str(&mut s, " local-only, ");
    push_str(&mut s, u64_to_decimal(summary.remote_only as u64).as_str());
    push_str(&mut s, " remote-only, ");
    push_str(&mut s, u64_to_decimal(summary.size_mismatch as u64).as_str());
    push_str(&mut s, " size mismatch, ");
    push_str(&mut s, u64_to_decimal(summary.hash_mismatch as u64).as_str());
    push_str(&mut s, " hash mismatch");
    s
}

/// The closing line of a `--build` scan, in place of the summary:
/// "Scanned <n> entries.".
pub fn format_scan_total(n: usize) -> (r: String)
    ensures
        r@ == "Scanned "@ + decimal(n as nat) + " entries."@,
{
    let mut s = owned("Scanned ");
    push_str(&mut s, u64_to_decimal(n as u64).as_str());
    push_str(&mut s, " entries.");
    s
}

/// A status count is the number of entries with that status: the entries
/// whose status is `s`, and no others, each counted once.
pub proof fn lemma_count_status_counts(es: Seq<DiffEntry>, s: DiffStatus)
    ensures
        count_status(es, s) == es.filter(|e: DiffEntry| e.status == s).len(),
    decreases es.len(),
{
    reveal(Seq::filter);
    if es.len() > 0 {
        lemma_count_status_counts(es.drop_last(), s);
    }
}

/// Counting over two runs of entries adds their counts; a single entry
/// counts once for its own status and for no other.
pub proof fn lemma_count_status_adds(a: Seq<DiffEntry>, b: Seq<DiffEntry>, s: DiffStatus)
    ensures
        count_status(a + b, s) == count_status(a, s) + count_status(b, s),
        forall|e: DiffEntry| #[trigger] count_status(seq![e], s) == if e.status == s {
            1nat
        } else {
            0nat
        },
    decreases b.len(),
{
    assert forall|e: DiffEntry| #[trigger] count_status(seq![e], s) == if e.status == s {
        1nat
    } else {
        0nat
    } by {
        let one = seq![e];
        assert(one.drop_last() =~= Seq::<DiffEntry>::empty());
        assert(count_status(one.drop_last(), s) == 0);
        assert(one.last() == e);
    }
    if b.len() == 0 {
        assert(a + b =~= a);
    } else {
        lemma_count_status_adds(a, b.drop_last(), s);
        assert((a + b).drop_last() =~= a + b.drop_last());
    }
}

/// The glyph of a compared path tells on which side the file is: `+`
/// exactly when only the local side has it, `-` exactly when only the
/// server has it; and statuses with different meanings get different
/// glyphs (only the two kinds of mismatch share `~`).
pub proof fn lemma_glyph_tells_the_side(l: Option<u64>, r: Option<u64>, s1: DiffStatus, s2: DiffStatus)
    requires
        l is Some || r is Some,
    ensures
        (status_glyph(status_for(l, r)) == "+"@) == (l is Some && r is None),
        (status_glyph(status_for(l, r)) == "-"@) == (l is None && r is Some),
        status_glyph(s1) == status_glyph(s2) ==> s1 == s2 || (s1 != DiffStatus::LocalOnly && s1
            != DiffStatus::RemoteOnly && s1 != DiffStatus::Match && s1 != DiffStatus::Scan && s2
            != DiffStatus::LocalOnly && s2 != DiffStatus::RemoteOnly && s2 != DiffStatus::Match && s2
            != DiffStatus::Scan),
{
    reveal_strlit("+");
    reveal_strlit("-");
    reveal_strlit("~");
    reveal_strlit("=");
    reveal_strlit("*");
    let glyphs = seq!["+"@, "-"@, "~"@, "="@, "*"@];
    assert forall|i: int, j: int| 0 <= i < 5 && 0 <= j < 5 && i != j implies glyphs[i] != glyphs[j] by {
        assert(glyphs[i][0] != glyphs[j][0]);
    }
    assert(glyphs[0] == "+"@ && glyphs[1] == "-"@ && glyphs[2] == "~"@ && glyphs[3] == "="@
        && glyphs[4] == "*"@);
}

/// Every entry is counted as matched exactly when every entry has the
/// status `Match`: the summary reports all files matched exactly when the
/// comparison found no difference.
pub proof fn lemma_all_matched(es: Seq<DiffEntry>)
    ensures
        (count_status(es, DiffStatus::Match) == es.len()) == (forall|i: int|
            0 <= i < es.len() ==> (#[trigger] es[i]).status == DiffStatus::Match),
    decreases es.len(),
{
    if es.len() > 0 {
        let prev = es.drop_last();
        lemma_all_matched(prev);
        lemma_count_bounded(prev, DiffStatus::Match);
        if forall|i: int| 0 <= i < prev.len() ==> (#[trigger] prev[i]).status == DiffStatus::Match {
            assert forall|i: int| 0 <= i < es.len() - 1 implies (#[trigger] es[i]).status
                == DiffStatus::Match by {
                assert(es[i] == prev[i]);
            }
        } else {
            let i = choose|i: int| 0 <= i < prev.len() && (#[trigger] prev[i]).status != DiffStatus::Match;
            assert(es[i] == prev[i]);
        }
    }
}

} // verus!
