//! Colored text output for ftpops operation results.

use vstd::prelude::*;
use crate::ftpops::csv_input::CsvRow;
use crate::ftpops::ops::{OpOutcome, OpResult};
use crate::number::{decimal, u64_to_decimal};
use crate::paint::{bold_red_bang, green_plus, painted, red_minus, yellow_tilde};
use crate::text::{owned, push_str};

verus! {

/// The glyph that marks each outcome.
pub open spec fn outcome_glyph(o: OpOutcome) -> Seq<char> {
    match o {
        OpOutcome::Copied => "+"@,
        OpOutcome::Deleted => "-"@,
        OpOutcome::Skipped => "~"@,
        OpOutcome::Failed(_) => "!"@,
    }
}

/// The line for `r` after its (possibly colored) glyph `g`.
pub open spec fn result_text(g: Seq<char>, r: OpResult) -> Seq<char> {
    match r.outcome {
        OpOutcome::Skipped => g + " "@ + r.relative_path@ + " (skipped, already exists)"@,
        OpOutcome::Failed(e) => g + " "@ + r.relative_path@ + " ("@ + e@ + ")"@,
        _ => g + " "@ + r.relative_path@,
    }
}

/// The line for `result` after the glyph `glyph`.
pub fn result_line(glyph: &str, result: &OpResult) -> (r: String)
    ensures
        r@ == result_text(glyph@, *result),
{
    let mut s = owned(glyph);
    push_str(&mut s, " ");
    push_str(&mut s, result.relative_path.as_str());
    match &result.outcome {
        OpOutcome::Skipped => {
            push_str(&mut s, " (skipped, already exists)");
        },
        OpOutcome::Failed(e) => {
            push_str(&mut s, " (");
            push_str(&mut s, e.as_str());
            push_str(&mut s, ")");
        },
        _ => {},
    }
    s
}

/// Formats one result as a colored line: `+` copied, `-` deleted,
/// `~` skipped, `!` failed (with the error message).
pub fn format_result(result: &OpResult) -> (r: String)
    ensures
        exists|g: Seq<char>| painted(outcome_glyph(result.outcome), g) && r@ == result_text(
            g,
            *result,
        ),
{
    let glyph = match &result.outcome {
        OpOutcome::Copied => green_plus(),
        OpOutcome::Deleted => red_minus(),
        OpOutcome::Skipped => yellow_tilde(),
        OpOutcome::Failed(_) => bold_red_bang(),
    };
    let r = result_line(glyph.as_str(), result);
    assert(painted(outcome_glyph(result.outcome), glyph@) && r@ == result_text(glyph@, *result));
    r
}

/// Formats a single dry-run preview line: "Would <verb>: <path>".
pub fn format_dry_run_line(verb: &str, relative_path: &str) -> (r: String)
    ensures
        r@ == "Would "@ + verb@ + ": "@ + relative_path@,
{
    let mut s = owned("Would ");
    push_str(&mut s, verb);
    push_str(&mut s, ": ");
    push_str(&mut s, relative_path);
    s
}

/// The closing line of a dry run: "Would <verb> <n> file(s).".
pub fn format_dry_run_total(verb: &str, n: usize) -> (r: String)
    ensures
        r@ == "Would "@ + verb@ + " "@ + decimal(n as nat) + " file(s)."@,
{
    let mut s = owned("Would ");
    push_str(&mut s, verb);
    push_str(&mut s, " ");
    push_str(&mut s, u64_to_decimal(n as u64).as_str());
    push_str(&mut s, " file(s).");
    s
}

/// What a dry run prints, touching nothing: one "Would <verb>: <path>"
/// line per selected row, in order, then the closing total.
pub fn dry_run_lines(verb: &str, rows: &[&CsvRow]) -> (r: Vec<String>)
    ensures
        r@.len() == rows@.len() + 1,
        forall|i: int|
            0 <= i < rows@.len() ==> (#[trigger] r@[i])@ == "Would "@ + verb@ + ": "@
                + rows@[i].relative_path@,
        r@.last()@ == "Would "@ + verb@ + " "@ + decimal(rows@.len()) + " file(s)."@,
{
    let mut lines: Vec<String> = Vec::new();
    let mut i: usize = 0;
    while i < rows.len()
        invariant
            i <= rows@.len(),
            lines@.len() == i,
            forall|k: int|
                0 <= k < i ==> (#[trigger] lines@[k])@ == "Would "@ + verb@ + ": "@
                    + rows@[k].relative_path@,
        decreases rows@.len() - i,
    {
        lines.push(format_dry_run_line(verb, rows[i].relative_path.as_str()));
        i = i + 1;
    }
    lines.push(format_dry_run_total(verb, rows.len()));
    lines
}

/// Counts of results by outcome.
pub struct Summary {
    pub succeeded: usize,
    pub skipped: usize,
    pub failed: usize,
}

/// Whether an outcome counts as a success.
pub open spec fn is_success(o: OpOutcome) -> bool {
    o is Copied || o is Deleted
}

/// The number of results whose outcome satisfies `pred`.
pub open spec fn count_outcomes(rs: Seq<OpResult>, pred: spec_fn(OpOutcome) -> bool) -> nat
    decreases rs.len(),
{
    if rs.len() == 0 {
        0
    } else {
        count_outcomes(rs.drop_last(), pred) + if pred(rs.last().outcome) {
            1nat
        } else {
            0nat
        }
    }
}

proof fn lemma_count_outcomes_bounded(rs: Seq<OpResult>, pred: spec_fn(OpOutcome) -> bool)
    ensures
        count_outcomes(rs, pred) <= rs.len(),
    decreases rs.len(),
{
    if rs.len() > 0 {
        lemma_count_outcomes_bounded(rs.drop_last(), pred);
    }
}

/// Tallies `results` by outcome (`Copied`/`Deleted` both count as
/// succeeded).
pub fn summarize(results: &[OpResult]) -> (r: Summary)
    ensures
        r.succeeded == count_outcomes(results@, |o: OpOutcome| is_success(o)),
        r.skipped == count_outcomes(results@, |o: OpOutcome| o is Skipped),
        r.failed == count_outcomes(results@, |o: OpOutcome| o is Failed),
{
    let ghost ps = |o: OpOutcome| is_success(o);
    let ghost pk = |o: OpOutcome| o is Skipped;
    let ghost pf = |o: OpOutcome| o is Failed;
    let mut summary = Summary { succeeded: 0, skipped: 0, failed: 0 };
    let mut i: usize = 0;
    while i < results.len()
        invariant
            i <= results@.len(),
            ps == (|o: OpOutcome| is_success(o)),
            pk == (|o: OpOutcome| o is Skipped),
            pf == (|o: OpOutcome| o is Failed),
            summary.succeeded == count_outcomes(results@.take(i as int), ps),
            summary.skipped == count_outcomes(results@.take(i as int), pk),
            summary.failed == count_outcomes(results@.take(i as int), pf),
        decreases results@.len() - i,
    {
        assert(results@.take(i + 1).drop_last() =~= results@.take(i as int));
        proof {
            lemma_count_outcomes_bounded(results@.take(i as int), ps);
            lemma_count_outcomes_bounded(results@.take(i as int), pk);
            lemma_count_outcomes_bounded(results@.take(i as int), pf);
        }
        match &results[i].outcome {
            OpOutcome::Copied => summary.succeeded = summary.succeeded + 1,
            OpOutcome::Deleted => summary.succeeded = summary.succeeded + 1,
            OpOutcome::Skipped => summary.skipped = summary.skipped + 1,
            OpOutcome::Failed(_) => summary.failed = summary.failed + 1,
        }
        i = i + 1;
    }
    assert(results@.take(results@.len() as int) =~= results@);
    summary
}

/// Formats a one-line summary of the tallies.
pub fn format_summary(summary: &Summary) -> (r: String)
    ensures
        r@ == "Summary: "@ + decimal(summary.succeeded as nat) + " succeeded, "@ + decimal(
            summary.skipped as nat,
        ) + " skipped, "@ + decimal(summary.failed as nat) + " failed"@,
{
    let mut s = owned("Summary: ");
    push_str(&mut s, u64_to_decimal(summary.succeeded as u64).as_str());
    push_str(&mut s, " succeeded, ");
    push_str(&mut s, u64_to_decimal(summary.skipped as u64).as_str());
    push_str(&mut s, " skipped, ");
    push_str(&mut s, u64_to_decimal(summary.failed as u64).as_str());
    push_str(&mut s, " failed");
    s
}

/// The exit code for a finished run: 1 if any operation failed, else 0.
pub fn exit_code(summary: &Summary) -> (r: i32)
    ensures
        r == (if summary.failed > 0 {
            1i32
        } else {
            0i32
        }),
{
    if summary.failed > 0 {
        1
    } else {
        0
    }
}

} // verus!
