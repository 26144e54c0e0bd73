//! Properties of the library that relate several of its functions.

use vstd::prelude::*;
use crate::compare::{
    is_comparison, local_paths, local_size_of, remote_paths, remote_size_of, status_for,
    strictly_sorted,
};
use crate::text::{chars_lt, lemma_chars_lt_irreflexive, lemma_chars_lt_total};
use crate::connection::{first_given, merged, ConnectionArgs, ConnectionJsonConfig};
use crate::csv_source::{known_hashes, local_view, sized_rows, RowView};
use crate::diff::{status_label, DiffEntry, DiffStatus};
use crate::ftpdiff::csv_report::{hash_field, row_read_back, size_field};
use crate::ftpdiff::cli::Cli;
use crate::ftpdiff::config::JsonConfig;
use crate::ftpdiff::output::count_status;
use crate::ftpdiff::plan::{planned_mode, planned_server, ModeView, SideView};
use crate::ftpdiff::run::{is_local_scan, is_remote_scan};
use crate::ftpops::filter::{filter_status, Filter};
use crate::ftpops::ops::{OpOutcome, OpResult};
use crate::ftpops::output::{count_outcomes, is_success};
use crate::local::LocalEntry;
use crate::number::{lemma_parse_decimal_roundtrip, parse_u64_spec};
use crate::remote::{remote_view, RemoteEntry};

verus! {

/// Comparing a listing with an identical one finds every path on both
/// sides with equal sizes, so every entry of `compare_entries` is a
/// `Match`.
pub proof fn lemma_identical_sides_match(local: Seq<LocalEntry>, remote: Seq<RemoteEntry>, p: Seq<char>)
    requires
        local.len() == remote.len(),
        forall|i: int|
            #![trigger local[i]]
            0 <= i < local.len() ==> local[i].relative_path@ == remote[i].relative_path@
                && local[i].size == remote[i].size,
        local_size_of(local, p) is Some || remote_size_of(remote, p) is Some,
    ensures
        local_size_of(local, p) == remote_size_of(remote, p),
        status_for(local_size_of(local, p), remote_size_of(remote, p)) == DiffStatus::Match,
{
    let lp = local_paths(local);
    let rp = remote_paths(remote);
    let ls = local.map_values(|e: LocalEntry| e.size);
    let rs = remote.map_values(|e: RemoteEntry| e.size);
    assert forall|i: int| 0 <= i < ls.len() implies ls[i] == rs[i] by {
        assert(local[i].size == remote[i].size);
    }
    assert forall|i: int| 0 <= i < lp.len() implies lp[i] == rp[i] by {
        assert(local[i].relative_path@ == remote[i].relative_path@);
    }
    assert(lp =~= rp);
    assert(ls =~= rs);
}

/// Swapping the two sides of a comparison swaps `LocalOnly` and
/// `RemoteOnly` and keeps every other status.
pub proof fn lemma_swapped_sides(l: Option<u64>, r: Option<u64>)
    requires
        l is Some || r is Some,
    ensures
        status_for(l, r) == DiffStatus::LocalOnly <==> status_for(r, l) == DiffStatus::RemoteOnly,
        status_for(l, r) == DiffStatus::Match <==> status_for(r, l) == DiffStatus::Match,
        status_for(l, r) == DiffStatus::SizeMismatch <==> status_for(r, l)
            == DiffStatus::SizeMismatch,
{
}

/// A setting given on the command line wins over the JSON config.
pub proof fn lemma_cli_overrides_json(cli: Option<String>, json: Option<String>)
    requires
        cli is Some,
    ensures
        first_given(cli, json) == Some(cli->0@),
{
}

/// A boolean that the JSON config sets to `true` stays on whatever the
/// command line says: the CLI can enable a flag, never disable it.
pub proof fn lemma_json_true_stays(args: ConnectionArgs, json: ConnectionJsonConfig)
    requires
        merged(args, json) is Ok,
    ensures
        json.ftps == Some(true) ==> merged(args, json)->Ok_0.5,
        json.insecure_tls == Some(true) ==> merged(args, json)->Ok_0.6,
        args.ftps ==> merged(args, json)->Ok_0.5,
        args.insecure_tls ==> merged(args, json)->Ok_0.6,
{
}

/// The port is the CLI's if given, else the JSON config's, else 21.
pub proof fn lemma_default_port(args: ConnectionArgs, json: ConnectionJsonConfig)
    requires
        merged(args, json) is Ok,
        args.port is None,
        json.port is None,
    ensures
        merged(args, json)->Ok_0.1 == 21,
{
}

/// A size written into a report reads back as the same size.
pub proof fn lemma_size_field_reads_back(n: u64)
    ensures
        parse_u64_spec(size_field(Some(n))) == Ok::<u64, crate::number::IntParseIssue>(n),
{
    lemma_parse_decimal_roundtrip(n);
}

/// The status that a filter selects is the name a report writes for the
/// corresponding diff status.
pub proof fn lemma_filter_matches_report_status(f: Filter)
    ensures
        f == Filter::RemoteOnly ==> filter_status(f) == status_label(DiffStatus::RemoteOnly),
        f == Filter::LocalOnly ==> filter_status(f) == status_label(DiffStatus::LocalOnly),
{
}

/// Every result is counted exactly once in an ftpops summary.
pub proof fn lemma_outcome_counts_total(rs: Seq<OpResult>)
    ensures
        count_outcomes(rs, |o: OpOutcome| is_success(o)) + count_outcomes(
            rs,
            |o: OpOutcome| o is Skipped,
        ) + count_outcomes(rs, |o: OpOutcome| o is Failed) == rs.len(),
    decreases rs.len(),
{
    if rs.len() > 0 {
        lemma_outcome_counts_total(rs.drop_last());
    }
}

/// Every entry other than a scanned one is counted exactly once in an
/// ftpdiff summary.
pub proof fn lemma_status_counts_total(es: Seq<DiffEntry>)
    ensures
        count_status(es, DiffStatus::LocalOnly) + count_status(es, DiffStatus::RemoteOnly)
            + count_status(es, DiffStatus::SizeMismatch) + count_status(
            es,
            DiffStatus::HashMismatch,
        ) + count_status(es, DiffStatus::Match) + count_status(es, DiffStatus::Scan) == es.len(),
    decreases es.len(),
{
    if es.len() > 0 {
        lemma_status_counts_total(es.drop_last());
    }
}

/// A `--build` snapshot of the local side is valid `--local-csv` input:
/// the local side read back from the report of a scan is exactly the
/// scanned files, with no known hashes.
pub proof fn lemma_local_snapshot_reads_back(files: Seq<LocalEntry>, scanned: Seq<DiffEntry>)
    requires
        is_local_scan(files, scanned),
    ensures
        sized_rows(scanned.map_values(|e: DiffEntry| row_read_back(e, true))) == local_view(files),
        known_hashes(scanned.map_values(|e: DiffEntry| row_read_back(e, true))) == Map::<
            Seq<char>,
            Seq<char>,
        >::empty(),
    decreases files.len(),
{
    let rows = scanned.map_values(|e: DiffEntry| row_read_back(e, true));
    if files.len() > 0 {
        let n = files.len() - 1;
        let fs = files.drop_last();
        let ss = scanned.drop_last();
        assert(is_local_scan(fs, ss)) by {
            assert forall|i: int| 0 <= i < fs.len() implies ss[i] == scanned[i] by {}
        }
        lemma_local_snapshot_reads_back(fs, ss);
        assert(rows.drop_last() =~= ss.map_values(|e: DiffEntry| row_read_back(e, true)));
        assert(scanned[n].relative_path@ == files[n].relative_path@);
        assert(local_view(files) =~= local_view(fs).push((files[n].relative_path@, files[n].size)));
        assert(rows.last() == row_read_back(scanned[n], true));
        assert(hash_field(scanned[n].local_md5).len() == 0);
    } else {
        assert(rows =~= Seq::<RowView>::empty());
        assert(local_view(files) =~= Seq::<(Seq<char>, u64)>::empty());
    }
}

/// A `--build` snapshot of the remote side is valid `--remote-csv` input:
/// the remote side read back from the report of a scan is exactly the
/// scanned files, with no known hashes.
pub proof fn lemma_remote_snapshot_reads_back(files: Seq<RemoteEntry>, scanned: Seq<DiffEntry>)
    requires
        is_remote_scan(files, scanned),
    ensures
        sized_rows(scanned.map_values(|e: DiffEntry| row_read_back(e, false))) == remote_view(
            files,
        ),
        known_hashes(scanned.map_values(|e: DiffEntry| row_read_back(e, false))) == Map::<
            Seq<char>,
            Seq<char>,
        >::empty(),
    decreases files.len(),
{
    let rows = scanned.map_values(|e: DiffEntry| row_read_back(e, false));
    if files.len() > 0 {
        let n = files.len() - 1;
        let fs = files.drop_last();
        let ss = scanned.drop_last();
        assert(is_remote_scan(fs, ss)) by {
            assert forall|i: int| 0 <= i < fs.len() implies ss[i] == scanned[i] by {}
        }
        lemma_remote_snapshot_reads_back(fs, ss);
        assert(rows.drop_last() =~= ss.map_values(|e: DiffEntry| row_read_back(e, false)));
        assert(scanned[n].relative_path@ == files[n].relative_path@);
        assert(remote_view(files) =~= remote_view(fs).push((files[n].relative_path@, files[n].size)));
        assert(rows.last() == row_read_back(scanned[n], false));
        assert(hash_field(scanned[n].remote_md5).len() == 0);
    } else {
        assert(rows =~= Seq::<RowView>::empty());
        assert(remote_view(files) =~= Seq::<(Seq<char>, u64)>::empty());
    }
}

/// Reading both sides from reports needs no live setting at all: without
/// `--build`, such a run always resolves to a comparison of the two
/// reports, whatever else the command line and the JSON config give.
pub proof fn lemma_two_reports_need_no_settings(cli: Cli, json: JsonConfig)
    requires
        !cli.build,
        cli.local_csv is Some,
        cli.remote_csv is Some,
    ensures
        planned_mode(cli, json) == Ok::<ModeView, Seq<char>>(
            ModeView::Compare(
                SideView::Report(cli.local_csv->0@),
                SideView::Report(cli.remote_csv->0@),
            ),
        ),
{
}

/// A report source takes the place of its side's live settings: when
/// `--remote-csv` is given, the local side alone decides whether the run
/// resolves, and the remote side is the report.
pub proof fn lemma_remote_report_replaces_server(cli: Cli, json: JsonConfig)
    requires
        !cli.build,
        cli.remote_csv is Some,
    ensures
        (planned_mode(cli, json) is Ok) == (cli.local_csv is Some || first_given(
            cli.connection.local_dir,
            json.connection.local_dir,
        ) is Some),
        planned_mode(cli, json) matches Ok(ModeView::Compare(_, r)) ==> r == SideView::Report(
            cli.remote_csv->0@,
        ),
{
}

/// Exchanging the two sides of a comparison exchanges the sizes found for
/// every path, so `LocalOnly` and `RemoteOnly` trade places and every
/// other status stays: here `local2` lists what `remote` lists, and
/// `remote2` what `local` lists.
pub proof fn lemma_exchanged_sides(
    local: Seq<LocalEntry>,
    remote: Seq<RemoteEntry>,
    local2: Seq<LocalEntry>,
    remote2: Seq<RemoteEntry>,
    p: Seq<char>,
)
    requires
        local_view(local2) == remote_view(remote),
        remote_view(remote2) == local_view(local),
    ensures
        local_size_of(local2, p) == remote_size_of(remote, p),
        remote_size_of(remote2, p) == local_size_of(local, p),
        status_for(local_size_of(local, p), remote_size_of(remote, p)) == DiffStatus::LocalOnly
            <==> status_for(local_size_of(local2, p), remote_size_of(remote2, p))
            == DiffStatus::RemoteOnly,
        status_for(local_size_of(local, p), remote_size_of(remote, p)) == DiffStatus::RemoteOnly
            <==> status_for(local_size_of(local2, p), remote_size_of(remote2, p))
            == DiffStatus::LocalOnly,
        status_for(local_size_of(local, p), remote_size_of(remote, p)) == DiffStatus::Match
            <==> status_for(local_size_of(local2, p), remote_size_of(remote2, p))
            == DiffStatus::Match,
        status_for(local_size_of(local, p), remote_size_of(remote, p)) == DiffStatus::SizeMismatch
            <==> status_for(local_size_of(local2, p), remote_size_of(remote2, p))
            == DiffStatus::SizeMismatch,
{
    assert(local2.len() == remote.len() && remote2.len() == local.len()) by {
        assert(local_view(local2).len() == local2.len());
        assert(remote_view(remote).len() == remote.len());
        assert(remote_view(remote2).len() == remote2.len());
        assert(local_view(local).len() == local.len());
    }
    assert(local_paths(local2) =~= remote_paths(remote)) by {
        assert forall|i: int| 0 <= i < local2.len() implies local_paths(local2)[i] == remote_paths(
            remote,
        )[i] by {
            assert(local_view(local2)[i] == remote_view(remote)[i]);
        }
    }
    let ls2 = local2.map_values(|e: LocalEntry| e.size);
    let rs1 = remote.map_values(|e: RemoteEntry| e.size);
    assert(ls2 =~= rs1) by {
        assert forall|i: int| 0 <= i < local2.len() implies #[trigger] ls2[i] == rs1[i] by {
            assert(local_view(local2)[i] == remote_view(remote)[i]);
        }
    }
    assert(remote_paths(remote2) =~= local_paths(local)) by {
        assert forall|i: int| 0 <= i < remote2.len() implies remote_paths(remote2)[i] == local_paths(
            local,
        )[i] by {
            assert(remote_view(remote2)[i] == local_view(local)[i]);
        }
    }
    let rs2 = remote2.map_values(|e: RemoteEntry| e.size);
    let ls1 = local.map_values(|e: LocalEntry| e.size);
    assert(rs2 =~= ls1) by {
        assert forall|i: int| 0 <= i < remote2.len() implies #[trigger] rs2[i] == ls1[i] by {
            assert(remote_view(remote2)[i] == local_view(local)[i]);
        }
    }
}

/// The size that a report records for one side of an entry.
pub open spec fn side_size(e: DiffEntry, local: bool) -> Option<u64> {
    if local {
        e.local_size
    } else {
        e.remote_size
    }
}

/// The hash field that a report writes for one side of an entry.
pub open spec fn side_hash(e: DiffEntry, local: bool) -> Seq<char> {
    hash_field(
        if local {
            e.local_md5
        } else {
            e.remote_md5
        },
    )
}

/// Whether one side of an entry has both a size and a nonempty hash, so
/// that reading the report back knows its hash.
pub open spec fn hash_kept(e: DiffEntry, local: bool) -> bool {
    side_size(e, local) is Some && side_hash(e, local).len() > 0
}

/// The rows that reading a report back as one side's listing gives.
pub open spec fn read_back_rows(entries: Seq<DiffEntry>, local: bool) -> Seq<RowView> {
    entries.map_values(|e: DiffEntry| row_read_back(e, local))
}

/// One side's entries of a report: those with a size on that side, in
/// order, as path and size.
#[verifier::opaque]
pub open spec fn side_entries(entries: Seq<DiffEntry>, local: bool) -> Seq<(Seq<char>, u64)> {
    entries.filter(|e: DiffEntry| side_size(e, local) is Some).map_values(
        |e: DiffEntry| (e.relative_path@, side_size(e, local)->0),
    )
}

/// Whether `known` holds, for every path, the hash of the last entry of
/// `entries` for that path that has both a size and a hash on one side,
/// and no other path.
#[verifier::opaque]
pub open spec fn side_hashes(known: Map<Seq<char>, Seq<char>>, entries: Seq<DiffEntry>, local: bool) -> bool {
    &&& forall|q: Seq<char>|
        #[trigger] known.contains_key(q) <==> exists|i: int|
            0 <= i < entries.len() && entries[i].relative_path@ == q && hash_kept(
                #[trigger] entries[i],
                local,
            )
    &&& forall|i: int|
        0 <= i < entries.len() && hash_kept(#[trigger] entries[i], local) && (forall|j: int|
            i < j < entries.len() && entries[j].relative_path@ == entries[i].relative_path@
                ==> !hash_kept(#[trigger] entries[j], local)) ==> known[entries[i].relative_path@]
            == side_hash(entries[i], local)
}

/// A report read back as one side's listing gives that side's entries:
/// the entries with a size on that side, in order, with those sizes; and
/// for every path the hash of its last entry that has both a size and a
/// hash on that side, if any.
pub proof fn lemma_report_side_reads_back(entries: Seq<DiffEntry>, local: bool)
    ensures
        sized_rows(read_back_rows(entries, local)) == side_entries(entries, local),
        side_hashes(known_hashes(read_back_rows(entries, local)), entries, local),
    decreases entries.len(),
{
    reveal(side_entries);
    reveal(side_hashes);
    let rows = read_back_rows(entries, local);
    let pred = |e: DiffEntry| side_size(e, local) is Some;
    let pair = |e: DiffEntry| (e.relative_path@, side_size(e, local)->0);
    if entries.len() == 0 {
        reveal(Seq::filter);
        assert(rows =~= Seq::<RowView>::empty());
        assert(entries.filter(pred).map_values(pair) =~= Seq::<(Seq<char>, u64)>::empty());
    } else {
        let n = entries.len() - 1;
        let es = entries.drop_last();
        let last = entries[n];
        lemma_report_side_reads_back(es, local);
        let prev_rows = read_back_rows(es, local);
        assert(rows.drop_last() =~= prev_rows);
        assert(rows.last() == row_read_back(last, local));
        reveal(Seq::filter);
        assert(entries.filter(pred) == if pred(last) {
            es.filter(pred).push(last)
        } else {
            es.filter(pred)
        });
        if pred(last) {
            assert(entries.filter(pred).map_values(pair) =~= es.filter(pred).map_values(pair).push(
                pair(last),
            ));
        }
        let prev = known_hashes(prev_rows);
        let kh = known_hashes(rows);
        assert(kh == if hash_kept(last, local) {
            prev.insert(last.relative_path@, side_hash(last, local))
        } else {
            prev
        });
        assert forall|q: Seq<char>| #[trigger] kh.contains_key(q) <==> exists|i: int|
            0 <= i < entries.len() && entries[i].relative_path@ == q && hash_kept(
                #[trigger] entries[i],
                local,
            ) by {
            if kh.contains_key(q) {
                if hash_kept(last, local) && q == last.relative_path@ {
                    assert(entries[n] == last);
                } else {
                    assert(prev.contains_key(q));
                    let i = choose|i: int|
                        0 <= i < es.len() && es[i].relative_path@ == q && hash_kept(
                            #[trigger] es[i],
                            local,
                        );
                    assert(entries[i] == es[i]);
                }
            } else {
                assert forall|i: int|
                    0 <= i < entries.len() && entries[i].relative_path@ == q implies !hash_kept(
                    #[trigger] entries[i],
                    local,
                ) by {
                    if i < n {
                        assert(entries[i] == es[i]);
                    }
                }
            }
        }
        assert forall|i: int|
            0 <= i < entries.len() && hash_kept(#[trigger] entries[i], local) && (forall|j: int|
                i < j < entries.len() && entries[j].relative_path@ == entries[i].relative_path@
                    ==> !hash_kept(#[trigger] entries[j], local)) implies kh[entries[i].relative_path@]
            == side_hash(entries[i], local) by {
            if i < n {
                assert(entries[i] == es[i]);
                assert(!(hash_kept(last, local) && last.relative_path@ == entries[i].relative_path@))
                    by {
                    assert(entries[n] == last);
                }
                assert forall|j: int|
                    i < j < es.len() && es[j].relative_path@ == es[i].relative_path@ implies !hash_kept(
                    #[trigger] es[j],
                    local,
                ) by {
                    assert(entries[j] == es[j]);
                }
            }
        }
    }
}

/// Two sequences sorted strictly by `chars_lt` that hold the same paths are
/// the same sequence.
proof fn lemma_sorted_same_paths(a: Seq<Seq<char>>, b: Seq<Seq<char>>)
    requires
        strictly_sorted(a),
        strictly_sorted(b),
        forall|x: Seq<char>| a.contains(x) <==> b.contains(x),
    ensures
        a == b,
    decreases a.len(),
{
    if a.len() == 0 {
        if b.len() > 0 {
            assert(b.contains(b[0]));
        }
        assert(a =~= b);
    } else {
        assert(a.contains(a[0]));
        assert(b.len() > 0);
        assert(b.contains(b[0]));
        let j = choose|j: int| 0 <= j < b.len() && b[j] == a[0];
        let k = choose|k: int| 0 <= k < a.len() && a[k] == b[0];
        if a[0] != b[0] {
            assert(j > 0 && k > 0);
            assert(chars_lt(b[0], b[j]));
            assert(chars_lt(a[0], a[k]));
            lemma_chars_lt_total(a[0], b[0]);
        }
        let a1 = a.drop_first();
        let b1 = b.drop_first();
        assert(strictly_sorted(a1)) by {
            assert forall|x: int, y: int| 0 <= x < y < a1.len() implies chars_lt(a1[x], a1[y]) by {
                assert(a1[x] == a[x + 1] && a1[y] == a[y + 1]);
            }
        }
        assert(strictly_sorted(b1)) by {
            assert forall|x: int, y: int| 0 <= x < y < b1.len() implies chars_lt(b1[x], b1[y]) by {
                assert(b1[x] == b[x + 1] && b1[y] == b[y + 1]);
            }
        }
        assert forall|x: Seq<char>| a1.contains(x) <==> b1.contains(x) by {
            if a1.contains(x) {
                let q = choose|q: int| 0 <= q < a1.len() && a1[q] == x;
                assert(a[q + 1] == x);
                assert(chars_lt(a[0], x));
                lemma_chars_lt_irreflexive(x);
                assert(a.contains(x));
                let r = choose|r: int| 0 <= r < b.len() && b[r] == x;
                assert(r != 0);
                assert(b1[r - 1] == x);
            }
            if b1.contains(x) {
                let q = choose|q: int| 0 <= q < b1.len() && b1[q] == x;
                assert(b[q + 1] == x);
                assert(chars_lt(b[0], x));
                lemma_chars_lt_irreflexive(x);
                assert(b.contains(x));
                let r = choose|r: int| 0 <= r < a.len() && a[r] == x;
                assert(r != 0);
                assert(a1[r - 1] == x);
            }
        }
        lemma_sorted_same_paths(a1, b1);
        assert(a =~= seq![a[0]] + a1);
        assert(b =~= seq![b[0]] + b1);
    }
}

/// The status of a path with its two sides exchanged: `LocalOnly` and
/// `RemoteOnly` trade places, every other status stays.
pub open spec fn exchanged_status(s: DiffStatus) -> DiffStatus {
    match s {
        DiffStatus::LocalOnly => DiffStatus::RemoteOnly,
        DiffStatus::RemoteOnly => DiffStatus::LocalOnly,
        other => other,
    }
}

/// Comparing the exchanged sides gives the same paths in the same order,
/// each with its two sizes exchanged and its status exchanged: here
/// `local2` lists what `remote` lists and `remote2` what `local` lists, and
/// `out1`, `out2` are the two comparisons.
pub proof fn lemma_exchanged_comparisons(
    local: Seq<LocalEntry>,
    remote: Seq<RemoteEntry>,
    local2: Seq<LocalEntry>,
    remote2: Seq<RemoteEntry>,
    out1: Seq<DiffEntry>,
    out2: Seq<DiffEntry>,
)
    requires
        local_view(local2) == remote_view(remote),
        remote_view(remote2) == local_view(local),
        is_comparison(local, remote, out1),
        is_comparison(local2, remote2, out2),
    ensures
        out1.len() == out2.len(),
        forall|i: int|
            #![trigger out2[i]]
            0 <= i < out1.len() ==> {
                &&& out2[i].relative_path@ == out1[i].relative_path@
                &&& out2[i].local_size == out1[i].remote_size
                &&& out2[i].remote_size == out1[i].local_size
                &&& out2[i].status == exchanged_status(out1[i].status)
            },
{
    let p1 = out1.map_values(|e: DiffEntry| e.relative_path@);
    let p2 = out2.map_values(|e: DiffEntry| e.relative_path@);
    assert forall|x: Seq<char>| p1.contains(x) <==> p2.contains(x) by {
        lemma_exchanged_sides(local, remote, local2, remote2, x);
        if p1.contains(x) {
            let q = choose|q: int| 0 <= q < p1.len() && p1[q] == x;
            assert(out1[q].relative_path@ == x);
            let r = choose|r: int| 0 <= r < out2.len() && #[trigger] out2[r].relative_path@ == x;
            assert(p2[r] == x);
        }
        if p2.contains(x) {
            let q = choose|q: int| 0 <= q < p2.len() && p2[q] == x;
            assert(out2[q].relative_path@ == x);
            let r = choose|r: int| 0 <= r < out1.len() && #[trigger] out1[r].relative_path@ == x;
            assert(p1[r] == x);
        }
    }
    lemma_sorted_same_paths(p1, p2);
    assert(p1.len() == p2.len());
    assert forall|i: int| 0 <= i < out1.len() implies {
        &&& (#[trigger] out2[i]).relative_path@ == out1[i].relative_path@
        &&& out2[i].local_size == out1[i].remote_size
        &&& out2[i].remote_size == out1[i].local_size
        &&& out2[i].status == exchanged_status(out1[i].status)
    } by {
        assert(p1[i] == p2[i]);
        let x = out1[i].relative_path@;
        lemma_exchanged_sides(local, remote, local2, remote2, x);
    }
}

/// The server that ftpdiff plans to use is the one the shared connection
/// merge gives: whenever the merge of the command line and the JSON config
/// succeeds, the planned server has the same host, port, user, remote
/// directory and TLS flags. Whatever the merge, the port is the command
/// line's when it gives one, else the JSON config's when it gives one,
/// else 21; a server is planned exactly when host, user and remote
/// directory are each given somewhere, the command line's host winning
/// over the JSON config's; and FTPS is on when either turns it on.
pub proof fn lemma_planned_server_is_merged(args: ConnectionArgs, json: ConnectionJsonConfig)
    ensures
        merged(args, json) is Ok ==> (planned_server(args, json) matches Ok(s) && {
            let m = merged(args, json)->Ok_0;
            &&& s.0 == m.0
            &&& s.1 == m.1
            &&& s.2 == m.2
            &&& s.3 == m.3
            &&& s.4 == m.5
            &&& s.5 == m.6
        }),
        planned_server(args, json) is Ok && args.port is Some ==> planned_server(args, json)->Ok_0.1
            == args.port->0,
        planned_server(args, json) is Ok && args.port is None && json.port is Some ==> planned_server(
            args,
            json,
        )->Ok_0.1 == json.port->0,
        planned_server(args, json) is Ok && args.port is None && json.port is None ==> planned_server(
            args,
            json,
        )->Ok_0.1 == 21,
        (planned_server(args, json) is Ok) == (first_given(args.host, json.host) is Some
            && first_given(args.user, json.user) is Some && first_given(
            args.remote_dir,
            json.remote_dir,
        ) is Some),
        planned_server(args, json) is Ok && args.host is Some ==> planned_server(args, json)->Ok_0.0
            == args.host->0@,
        planned_server(args, json) is Ok && args.host is None ==> planned_server(args, json)->Ok_0.0
            == json.host->0@,
        planned_server(args, json) is Ok ==> planned_server(args, json)->Ok_0.4 == (args.ftps
            || json.ftps == Some(true)),
{
}

} // verus!
