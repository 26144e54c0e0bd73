//! CSV report output for diff results.

use vstd::prelude::*;
use crate::csv_source::{known_hashes, local_report, records_rows, remote_report, side_rows, sized_rows, RowView};
use crate::csv_table::{
    csv_data_records, csv_encoding, csv_header_record, fields_view, find_column, read_ok,
    reads_back_as_written, uniform_width, write_csv_bytes,
};
use crate::diff::{status_label, status_name, DiffEntry};
use crate::ftpops::csv_input::{report_status_rows, status_rows};
use crate::laws::{
    lemma_report_side_reads_back, lemma_size_field_reads_back, read_back_rows, side_entries, side_hashes,
};
use crate::number::{decimal, u64_to_decimal};
use crate::text::owned;

verus! {

/// The report's header fields.
pub open spec fn report_header() -> Seq<Seq<char>> {
    seq![
        "path"@,
        "status"@,
        "local_size"@,
        "remote_size"@,
        "local_md5"@,
        "remote_md5"@,
    ]
}

/// An optional size as a report field: its decimal digits, or empty.
pub open spec fn size_field(s: Option<u64>) -> Seq<char> {
    match s {
        Some(n) => decimal(n as nat),
        None => Seq::empty(),
    }
}

/// An optional hash as a report field: the hash, or empty.
pub open spec fn hash_field(h: Option<String>) -> Seq<char> {
    match h {
        Some(s) => s@,
        None => Seq::empty(),
    }
}

/// The report row of one entry.
pub open spec fn entry_fields(e: DiffEntry) -> Seq<Seq<char>> {
    seq![
        e.relative_path@,
        status_label(e.status),
        size_field(e.local_size),
        size_field(e.remote_size),
        hash_field(e.local_md5),
        hash_field(e.remote_md5),
    ]
}

/// All report rows: the header, then one row per entry in order.
pub open spec fn report_rows_spec(entries: Seq<DiffEntry>) -> Seq<Seq<Seq<char>>> {
    seq![report_header()] + entries.map_values(|e: DiffEntry| entry_fields(e))
}

/// The side of an entry that a report row gives back when read: path, the
/// side's size, and its hash when the entry has a nonempty one.
pub open spec fn row_read_back(e: DiffEntry, local: bool) -> RowView {
    let size = if local {
        e.local_size
    } else {
        e.remote_size
    };
    let hash = if local {
        hash_field(e.local_md5)
    } else {
        hash_field(e.remote_md5)
    };
    (e.relative_path@, size, if hash.len() == 0 {
        None
    } else {
        Some(hash)
    })
}

proof fn lemma_report_columns()
    ensures
        find_column(report_header(), "path"@, 0) == Some(0int),
        find_column(report_header(), "local_size"@, 0) == Some(2int),
        find_column(report_header(), "local_md5"@, 0) == Some(4int),
        find_column(report_header(), "remote_size"@, 0) == Some(3int),
        find_column(report_header(), "remote_md5"@, 0) == Some(5int),
{
    reveal_strlit("path");
    reveal_strlit("status");
    reveal_strlit("local_size");
    reveal_strlit("remote_size");
    reveal_strlit("local_md5");
    reveal_strlit("remote_md5");
    reveal_with_fuel(find_column, 7);
    let h = report_header();
    assert(h[0] == "path"@ && h[1] == "status"@ && h[2] == "local_size"@ && h[3] == "remote_size"@
        && h[4] == "local_md5"@ && h[5] == "remote_md5"@);
    assert("path"@.len() == 4 && "status"@.len() == 6 && "local_size"@.len() == 10
        && "remote_size"@.len() == 11 && "local_md5"@.len() == 9 && "remote_md5"@.len() == 10);
    assert("local_size"@[0] == 'l' && "remote_md5"@[0] == 'r');
    assert(h[0] != "local_size"@);
    assert(h[1] != "local_size"@);
    assert(find_column(report_header(), "local_size"@, 0) == Some(2int));
    assert(h[0] != "remote_size"@);
    assert(h[1] != "remote_size"@);
    assert(h[2] != "remote_size"@);
    assert(find_column(report_header(), "remote_size"@, 0) == Some(3int));
    assert(h[0] != "local_md5"@);
    assert(h[1] != "local_md5"@);
    assert(h[2] != "local_md5"@);
    assert(h[3] != "local_md5"@);
    assert(find_column(report_header(), "local_md5"@, 0) == Some(4int));
    assert(h[0] != "remote_md5"@);
    assert(h[1] != "remote_md5"@);
    assert(h[2] != "remote_md5"@);
    assert(h[3] != "remote_md5"@);
    assert(h[4] != "remote_md5"@);
    assert(find_column(report_header(), "remote_md5"@, 0) == Some(5int));
}

proof fn lemma_rows_read_back(entries: Seq<DiffEntry>, local: bool)
    ensures
        records_rows(
            entries.map_values(|e: DiffEntry| Ok::<Seq<Seq<char>>, Seq<char>>(entry_fields(e))),
            0,
            if local {
                2
            } else {
                3
            },
            if local {
                4
            } else {
                5
            },
            if local {
                "local_size"@
            } else {
                "remote_size"@
            },
        ) == Ok::<Seq<RowView>, Seq<char>>(entries.map_values(|e: DiffEntry| row_read_back(e, local))),
    decreases entries.len(),
{
    let recs = entries.map_values(|e: DiffEntry| Ok::<Seq<Seq<char>>, Seq<char>>(entry_fields(e)));
    if entries.len() > 0 {
        let e = entries[0];
        lemma_rows_read_back(entries.drop_first(), local);
        assert(recs.drop_first() =~= entries.drop_first().map_values(
            |e: DiffEntry| Ok::<Seq<Seq<char>>, Seq<char>>(entry_fields(e)),
        ));
        if local {
            if e.local_size is Some {
                lemma_size_field_reads_back(e.local_size->0);
            }
        } else {
            if e.remote_size is Some {
                lemma_size_field_reads_back(e.remote_size->0);
            }
        }
        assert(entries.map_values(|e: DiffEntry| row_read_back(e, local)) =~= seq![
            row_read_back(e, local),
        ] + entries.drop_first().map_values(|e: DiffEntry| row_read_back(e, local)));
    } else {
        assert(entries.map_values(|e: DiffEntry| row_read_back(e, local)) =~= Seq::<
            RowView,
        >::empty());
    }
}

/// Reading either side of the report's table (its header and the rows of
/// `entries`) gives each entry's path, that side's size, and its hash when
/// nonempty.
pub proof fn lemma_report_table_reads_back(entries: Seq<DiffEntry>, local: bool)
    ensures
        side_rows(
            Ok(report_header()),
            entries.map_values(|e: DiffEntry| Ok::<Seq<Seq<char>>, Seq<char>>(entry_fields(e))),
            if local {
                "local_size"@
            } else {
                "remote_size"@
            },
            if local {
                "local_md5"@
            } else {
                "remote_md5"@
            },
        ) == Ok::<Seq<RowView>, Seq<char>>(entries.map_values(|e: DiffEntry| row_read_back(e, local))),
{
    lemma_report_columns();
    lemma_rows_read_back(entries, local);
}

/// The path and status that ftpops reads from the report row of `e`.
pub open spec fn status_read_back(e: DiffEntry) -> (Seq<char>, Seq<char>) {
    (e.relative_path@, status_label(e.status))
}

proof fn lemma_status_rows_read_back(entries: Seq<DiffEntry>)
    ensures
        status_rows(
            entries.map_values(|e: DiffEntry| Ok::<Seq<Seq<char>>, Seq<char>>(entry_fields(e))),
            0,
            1,
        ) == Ok::<Seq<(Seq<char>, Seq<char>)>, Seq<char>>(
            entries.map_values(|e: DiffEntry| status_read_back(e)),
        ),
    decreases entries.len(),
{
    let recs = entries.map_values(|e: DiffEntry| Ok::<Seq<Seq<char>>, Seq<char>>(entry_fields(e)));
    if entries.len() > 0 {
        lemma_status_rows_read_back(entries.drop_first());
        assert(recs.drop_first() =~= entries.drop_first().map_values(
            |e: DiffEntry| Ok::<Seq<Seq<char>>, Seq<char>>(entry_fields(e)),
        ));
        assert(entries.map_values(|e: DiffEntry| status_read_back(e)) =~= seq![
            status_read_back(entries[0]),
        ] + entries.drop_first().map_values(|e: DiffEntry| status_read_back(e)));
    } else {
        assert(entries.map_values(|e: DiffEntry| status_read_back(e)) =~= Seq::<
            (Seq<char>, Seq<char>),
        >::empty());
    }
}

/// Reading the report's table the way ftpops does gives each entry's path
/// and status name, in order.
pub proof fn lemma_report_table_status_rows(entries: Seq<DiffEntry>)
    ensures
        report_status_rows(
            Ok(report_header()),
            entries.map_values(|e: DiffEntry| Ok::<Seq<Seq<char>>, Seq<char>>(entry_fields(e))),
        ) == Ok::<Seq<(Seq<char>, Seq<char>)>, Seq<char>>(
            entries.map_values(|e: DiffEntry| status_read_back(e)),
        ),
{
    reveal_strlit("path");
    reveal_strlit("status");
    reveal_with_fuel(find_column, 3);
    let h = report_header();
    assert(h[0] == "path"@ && h[1] == "status"@);
    assert("path"@.len() == 4 && "status"@.len() == 6);
    assert(h[0] != "status"@);
    assert(find_column(h, "status"@, 0) == Some(1int));
    lemma_status_rows_read_back(entries);
}

fn size_text(s: Option<u64>) -> (r: String)
    ensures
        r@ == size_field(s),
{
    match s {
        Some(n) => u64_to_decimal(n),
        None => String::new(),
    }
}

fn hash_text(h: &Option<String>) -> (r: String)
    ensures
        r@ == hash_field(*h),
{
    match h {
        Some(s) => s.clone(),
        None => String::new(),
    }
}

/// The rows of the report for `entries`: the header
/// `path,status,local_size,remote_size,local_md5,remote_md5`, then for each
/// entry its path, status name, sizes and hashes (absent ones empty).
pub fn report_rows(entries: &[DiffEntry]) -> (r: Vec<Vec<String>>)
    ensures
        r@.map_values(|row: Vec<String>| fields_view(row@)) == report_rows_spec(entries@),
{
    let mut rows: Vec<Vec<String>> = Vec::new();
    let mut header: Vec<String> = Vec::new();
    header.push(owned("path"));
    header.push(owned("status"));
    header.push(owned("local_size"));
    header.push(owned("remote_size"));
    header.push(owned("local_md5"));
    header.push(owned("remote_md5"));
    assert(fields_view(header@) =~= report_header());
    rows.push(header);
    let mut i: usize = 0;
    while i < entries.len()
        invariant
            i <= entries@.len(),
            rows@.map_values(|row: Vec<String>| fields_view(row@)) == seq![report_header()]
                + entries@.take(i as int).map_values(|e: DiffEntry| entry_fields(e)),
        decreases entries@.len() - i,
    {
        let e = &entries[i];
        let mut row: Vec<String> = Vec::new();
        row.push(e.relative_path.clone());
        row.push(owned(status_name(e.status)));
        row.push(size_text(e.local_size));
        row.push(size_text(e.remote_size));
        row.push(hash_text(&e.local_md5));
        row.push(hash_text(&e.remote_md5));
        assert(fields_view(row@) =~= entry_fields(*e));
        let ghost before = rows@.map_values(|row: Vec<String>| fields_view(row@));
        rows.push(row);
        assert(rows@.map_values(|row: Vec<String>| fields_view(row@)) =~= before.push(
            entry_fields(*e),
        ));
        assert(entries@.take(i + 1).map_values(|e: DiffEntry| entry_fields(e)) =~= entries@.take(
            i as int,
        ).map_values(|e: DiffEntry| entry_fields(e)).push(entry_fields(entries@[i as int])));
        i = i + 1;
    }
    assert(entries@.take(entries@.len() as int) =~= entries@);
    rows
}

/// The bytes of the CSV report for `entries`, written by the `csv` crate
/// from `report_rows`.
///
/// The report is valid input for either side: reading its local (or
/// remote) side gives, for each entry in order, its path, that side's size
/// and its hash when nonempty. So, whatever the entries, a report written
/// and read back as a side gives that side's entries (those with a size on
/// that side, in order, with those sizes) and, for every path, the hash of
/// its last entry with both a size and a hash on that side. It is valid
/// ftpops input too: reading its rows gives each entry's path and status
/// name, in order.
pub fn report_bytes(entries: &[DiffEntry]) -> (r: Vec<u8>)
    ensures
        r@ == csv_encoding(report_rows_spec(entries@)),
        local_report(r@) == Ok::<Seq<RowView>, Seq<char>>(
            entries@.map_values(|e: DiffEntry| row_read_back(e, true)),
        ),
        remote_report(r@) == Ok::<Seq<RowView>, Seq<char>>(
            entries@.map_values(|e: DiffEntry| row_read_back(e, false)),
        ),
        report_status_rows(csv_header_record(r@), csv_data_records(r@)) == Ok::<
            Seq<(Seq<char>, Seq<char>)>,
            Seq<char>,
        >(entries@.map_values(|e: DiffEntry| status_read_back(e))),
        local_report(r@) == Ok::<Seq<RowView>, Seq<char>>(read_back_rows(entries@, true)),
        remote_report(r@) == Ok::<Seq<RowView>, Seq<char>>(read_back_rows(entries@, false)),
        sized_rows(read_back_rows(entries@, true)) == side_entries(entries@, true),
        side_hashes(known_hashes(read_back_rows(entries@, true)), entries@, true),
        sized_rows(read_back_rows(entries@, false)) == side_entries(entries@, false),
        side_hashes(known_hashes(read_back_rows(entries@, false)), entries@, false),
{
    let rows = report_rows(entries);
    proof {
        let rv = rows@.map_values(|row: Vec<String>| fields_view(row@));
        assert forall|i: int, j: int| 0 <= i < rv.len() && 0 <= j < rv.len() implies rv[i].len()
            == rv[j].len() by {
            if i > 0 {
                assert(rv[i] == entry_fields(entries@[i - 1]));
            }
            if j > 0 {
                assert(rv[j] == entry_fields(entries@[j - 1]));
            }
        }
        assert(uniform_width(rv));
        reveal_strlit("path");
        assert(rv[0] == report_header());
        assert(rv[0][0] == "path"@);
        assert forall|i: int| 0 <= i < rv.len() implies (#[trigger] rv[i]).len() > 0 by {
            if i > 0 {
                assert(rv[i] == entry_fields(entries@[i - 1]));
            }
        }
        assert(reads_back_as_written(rv));
        assert(rv.drop_first().map_values(|f: Seq<Seq<char>>| read_ok(f)) =~= entries@.map_values(
            |e: DiffEntry| Ok::<Seq<Seq<char>>, Seq<char>>(entry_fields(e)),
        ));
        lemma_report_table_reads_back(entries@, true);
        lemma_report_table_reads_back(entries@, false);
        lemma_report_table_status_rows(entries@);
    }
    let r = write_csv_bytes(&rows);
    proof {
        lemma_report_side_reads_back(entries@, true);
        lemma_report_side_reads_back(entries@, false);
    }
    r
}

} // verus!
