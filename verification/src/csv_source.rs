//! Reads a previously-written `ftpdiff --csv` report as a substitute for
//! a live filesystem/FTP directory listing, for one side of a comparison
//! (`--local-csv` / `--remote-csv`).

use vstd::prelude::*;
use crate::csv_table::{
    column_index, csv_data_records, csv_header_record, fields_view, find_column, read_csv_header,
    read_csv_records, record_view, records_view,
};
use crate::known::KnownMd5;
use crate::local::LocalEntry;
use crate::number::{int_parse_issue_message, int_parse_issue_text, parse_u64, parse_u64_spec};
use crate::remote::{remote_view, RemoteEntry};
use crate::text::{owned, push_str};

verus! {

/// Error from reading a CSV report, with a human-readable message.
#[derive(Debug)]
pub struct CsvSourceError(pub String);

/// One report row, reduced to one side's columns.
#[derive(Debug, Clone)]
pub struct RawRow {
    pub relative_path: String,
    pub size: Option<u64>,
    pub md5: Option<String>,
}

/// A row as plain values: path, size, MD5.
pub type RowView = (Seq<char>, Option<u64>, Option<Seq<char>>);

/// The plain values of a row.
pub open spec fn row_view(r: RawRow) -> RowView {
    (
        r.relative_path@,
        r.size,
        match r.md5 {
            Some(m) => Some(m@),
            None => None,
        },
    )
}

/// The message for a required column that the header lacks.
pub open spec fn missing_column_message(column: Seq<char>) -> Seq<char> {
    "CSV missing '"@ + column + "' column"@
}

/// The message for a size field that does not parse.
pub open spec fn invalid_size_message(
    path: Seq<char>,
    column: Seq<char>,
    field: Seq<char>,
    issue: Seq<char>,
) -> Seq<char> {
    "row for '"@ + path + "' has invalid "@ + column + " '"@ + field + "': "@ + issue
}

/// Field `i` of a record, or the empty text when the record is shorter.
pub open spec fn field_or_empty(fields: Seq<Seq<char>>, i: int) -> Seq<char> {
    if 0 <= i < fields.len() {
        fields[i]
    } else {
        Seq::empty()
    }
}

/// The row that one record gives, or the message of the first problem in
/// it: `pi`, `si`, `mi` are the positions of the path, size and MD5 columns.
pub open spec fn record_row(
    fields: Seq<Seq<char>>,
    pi: int,
    si: int,
    mi: int,
    size_column: Seq<char>,
) -> Result<RowView, Seq<char>> {
    if !(0 <= pi < fields.len()) {
        Err("row missing 'path' value"@)
    } else {
        let path = fields[pi];
        let size_field = field_or_empty(fields, si);
        let md5_field = field_or_empty(fields, mi);
        let md5 = if md5_field.len() == 0 {
            None
        } else {
            Some(md5_field)
        };
        if size_field.len() == 0 {
            Ok((path, None, md5))
        } else {
            match parse_u64_spec(size_field) {
                Ok(v) => Ok((path, Some(v), md5)),
                Err(e) => Err(
                    invalid_size_message(path, size_column, size_field, int_parse_issue_message(e)),
                ),
            }
        }
    }
}

/// The rows of `records`, in order, or the message of the first problem:
/// an unreadable record or a bad field.
pub open spec fn records_rows(
    records: Seq<Result<Seq<Seq<char>>, Seq<char>>>,
    pi: int,
    si: int,
    mi: int,
    size_column: Seq<char>,
) -> Result<Seq<RowView>, Seq<char>>
    decreases records.len(),
{
    if records.len() == 0 {
        Ok(Seq::empty())
    } else {
        match records[0] {
            Err(e) => Err("invalid CSV row: "@ + e),
            Ok(fields) => match record_row(fields, pi, si, mi, size_column) {
                Err(m) => Err(m),
                Ok(row) => match records_rows(records.drop_first(), pi, si, mi, size_column) {
                    Ok(rest) => Ok(seq![row] + rest),
                    Err(m) => Err(m),
                },
            },
        }
    }
}

/// What reading one side of a report gives: the header must have `path`,
/// `size_column` and `md5_column` (first occurrence counts), then every
/// record gives a row.
pub open spec fn side_rows(
    header: Result<Seq<Seq<char>>, Seq<char>>,
    records: Seq<Result<Seq<Seq<char>>, Seq<char>>>,
    size_column: Seq<char>,
    md5_column: Seq<char>,
) -> Result<Seq<RowView>, Seq<char>> {
    match header {
        Err(e) => Err(e),
        Ok(hs) => match find_column(hs, "path"@, 0) {
            None => Err(missing_column_message("path"@)),
            Some(pi) => match find_column(hs, size_column, 0) {
                None => Err(missing_column_message(size_column)),
                Some(si) => match find_column(hs, md5_column, 0) {
                    None => Err(missing_column_message(md5_column)),
                    Some(mi) => records_rows(records, pi, si, mi, size_column),
                },
            },
        },
    }
}

/// Prepends `done` to a successful rest.
pub open spec fn then_rows(done: Seq<RowView>, rest: Result<Seq<RowView>, Seq<char>>) -> Result<
    Seq<RowView>,
    Seq<char>,
> {
    match rest {
        Ok(r) => Ok(done + r),
        Err(m) => Err(m),
    }
}

/// The plain values of a side's result.
pub open spec fn side_view(r: Result<Vec<RawRow>, CsvSourceError>) -> Result<Seq<RowView>, Seq<char>> {
    match r {
        Ok(rows) => Ok(rows@.map_values(|x: RawRow| row_view(x))),
        Err(e) => Err(e.0@),
    }
}

fn field_text(fields: &Vec<String>, i: usize) -> (r: &str)
    ensures
        r@ == field_or_empty(fields_view(fields@), i as int),
{
    if i < fields.len() {
        fields[i].as_str()
    } else {
        proof {
            reveal_strlit("");
        }
        ""
    }
}

fn missing_column(column: &str) -> (e: CsvSourceError)
    ensures
        e.0@ == missing_column_message(column@),
{
    let mut m = owned("CSV missing '");
    push_str(&mut m, column);
    push_str(&mut m, "' column");
    CsvSourceError(m)
}

/// Reads one record into a row.
fn read_record(fields: &Vec<String>, pi: usize, si: usize, mi: usize, size_column: &str) -> (r:
    Result<RawRow, CsvSourceError>)
    ensures
        match r {
            Ok(row) => record_row(fields_view(fields@), pi as int, si as int, mi as int, size_column@)
                == Ok::<RowView, Seq<char>>(row_view(row)),
            Err(e) => record_row(fields_view(fields@), pi as int, si as int, mi as int, size_column@)
                == Err::<RowView, Seq<char>>(e.0@),
        },
{
    if pi >= fields.len() {
        return Err(CsvSourceError(owned("row missing 'path' value")));
    }
    let path = fields[pi].as_str();
    let size_str = field_text(fields, si);
    let md5_str = field_text(fields, mi);
    let md5 = if md5_str.is_empty() {
        None
    } else {
        Some(owned(md5_str))
    };
    if size_str.is_empty() {
        return Ok(RawRow { relative_path: owned(path), size: None, md5 });
    }
    match parse_u64(size_str) {
        Ok(v) => Ok(RawRow { relative_path: owned(path), size: Some(v), md5 }),
        Err(issue) => {
            let mut m = owned("row for '");
            push_str(&mut m, path);
            push_str(&mut m, "' has invalid ");
            push_str(&mut m, size_column);
            push_str(&mut m, " '");
            push_str(&mut m, size_str);
            push_str(&mut m, "': ");
            let text = int_parse_issue_text(issue);
            push_str(&mut m, text.as_str());
            Err(CsvSourceError(m))
        },
    }
}

/// Reads one side of a report from its header and records as the `csv`
/// crate delivered them: locates the `path`, `size_column` and
/// `md5_column` columns, then turns each record into a row, stopping at
/// the first problem. An empty size or MD5 field reads as absent.
pub fn read_side_from_table(
    header: &Result<Vec<String>, String>,
    records: &Vec<Result<Vec<String>, String>>,
    size_column: &str,
    md5_column: &str,
) -> (r: Result<Vec<RawRow>, CsvSourceError>)
    ensures
        side_view(r) == side_rows(record_view(*header), records_view(records@), size_column@, md5_column@),
{
    let headers = match header {
        Ok(h) => h,
        Err(e) => {
            return Err(CsvSourceError(owned(e.as_str())));
        },
    };
    let pi = match column_index(headers, "path") {
        Some(i) => i,
        None => {
            return Err(missing_column("path"));
        },
    };
    let si = match column_index(headers, size_column) {
        Some(i) => i,
        None => {
            return Err(missing_column(size_column));
        },
    };
    let mi = match column_index(headers, md5_column) {
        Some(i) => i,
        None => {
            return Err(missing_column(md5_column));
        },
    };
    let ghost recs = records_view(records@);
    let mut rows: Vec<RawRow> = Vec::new();
    let mut k: usize = 0;
    assert(recs.skip(0) =~= recs);
    while k < records.len()
        invariant
            k <= records@.len(),
            recs == records_view(records@),
            side_rows(record_view(*header), recs, size_column@, md5_column@) == then_rows(
                rows@.map_values(|x: RawRow| row_view(x)),
                records_rows(recs.skip(k as int), pi as int, si as int, mi as int, size_column@),
            ),
        decreases records@.len() - k,
    {
        let ghost rest = recs.skip(k as int);
        assert(rest.drop_first() =~= recs.skip(k + 1));
        assert(rest[0] == record_view(records@[k as int]));
        match &records[k] {
            Err(e) => {
                let mut m = owned("invalid CSV row: ");
                push_str(&mut m, e.as_str());
                return Err(CsvSourceError(m));
            },
            Ok(fields) => {
                let row = match read_record(fields, pi, si, mi, size_column) {
                    Ok(row) => row,
                    Err(e) => {
                        return Err(e);
                    },
                };
                let ghost before = rows@.map_values(|x: RawRow| row_view(x));
                rows.push(row);
                assert(rows@.map_values(|x: RawRow| row_view(x)) =~= before.push(row_view(row)));
                proof {
                    let nxt = records_rows(
                        recs.skip(k + 1),
                        pi as int,
                        si as int,
                        mi as int,
                        size_column@,
                    );
                    if nxt is Ok {
                        let r2 = nxt->Ok_0;
                        assert(before + (seq![row_view(row)] + r2) =~= before.push(row_view(row))
                            + r2);
                    }
                }
            },
        }
        k = k + 1;
    }
    assert(recs.skip(records@.len() as int) =~= Seq::<Result<Seq<Seq<char>>, Seq<char>>>::empty());
    assert(rows@.map_values(|x: RawRow| row_view(x)) + Seq::<RowView>::empty() =~= rows@.map_values(
        |x: RawRow| row_view(x),
    ));
    Ok(rows)
}


/// The (path, size) pairs of the rows that have a size, in order.
pub open spec fn sized_rows(rows: Seq<RowView>) -> Seq<(Seq<char>, u64)>
    decreases rows.len(),
{
    if rows.len() == 0 {
        Seq::empty()
    } else {
        let prev = sized_rows(rows.drop_last());
        let r = rows.last();
        match r.1 {
            Some(size) => prev.push((r.0, size)),
            None => prev,
        }
    }
}

/// The hashes of the rows that have both a size and an MD5, later rows
/// replacing earlier ones for the same path.
pub open spec fn known_hashes(rows: Seq<RowView>) -> Map<Seq<char>, Seq<char>>
    decreases rows.len(),
{
    if rows.len() == 0 {
        Map::empty()
    } else {
        let prev = known_hashes(rows.drop_last());
        let r = rows.last();
        if r.1 is Some && r.2 is Some {
            prev.insert(r.0, r.2->0)
        } else {
            prev
        }
    }
}

/// The plain values of local entries.
pub open spec fn local_view(es: Seq<LocalEntry>) -> Seq<(Seq<char>, u64)> {
    es.map_values(|e: LocalEntry| (e.relative_path@, e.size))
}

/// Keeps the rows that have a size, as (path, size) pairs, and the hashes
/// of those that also have an MD5.
fn sized_and_known(rows: &Vec<RawRow>) -> (r: (Vec<(String, u64)>, KnownMd5))
    ensures
        r.0@.map_values(|p: (String, u64)| (p.0@, p.1)) == sized_rows(
            rows@.map_values(|x: RawRow| row_view(x)),
        ),
        r.1@ == known_hashes(rows@.map_values(|x: RawRow| row_view(x))),
{
    let ghost rv = rows@.map_values(|x: RawRow| row_view(x));
    let mut entries: Vec<(String, u64)> = Vec::new();
    let mut known = KnownMd5::new();
    let mut k: usize = 0;
    while k < rows.len()
        invariant
            k <= rows@.len(),
            rv == rows@.map_values(|x: RawRow| row_view(x)),
            entries@.map_values(|p: (String, u64)| (p.0@, p.1)) == sized_rows(rv.take(k as int)),
            known@ == known_hashes(rv.take(k as int)),
        decreases rows@.len() - k,
    {
        let ghost before = entries@.map_values(|p: (String, u64)| (p.0@, p.1));
        assert(rv.take(k + 1).drop_last() =~= rv.take(k as int));
        assert(rv.take(k + 1).last() == row_view(rows@[k as int]));
        let row = &rows[k];
        if let Some(size) = row.size {
            if let Some(m) = &row.md5 {
                known.insert(row.relative_path.clone(), m.clone());
            }
            entries.push((row.relative_path.clone(), size));
            assert(entries@.map_values(|p: (String, u64)| (p.0@, p.1)) =~= before.push(
                (row.relative_path@, size),
            ));
        }
        k = k + 1;
    }
    assert(rv.take(rows@.len() as int) =~= rv);
    (entries, known)
}

/// The local side of a report's rows: an entry for every row with a local
/// size, and the hashes of those that also have a local MD5.
pub fn local_entries_from_rows(rows: &Vec<RawRow>) -> (r: (Vec<LocalEntry>, KnownMd5))
    ensures
        local_view(r.0@) == sized_rows(rows@.map_values(|x: RawRow| row_view(x))),
        r.1@ == known_hashes(rows@.map_values(|x: RawRow| row_view(x))),
{
    let (pairs, known) = sized_and_known(rows);
    let mut entries: Vec<LocalEntry> = Vec::new();
    let mut k: usize = 0;
    while k < pairs.len()
        invariant
            k <= pairs@.len(),
            local_view(entries@) == pairs@.take(k as int).map_values(
                |p: (String, u64)| (p.0@, p.1),
            ),
        decreases pairs@.len() - k,
    {
        let ghost before = local_view(entries@);
        let e = LocalEntry { relative_path: pairs[k].0.clone(), size: pairs[k].1 };
        entries.push(e);
        assert(local_view(entries@) =~= before.push((e.relative_path@, e.size)));
        assert(pairs@.take(k + 1).map_values(|p: (String, u64)| (p.0@, p.1)) =~= pairs@.take(
            k as int,
        ).map_values(|p: (String, u64)| (p.0@, p.1)).push((pairs@[k as int].0@, pairs@[k as int].1)));
        k = k + 1;
    }
    assert(pairs@.take(pairs@.len() as int) =~= pairs@);
    (entries, known)
}

/// The remote side of a report's rows: an entry for every row with a
/// remote size, and the hashes of those that also have a remote MD5.
pub fn remote_entries_from_rows(rows: &Vec<RawRow>) -> (r: (Vec<RemoteEntry>, KnownMd5))
    ensures
        remote_view(r.0@) == sized_rows(rows@.map_values(|x: RawRow| row_view(x))),
        r.1@ == known_hashes(rows@.map_values(|x: RawRow| row_view(x))),
{
    let (pairs, known) = sized_and_known(rows);
    let mut entries: Vec<RemoteEntry> = Vec::new();
    let mut k: usize = 0;
    while k < pairs.len()
        invariant
            k <= pairs@.len(),
            remote_view(entries@) == pairs@.take(k as int).map_values(
                |p: (String, u64)| (p.0@, p.1),
            ),
        decreases pairs@.len() - k,
    {
        let ghost before = remote_view(entries@);
        let e = RemoteEntry { relative_path: pairs[k].0.clone(), size: pairs[k].1 };
        entries.push(e);
        assert(remote_view(entries@) =~= before.push((e.relative_path@, e.size)));
        assert(pairs@.take(k + 1).map_values(|p: (String, u64)| (p.0@, p.1)) =~= pairs@.take(
            k as int,
        ).map_values(|p: (String, u64)| (p.0@, p.1)).push((pairs@[k as int].0@, pairs@[k as int].1)));
        k = k + 1;
    }
    assert(pairs@.take(pairs@.len() as int) =~= pairs@);
    (entries, known)
}

/// What reading the local side of the report `data` gives, over the
/// records that the `csv` crate reads from it.
pub open spec fn local_report(data: Seq<u8>) -> Result<Seq<RowView>, Seq<char>> {
    side_rows(csv_header_record(data), csv_data_records(data), "local_size"@, "local_md5"@)
}

/// What reading the remote side of the report `data` gives, over the
/// records that the `csv` crate reads from it.
pub open spec fn remote_report(data: Seq<u8>) -> Result<Seq<RowView>, Seq<char>> {
    side_rows(csv_header_record(data), csv_data_records(data), "remote_size"@, "remote_md5"@)
}

/// Reads `local_size`/`local_md5` for every row that has a `local_size`
/// value, from the contents of a CSV report written by `ftpdiff --csv`.
/// Rows without a `local_size` are skipped (they had no local file in the
/// original report).
pub fn read_local_entries(data: &[u8]) -> (r: Result<(Vec<LocalEntry>, KnownMd5), CsvSourceError>)
    ensures
        match local_report(data@) {
            Err(m) => r matches Err(e) && e.0@ == m,
            Ok(rows) => r matches Ok(ok) && local_view(ok.0@) == sized_rows(rows) && ok.1@
                == known_hashes(rows),
        },
{
    let header = read_csv_header(data);
    let records = read_csv_records(data);
    let rows = read_side_from_table(&header, &records, "local_size", "local_md5")?;
    Ok(local_entries_from_rows(&rows))
}

/// Reads `remote_size`/`remote_md5` for every row that has a
/// `remote_size` value, from the contents of a CSV report written by
/// `ftpdiff --csv`. Rows without a `remote_size` are skipped (they had no
/// remote file in the original report).
pub fn read_remote_entries(data: &[u8]) -> (r: Result<
    (Vec<RemoteEntry>, KnownMd5),
    CsvSourceError,
>)
    ensures
        match remote_report(data@) {
            Err(m) => r matches Err(e) && e.0@ == m,
            Ok(rows) => r matches Ok(ok) && remote_view(ok.0@) == sized_rows(rows) && ok.1@
                == known_hashes(rows),
        },
{
    let header = read_csv_header(data);
    let records = read_csv_records(data);
    let rows = read_side_from_table(&header, &records, "remote_size", "remote_md5")?;
    Ok(remote_entries_from_rows(&rows))
}


/// The message for a report file that could not be read.
pub open spec fn unreadable_message(path: Seq<char>, error: Seq<char>) -> Seq<char> {
    "cannot read CSV "@ + path + ": "@ + error
}

fn unreadable(path: &str, error: &str) -> (e: CsvSourceError)
    ensures
        e.0@ == unreadable_message(path@, error@),
{
    let mut m = owned("cannot read CSV ");
    push_str(&mut m, path);
    push_str(&mut m, ": ");
    push_str(&mut m, error);
    CsvSourceError(m)
}

/// Reads the local side of the report at `path`, given what reading the
/// file gave: its bytes, or the text of the read error.
pub fn read_local_report(path: &str, contents: Result<Vec<u8>, String>) -> (r: Result<
    (Vec<LocalEntry>, KnownMd5),
    CsvSourceError,
>)
    ensures
        match contents {
            Err(e) => r matches Err(x) && x.0@ == unreadable_message(path@, e@),
            Ok(data) => match local_report(data@) {
                Err(m) => r matches Err(x) && x.0@ == m,
                Ok(rows) => r matches Ok(ok) && local_view(ok.0@) == sized_rows(rows) && ok.1@
                    == known_hashes(rows),
            },
        },
{
    match contents {
        Err(e) => Err(unreadable(path, e.as_str())),
        Ok(data) => read_local_entries(data.as_slice()),
    }
}

/// Reads the remote side of the report at `path`, given what reading the
/// file gave: its bytes, or the text of the read error.
pub fn read_remote_report(path: &str, contents: Result<Vec<u8>, String>) -> (r: Result<
    (Vec<RemoteEntry>, KnownMd5),
    CsvSourceError,
>)
    ensures
        match contents {
            Err(e) => r matches Err(x) && x.0@ == unreadable_message(path@, e@),
            Ok(data) => match remote_report(data@) {
                Err(m) => r matches Err(x) && x.0@ == m,
                Ok(rows) => r matches Ok(ok) && remote_view(ok.0@) == sized_rows(rows) && ok.1@
                    == known_hashes(rows),
            },
        },
{
    match contents {
        Err(e) => Err(unreadable(path, e.as_str())),
        Ok(data) => read_remote_entries(data.as_slice()),
    }
}

} // verus!
