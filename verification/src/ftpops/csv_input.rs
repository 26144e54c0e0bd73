//! Reads an `ftpdiff --csv` report and filters rows by status.

use vstd::prelude::*;
use crate::csv_table::{
    column_index, csv_data_records, csv_header_record, find_column, read_csv_header,
    read_csv_records, record_view, records_view,
};
use crate::text::{owned, push_str, str_equal};

verus! {

/// One row from an ftpdiff CSV report, reduced to what ftpops needs.
#[derive(Debug, Clone, PartialEq)]
pub struct CsvRow {
    pub relative_path: String,
    pub status: String,
}

/// Error from reading a CSV report, with a human-readable message.
#[derive(Debug)]
pub struct CsvError(pub String);

/// The plain values of a row: path and status.
pub open spec fn csv_row_view(r: CsvRow) -> (Seq<char>, Seq<char>) {
    (r.relative_path@, r.status@)
}

/// The rows of `records` given the positions of the path and status
/// columns, or the message of the first problem.
pub open spec fn status_rows(records: Seq<Result<Seq<Seq<char>>, Seq<char>>>, pi: int, si: int) -> Result<
    Seq<(Seq<char>, Seq<char>)>,
    Seq<char>,
>
    decreases records.len(),
{
    if records.len() == 0 {
        Ok(Seq::empty())
    } else {
        match records[0] {
            Err(e) => Err("invalid CSV row: "@ + e),
            Ok(fields) => if !(0 <= pi < fields.len()) {
                Err("row missing 'path' value"@)
            } else if !(0 <= si < fields.len()) {
                Err("row missing 'status' value"@)
            } else {
                match status_rows(records.drop_first(), pi, si) {
                    Ok(rest) => Ok(seq![(fields[pi], fields[si])] + rest),
                    Err(m) => Err(m),
                }
            },
        }
    }
}

/// What reading a report gives from its header and records: the `path`
/// and `status` columns (first occurrence counts) of every record.
pub open spec fn report_status_rows(
    header: Result<Seq<Seq<char>>, Seq<char>>,
    records: Seq<Result<Seq<Seq<char>>, Seq<char>>>,
) -> Result<Seq<(Seq<char>, Seq<char>)>, Seq<char>> {
    match header {
        Err(e) => Err(e),
        Ok(hs) => match find_column(hs, "path"@, 0) {
            None => Err("CSV missing 'path' column"@),
            Some(pi) => match find_column(hs, "status"@, 0) {
                None => Err("CSV missing 'status' column"@),
                Some(si) => status_rows(records, pi, si),
            },
        },
    }
}

/// The plain values of a reading result.
pub open spec fn rows_result_view(r: Result<Vec<CsvRow>, CsvError>) -> Result<
    Seq<(Seq<char>, Seq<char>)>,
    Seq<char>,
> {
    match r {
        Ok(rows) => Ok(rows@.map_values(|x: CsvRow| csv_row_view(x))),
        Err(e) => Err(e.0@),
    }
}

/// Prepends `done` to a successful rest.
pub open spec fn then_status_rows(
    done: Seq<(Seq<char>, Seq<char>)>,
    rest: Result<Seq<(Seq<char>, Seq<char>)>, Seq<char>>,
) -> Result<Seq<(Seq<char>, Seq<char>)>, Seq<char>> {
    match rest {
        Ok(r) => Ok(done + r),
        Err(m) => Err(m),
    }
}

/// Reads the `path` and `status` columns of every record, as the `csv`
/// crate delivered the header and records; extra columns are ignored.
pub fn rows_from_table(header: &Result<Vec<String>, String>, records: &Vec<Result<Vec<String>, String>>) -> (r:
    Result<Vec<CsvRow>, CsvError>)
    ensures
        rows_result_view(r) == report_status_rows(record_view(*header), records_view(records@)),
{
    let headers = match header {
        Ok(h) => h,
        Err(e) => {
            return Err(CsvError(owned(e.as_str())));
        },
    };
    let pi = match column_index(headers, "path") {
        Some(i) => i,
        None => {
            return Err(CsvError(owned("CSV missing 'path' column")));
        },
    };
    let si = match column_index(headers, "status") {
        Some(i) => i,
        None => {
            return Err(CsvError(owned("CSV missing 'status' column")));
        },
    };
    let ghost recs = records_view(records@);
    let mut rows: Vec<CsvRow> = Vec::new();
    let mut k: usize = 0;
    assert(recs.skip(0) =~= recs);
    while k < records.len()
        invariant
            k <= records@.len(),
            recs == records_view(records@),
            report_status_rows(record_view(*header), recs) == then_status_rows(
                rows@.map_values(|x: CsvRow| csv_row_view(x)),
                status_rows(recs.skip(k as int), pi as int, si as int),
            ),
        decreases records@.len() - k,
    {
        let ghost rest = recs.skip(k as int);
        assert(rest.drop_first() =~= recs.skip(k + 1));
        assert(rest[0] == record_view(records@[k as int]));
        match &records[k] {
            Err(e) => {
                let mut m = owned("invalid CSV row: ");
                push_str(&mut m, e.as_str());
                return Err(CsvError(m));
            },
            Ok(fields) => {
                if pi >= fields.len() {
                    return Err(CsvError(owned("row missing 'path' value")));
                }
                if si >= fields.len() {
                    return Err(CsvError(owned("row missing 'status' value")));
                }
                let row = CsvRow { relative_path: fields[pi].clone(), status: fields[si].clone() };
                let ghost before = rows@.map_values(|x: CsvRow| csv_row_view(x));
                rows.push(row);
                assert(rows@.map_values(|x: CsvRow| csv_row_view(x)) =~= before.push(
                    csv_row_view(row),
                ));
                proof {
                    let nxt = status_rows(recs.skip(k + 1), pi as int, si as int);
                    if nxt is Ok {
                        let r2 = nxt->Ok_0;
                        assert(before + (seq![csv_row_view(row)] + r2) =~= before.push(
                            csv_row_view(row),
                        ) + r2);
                    }
                }
            },
        }
        k = k + 1;
    }
    assert(recs.skip(records@.len() as int) =~= Seq::<Result<Seq<Seq<char>>, Seq<char>>>::empty());
    assert(rows@.map_values(|x: CsvRow| csv_row_view(x)) + Seq::<(Seq<char>, Seq<char>)>::empty()
        =~= rows@.map_values(|x: CsvRow| csv_row_view(x)));
    Ok(rows)
}

/// Reads every row of the report `data` (the contents of the CSV file),
/// keyed by its `path` and `status` columns, as written by `ftpdiff --csv`;
/// extra columns are ignored.
pub fn read_rows(data: &[u8]) -> (r: Result<Vec<CsvRow>, CsvError>)
    ensures
        rows_result_view(r) == report_status_rows(csv_header_record(data@), csv_data_records(data@)),
{
    let header = read_csv_header(data);
    let records = read_csv_records(data);
    rows_from_table(&header, &records)
}

/// Returns the rows whose `status` exactly matches `status`, in order.
pub fn filter_by_status<'a>(rows: &'a [CsvRow], status: &str) -> (r: Vec<&'a CsvRow>)
    ensures
        r@.map_values(|x: &CsvRow| *x) == rows@.filter(|x: CsvRow| x.status@ == status@),
{
    let mut out: Vec<&'a CsvRow> = Vec::new();
    let mut i: usize = 0;
    while i < rows.len()
        invariant
            i <= rows@.len(),
            out@.map_values(|x: &CsvRow| *x) == rows@.take(i as int).filter(
                |x: CsvRow| x.status@ == status@,
            ),
        decreases rows@.len() - i,
    {
        reveal_with_fuel(Seq::filter, 1);
        let ghost before = out@.map_values(|x: &CsvRow| *x);
        assert(rows@.take(i + 1).drop_last() =~= rows@.take(i as int));
        let row = &rows[i];
        if str_equal(row.status.as_str(), status) {
            out.push(row);
            assert(out@.map_values(|x: &CsvRow| *x) =~= before.push(*row));
        }
        i = i + 1;
    }
    assert(rows@.take(rows@.len() as int) =~= rows@);
    out
}


/// Reads the report at `path`, given what reading the file gave: its
/// bytes, or the text of the read error (reported as
/// `cannot read CSV <path>: <error>`).
pub fn read_rows_from_file(path: &str, contents: Result<Vec<u8>, String>) -> (r: Result<
    Vec<CsvRow>,
    CsvError,
>)
    ensures
        match contents {
            Err(e) => r matches Err(x) && x.0@ == "cannot read CSV "@ + path@ + ": "@ + e@,
            Ok(data) => rows_result_view(r) == report_status_rows(
                csv_header_record(data@),
                csv_data_records(data@),
            ),
        },
{
    match contents {
        Err(e) => {
            let mut m = owned("cannot read CSV ");
            push_str(&mut m, path);
            push_str(&mut m, ": ");
            push_str(&mut m, e.as_str());
            Err(CsvError(m))
        },
        Ok(data) => read_rows(data.as_slice()),
    }
}

} // verus!
