//! Reading and writing CSV text through the `csv` crate, and locating
//! columns by header name.

use vstd::prelude::*;
use crate::text::str_equal;

verus! {

/// The fields of a record, each as its characters.
pub open spec fn fields_view(r: Seq<String>) -> Seq<Seq<char>> {
    r.map_values(|s: String| s@)
}

/// A record read by the `csv` crate, or the text of the error it reported.
pub open spec fn record_view(r: Result<Vec<String>, String>) -> Result<Seq<Seq<char>>, Seq<char>> {
    match r {
        Ok(fields) => Ok(fields_view(fields@)),
        Err(e) => Err(e@),
    }
}

/// The records of a sequence, each by `record_view`.
pub open spec fn records_view(rs: Seq<Result<Vec<String>, String>>) -> Seq<
    Result<Seq<Seq<char>>, Seq<char>>,
> {
    rs.map_values(|r: Result<Vec<String>, String>| record_view(r))
}

/// What `csv::Reader::headers` gives for a reader over `data` with the
/// default settings (comma-separated, first record is the header): the
/// header fields, or the displayed error.
pub uninterp spec fn csv_header_record(data: Seq<u8>) -> Result<Seq<Seq<char>>, Seq<char>>;

/// What `csv::Reader::records` yields, in order, for a reader over `data`
/// with the default settings: each data record after the header, or the
/// displayed error for a record that could not be read.
pub uninterp spec fn csv_data_records(data: Seq<u8>) -> Seq<Result<Seq<Seq<char>>, Seq<char>>>;

/// The bytes that a `csv::Writer` with the default settings writes for
/// `rows`, one record per row.
pub uninterp spec fn csv_encoding(rows: Seq<Seq<Seq<char>>>) -> Seq<u8>;

/// Calls `csv::Reader::from_reader(data).headers()` and converts the header
/// record into owned strings (or the error into its displayed text). The
/// contract only names the result.
#[verifier::external_body]
pub(crate) fn read_csv_header(data: &[u8]) -> (r: Result<Vec<String>, String>)
    ensures
        record_view(r) == csv_header_record(data@),
{
    match csv::Reader::from_reader(data).headers() {
        Ok(record) => Ok(record.iter().map(String::from).collect()),
        Err(e) => Err(e.to_string()),
    }
}

/// Calls `csv::Reader::from_reader(data).records()` and converts every item
/// it yields into owned strings (or an error into its displayed text). The
/// contract only names the result.
#[verifier::external_body]
pub(crate) fn read_csv_records(data: &[u8]) -> (r: Vec<Result<Vec<String>, String>>)
    ensures
        records_view(r@) == csv_data_records(data@),
{
    let mut reader = csv::Reader::from_reader(data);
    reader.records().map(|item| item.map(|rec| rec.iter().map(String::from).collect()).map_err(
        |e| e.to_string(),
    )).collect()
}

/// Whether all rows have the same number of fields.
pub open spec fn uniform_width(rows: Seq<Seq<Seq<char>>>) -> bool {
    forall|i: int, j: int| 0 <= i < rows.len() && 0 <= j < rows.len() ==> rows[i].len()
        == rows[j].len()
}

/// The fields of each row.
pub open spec fn rows_fields(rows: Seq<Vec<String>>) -> Seq<Seq<Seq<char>>> {
    rows.map_values(|row: Vec<String>| fields_view(row@))
}

/// A record that was read without error.
pub open spec fn read_ok(fields: Seq<Seq<char>>) -> Result<Seq<Seq<char>>, Seq<char>> {
    Ok(fields)
}

/// Whether a reader with the default settings gives back `rows` as a
/// writer with the default settings wrote them: there is a first row (the
/// header), no row is empty (the writer writes an empty record as one
/// empty field), and the first field does not start with a byte-order
/// mark (the reader drops one at the start of the data).
pub open spec fn reads_back_as_written(rows: Seq<Seq<Seq<char>>>) -> bool {
    &&& rows.len() > 0
    &&& forall|i: int| 0 <= i < rows.len() ==> (#[trigger] rows[i]).len() > 0
    &&& !(rows[0][0].len() > 0 && rows[0][0][0] == '\u{feff}')
}

/// Writes `rows` with `csv::Writer::write_record` into an in-memory buffer
/// and returns the bytes (`into_inner`). The writer's only errors are a
/// record whose field count differs from the first one's, which the
/// precondition rules out, and I/O errors, which a `Vec<u8>` sink never
/// gives; so the call succeeds. What it writes is only named; what is
/// stated is that a reader with the default settings reads the rows back:
/// the writer quotes every field that holds a delimiter, a quote or a line
/// break (doubling quotes), and the reader undoes exactly that, takes the
/// first row as the header and yields the others as records.
#[verifier::external_body]
pub(crate) fn write_csv_bytes(rows: &Vec<Vec<String>>) -> (r: Vec<u8>)
    requires
        uniform_width(rows@.map_values(|row: Vec<String>| fields_view(row@))),
    ensures
        r@ == csv_encoding(rows@.map_values(|row: Vec<String>| fields_view(row@))),
        reads_back_as_written(rows_fields(rows@)) ==> csv_header_record(r@) == read_ok(
            rows_fields(rows@)[0],
        ),
        reads_back_as_written(rows_fields(rows@)) ==> csv_data_records(r@) == rows_fields(
            rows@,
        ).drop_first().map_values(|f: Seq<Seq<char>>| read_ok(f)),
{
    let mut writer = csv::Writer::from_writer(Vec::new());
    for row in rows {
        let _ = writer.write_record(row);
    }
    writer.into_inner().unwrap_or_default()
}

/// The first position at or after `i` where `headers` holds `name`.
pub open spec fn find_column(headers: Seq<Seq<char>>, name: Seq<char>, i: int) -> Option<int>
    decreases headers.len() - i,
{
    if i < 0 || i >= headers.len() {
        None
    } else if headers[i] == name {
        Some(i)
    } else {
        find_column(headers, name, i + 1)
    }
}

/// The position of the first header equal to `name`, if any.
pub fn column_index(headers: &Vec<String>, name: &str) -> (r: Option<usize>)
    ensures
        r matches Some(i) ==> find_column(fields_view(headers@), name@, 0) == Some(i as int),
        r is None ==> find_column(fields_view(headers@), name@, 0) is None,
{
    let mut i: usize = 0;
    while i < headers.len()
        invariant
            i <= headers@.len(),
            find_column(fields_view(headers@), name@, 0) == find_column(
                fields_view(headers@),
                name@,
                i as int,
            ),
        decreases headers@.len() - i,
    {
        if str_equal(headers[i].as_str(), name) {
            return Some(i);
        }
        i = i + 1;
    }
    None
}

} // verus!
