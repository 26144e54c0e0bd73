//! Turning the lines of a server's `LIST` answer into directory entries,
//! through the POSIX line parser of `suppaftp`.

use vstd::prelude::*;
use crate::remote::RawRemoteEntry;
use crate::text::str_equal;

verus! {

/// For a line that `suppaftp::list::ListParser::parse_posix` accepts in
/// some year: the name, directory flag and size that it reads from it
/// (`is_directory`, and `size` as a `u64`; none of them depends on the
/// year), and whether it accepts the line whatever the current year (the
/// year only matters for a date without a year, which the parser completes
/// with the current one, and only for February 29). `None` for a line that
/// it refuses in every year.
pub uninterp spec fn posix_list_fields(line: Seq<char>) -> Option<(Seq<char>, bool, u64, bool)>;

/// The fields that the parser reads from `line`, when it accepts it in
/// some year.
pub open spec fn read_fields(line: Seq<char>) -> Option<(Seq<char>, bool, u64)> {
    match posix_list_fields(line) {
        Some(x) => Some((x.0, x.1, x.2)),
        None => None,
    }
}

/// The name that the parser reads from `line` (empty when it refuses it in
/// every year).
pub open spec fn read_name(line: Seq<char>) -> Seq<char> {
    match posix_list_fields(line) {
        Some(x) => x.0,
        None => Seq::empty(),
    }
}

/// Whether the parser accepts `line` whatever the current year.
pub open spec fn always_read(line: Seq<char>) -> bool {
    posix_list_fields(line) matches Some(x) && x.3
}

/// The plain values of parsed fields.
pub open spec fn parsed_view(r: Option<(String, bool, u64)>) -> Option<(Seq<char>, bool, u64)> {
    match r {
        Some(x) => Some((x.0@, x.1, x.2)),
        None => None,
    }
}

/// Calls `suppaftp::list::ListParser::parse_posix(line)` and keeps the
/// file's name, `is_directory()` and `size()`. The fields of an accepted
/// line are only named. Whether a line with a date but no year is accepted
/// depends on the current year (the parser adds it, and February 29 does
/// not exist in every year), so this is stated: an accepted line gives the
/// named fields, a line refused in every year is refused, and a line
/// accepted in every year is accepted.
#[verifier::external_body]
fn parse_posix_line(line: &str) -> (r: Option<(String, bool, u64)>)
    ensures
        r is Some ==> (posix_list_fields(line@) matches Some(x) && parsed_view(r) == Some(
            (x.0, x.1, x.2),
        )),
        posix_list_fields(line@) is None ==> r is None,
        posix_list_fields(line@) matches Some(x) && x.3 ==> r is Some,
{
    match suppaftp::list::ListParser::parse_posix(line) {
        Ok(file) => Some((file.name().to_string(), file.is_directory(), file.size() as u64)),
        Err(_) => None,
    }
}

/// Whether a parse outcome is kept as an entry: parsed, and named neither
/// `.` nor `..`.
pub open spec fn kept_line(p: Option<(Seq<char>, bool, u64)>) -> bool {
    p matches Some(x) && x.0 != "."@ && x.0 != ".."@
}

/// The kept parse outcomes, in order.
pub open spec fn kept_listing(parsed: Seq<Option<(Seq<char>, bool, u64)>>) -> Seq<(Seq<char>, bool, u64)>
    decreases parsed.len(),
{
    if parsed.len() == 0 {
        Seq::empty()
    } else {
        let prev = kept_listing(parsed.drop_last());
        if kept_line(parsed.last()) {
            prev.push(parsed.last()->0)
        } else {
            prev
        }
    }
}

/// Whether `parsed` are possible parse outcomes of `lines`: each line
/// either refused, or parsed into its named fields; a line refused in every
/// year always refused, and a line accepted in every year always parsed.
pub open spec fn possible_parses(lines: Seq<String>, parsed: Seq<Option<(Seq<char>, bool, u64)>>) -> bool {
    &&& parsed.len() == lines.len()
    &&& forall|k: int|
        0 <= k < lines.len() ==> ((#[trigger] parsed[k]) is None || parsed[k] == read_fields(
            lines[k]@,
        ))
    &&& forall|k: int|
        0 <= k < lines.len() ==> (read_fields(#[trigger] lines[k]@) is None ==> parsed[k] is None)
    &&& forall|k: int|
        0 <= k < lines.len() ==> (always_read(#[trigger] lines[k]@) ==> parsed[k] == read_fields(
            lines[k]@,
        ))
}

/// Whether `out` is what a `LIST` answer of `lines` gives: the parse
/// outcomes of the lines, as `possible_parses` allows them, with those named
/// `.` or `..` and the refused lines left out.
pub open spec fn is_listing_of(lines: Seq<String>, out: Seq<(Seq<char>, bool, u64)>) -> bool {
    exists|parsed: Seq<Option<(Seq<char>, bool, u64)>>|
        possible_parses(lines, parsed) && out == #[trigger] kept_listing(parsed)
}

/// The plain values of directory entries.
pub open spec fn raw_view(es: Seq<RawRemoteEntry>) -> Seq<(Seq<char>, bool, u64)> {
    es.map_values(|e: RawRemoteEntry| (e.name@, e.is_dir, e.size))
}

/// The entries of a `LIST` answer: the lines that parse as POSIX lines,
/// in order, except those named `.` or `..`.
pub fn listing_entries(lines: &[String]) -> (r: Vec<RawRemoteEntry>)
    ensures
        exists|parsed: Seq<Option<(Seq<char>, bool, u64)>>|
            possible_parses(lines@, parsed) && raw_view(r@) == #[trigger] kept_listing(parsed),
        is_listing_of(lines@, raw_view(r@)),
{
    let mut out: Vec<RawRemoteEntry> = Vec::new();
    let ghost mut parsed: Seq<Option<(Seq<char>, bool, u64)>> = Seq::empty();
    let mut i: usize = 0;
    assert(raw_view(out@) =~= kept_listing(parsed));
    while i < lines.len()
        invariant
            i <= lines@.len(),
            possible_parses(lines@.take(i as int), parsed),
            raw_view(out@) == kept_listing(parsed),
        decreases lines@.len() - i,
    {
        let p = parse_posix_line(lines[i].as_str());
        let ghost pv = parsed_view(p);
        let ghost before = out@;
        let ghost old_parsed = parsed;
        proof {
            parsed = old_parsed.push(pv);
            assert(parsed.drop_last() =~= old_parsed);
            assert(lines@.take(i + 1)[i as int] == lines@[i as int]);
            assert forall|k: int| 0 <= k < i + 1 implies ((#[trigger] parsed[k]) is None || parsed[k]
                == read_fields(lines@.take(i + 1)[k]@)) by {
                if k < i {
                    assert(lines@.take(i + 1)[k] == lines@.take(i as int)[k]);
                }
            }
            assert forall|k: int| 0 <= k < i + 1 implies (read_fields(
                #[trigger] lines@.take(i + 1)[k]@,
            ) is None ==> parsed[k] is None) by {
                if k < i {
                    assert(lines@.take(i + 1)[k] == lines@.take(i as int)[k]);
                }
            }
            assert forall|k: int| 0 <= k < i + 1 implies (always_read(
                #[trigger] lines@.take(i + 1)[k]@,
            ) ==> parsed[k] == read_fields(lines@.take(i + 1)[k]@)) by {
                if k < i {
                    assert(lines@.take(i + 1)[k] == lines@.take(i as int)[k]);
                }
            }
        }
        match p {
            Some((name, is_dir, size)) => {
                if !str_equal(name.as_str(), ".") && !str_equal(name.as_str(), "..") {
                    out.push(RawRemoteEntry { name, is_dir, size });
                    assert(raw_view(out@) =~= raw_view(before).push(pv->0));
                }
            },
            None => {},
        }
        i = i + 1;
    }
    assert(lines@.take(lines@.len() as int) =~= lines@);
    out
}

proof fn lemma_kept_listing_shape(parsed: Seq<Option<(Seq<char>, bool, u64)>>)
    ensures
        kept_listing(parsed).len() <= parsed.len(),
        forall|i: int|
            0 <= i < kept_listing(parsed).len() ==> {
                &&& (#[trigger] kept_listing(parsed)[i]).0 != "."@
                &&& kept_listing(parsed)[i].0 != ".."@
                &&& exists|k: int| 0 <= k < parsed.len() && parsed[k] == Some(kept_listing(parsed)[i])
            },
        (forall|k: int|
            0 <= k < parsed.len() ==> kept_line(#[trigger] parsed[k])) ==> kept_listing(parsed) == parsed.map_values(
            |p: Option<(Seq<char>, bool, u64)>| p->0,
        ),
    decreases parsed.len(),
{
    if parsed.len() > 0 {
        let prev = parsed.drop_last();
        lemma_kept_listing_shape(prev);
        let out = kept_listing(parsed);
        assert forall|i: int| 0 <= i < out.len() implies {
            &&& (#[trigger] out[i]).0 != "."@
            &&& out[i].0 != ".."@
            &&& exists|k: int| 0 <= k < parsed.len() && parsed[k] == Some(out[i])
        } by {
            if i < kept_listing(prev).len() {
                assert(out[i] == kept_listing(prev)[i]);
                let k = choose|k: int| 0 <= k < prev.len() && prev[k] == Some(kept_listing(prev)[i]);
                assert(parsed[k] == prev[k]);
            } else {
                assert(parsed[parsed.len() - 1] == Some(out[i]));
            }
        }
        if forall|k: int|
            0 <= k < parsed.len() ==> kept_line(#[trigger] parsed[k]) {
            assert forall|k: int| 0 <= k < prev.len() implies kept_line(#[trigger] prev[k]) by {
                assert(prev[k] == parsed[k]);
            }
            assert(parsed[parsed.len() - 1] == parsed.last());
            assert(parsed.map_values(|p: Option<(Seq<char>, bool, u64)>| p->0) =~= prev.map_values(
                |p: Option<(Seq<char>, bool, u64)>| p->0,
            ).push(parsed.last()->0));
        }
    }
}

/// A `LIST` answer gives one entry per line that the parser accepts
/// whatever the year, in order, unless that line is named `.` or `..`: no
/// entry is named `.` or `..`, every entry is the fields of one of the
/// lines, there are no more entries than lines, and when every line is
/// accepted whatever the year and named neither `.` nor `..`, the entries
/// are exactly the lines' fields, line by line.
pub proof fn lemma_listing_keeps_accepted_lines(lines: Seq<String>, out: Seq<(Seq<char>, bool, u64)>)
    requires
        is_listing_of(lines, out),
    ensures
        out.len() <= lines.len(),
        forall|i: int|
            0 <= i < out.len() ==> {
                &&& (#[trigger] out[i]).0 != "."@
                &&& out[i].0 != ".."@
                &&& exists|k: int| 0 <= k < lines.len() && read_fields(lines[k]@) == Some(out[i])
            },
        (forall|k: int|
            0 <= k < lines.len() ==> always_read(#[trigger] lines[k]@) && read_name(lines[k]@)
                != "."@ && read_name(lines[k]@) != ".."@) ==> out.len() == lines.len() && (
        forall|k: int| 0 <= k < lines.len() ==> out[k] == read_fields(#[trigger] lines[k]@)->0),
{
    let parsed = choose|parsed: Seq<Option<(Seq<char>, bool, u64)>>|
        possible_parses(lines, parsed) && out == #[trigger] kept_listing(parsed);
    lemma_kept_listing_shape(parsed);
    assert forall|i: int| 0 <= i < out.len() implies exists|k: int|
        0 <= k < lines.len() && read_fields(lines[k]@) == Some(#[trigger] out[i]) by {
        let k = choose|k: int| 0 <= k < parsed.len() && parsed[k] == Some(kept_listing(parsed)[i]);
        assert(parsed[k] is Some);
        assert(read_fields(lines[k]@) == Some(out[i]));
    }
    if forall|k: int|
        0 <= k < lines.len() ==> always_read(#[trigger] lines[k]@) && read_name(lines[k]@)
            != "."@ && read_name(lines[k]@) != ".."@ {
        assert forall|k: int| 0 <= k < parsed.len() implies kept_line(#[trigger] parsed[k]) by {
            assert(always_read(lines[k]@));
            assert(parsed[k] == read_fields(lines[k]@));
        }
        assert forall|k: int| 0 <= k < lines.len() implies out[k] == read_fields(#[trigger] lines[k]@)->0 by {
            assert(always_read(lines[k]@));
            assert(parsed[k] == read_fields(lines[k]@));
        }
    }
}

} // verus!
