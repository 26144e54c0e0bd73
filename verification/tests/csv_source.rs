use ftp_utils::csv_source::{
    read_local_entries, read_local_report, read_remote_entries, read_side_from_table,
};
use ftp_utils::diff::{DiffEntry, DiffStatus};
use ftp_utils::ftpdiff::csv_report::report_bytes;
use ftp_utils::local::LocalEntry;
use ftp_utils::remote::RemoteEntry;

const HEADER: &str = "path,status,local_size,remote_size,local_md5,remote_md5\n";

#[test]
fn reads_local_entries_and_skips_rows_without_local_size() {
    let data = format!(
        "{HEADER}\
         a.txt,Match,10,10,abc,abc\n\
         b.txt,RemoteOnly,,20,,def\n"
    );

    let (entries, known_md5) = read_local_entries(data.as_bytes()).unwrap();

    assert_eq!(entries, vec![LocalEntry { relative_path: "a.txt".to_string(), size: 10 }]);
    assert_eq!(known_md5.get("a.txt"), Some(&"abc".to_string()));
    assert_eq!(known_md5.get("b.txt"), None);
}

#[test]
fn reads_remote_entries_and_skips_rows_without_remote_size() {
    let data = format!(
        "{HEADER}\
         a.txt,Match,10,10,abc,abc\n\
         c.txt,LocalOnly,5,,ghi,\n"
    );

    let (entries, known_md5) = read_remote_entries(data.as_bytes()).unwrap();

    assert_eq!(entries, vec![RemoteEntry { relative_path: "a.txt".to_string(), size: 10 }]);
    assert_eq!(known_md5.get("a.txt"), Some(&"abc".to_string()));
    assert_eq!(known_md5.get("c.txt"), None);
}

#[test]
fn row_without_md5_is_not_added_to_known_map() {
    let data = format!("{HEADER}a.txt,SizeMismatch,10,20,,\n");

    let (entries, known_md5) = read_local_entries(data.as_bytes()).unwrap();

    assert_eq!(entries, vec![LocalEntry { relative_path: "a.txt".to_string(), size: 10 }]);
    assert!(known_md5.is_empty());
}

#[test]
fn errors_on_malformed_size_value() {
    let data = format!("{HEADER}a.txt,Match,not-a-number,10,,\n");

    let result = read_local_entries(data.as_bytes());

    assert!(result.is_err());
}

#[test]
fn errors_when_required_column_missing() {
    let result = read_local_entries(b"path,status\na.txt,Match\n");

    assert!(result.is_err());
}

#[test]
fn csv_source_errors_when_file_missing() {
    let path = "/nonexistent/report.csv";
    let contents: Result<Vec<u8>, String> = Err("No such file or directory (os error 2)".to_string());

    let result = read_local_report(path, contents);

    assert!(result.is_err());
    assert_eq!(
        result.unwrap_err().0,
        "cannot read CSV /nonexistent/report.csv: No such file or directory (os error 2)"
    );
}

#[test]
fn malformed_size_message_names_row_column_and_value() {
    let data = format!("{HEADER}a.txt,Match,not-a-number,10,,\n");
    let err = read_local_entries(data.as_bytes()).unwrap_err();
    assert_eq!(
        err.0,
        "row for 'a.txt' has invalid local_size 'not-a-number': invalid digit found in string"
    );
    let data = format!("{HEADER}b.txt,Match,99999999999999999999,10,,\n");
    let err = read_local_entries(data.as_bytes()).unwrap_err();
    assert_eq!(
        err.0,
        "row for 'b.txt' has invalid local_size '99999999999999999999': number too large to fit in target type"
    );
}

#[test]
fn missing_column_message_names_column() {
    let err = read_local_entries(b"path,status\na.txt,Match\n").unwrap_err();
    assert_eq!(err.0, "CSV missing 'local_size' column");
    let err = read_remote_entries(b"status,remote_size\nMatch,1\n").unwrap_err();
    assert_eq!(err.0, "CSV missing 'path' column");
}

#[test]
fn later_row_replaces_known_hash() {
    let data = format!("{HEADER}a.txt,Match,1,1,old,x\na.txt,Match,2,2,new,y\n");
    let (entries, known_md5) = read_local_entries(data.as_bytes()).unwrap();
    assert_eq!(entries.len(), 2);
    assert_eq!(known_md5.get("a.txt"), Some(&"new".to_string()));
}

#[test]
fn plus_sign_size_is_accepted() {
    let data = format!("{HEADER}a.txt,Match,+12,,,\n");
    let (entries, _) = read_local_entries(data.as_bytes()).unwrap();
    assert_eq!(entries, vec![LocalEntry { relative_path: "a.txt".to_string(), size: 12 }]);
}

#[test]
fn table_reader_stops_at_unreadable_record() {
    let header: Result<Vec<String>, String> = Ok(vec![
        "path".to_string(),
        "local_size".to_string(),
        "local_md5".to_string(),
    ]);
    let records: Vec<Result<Vec<String>, String>> = vec![
        Ok(vec!["a".to_string(), "1".to_string(), "".to_string()]),
        Err("bad".to_string()),
        Ok(vec!["c".to_string(), "x".to_string(), "".to_string()]),
    ];
    let err = read_side_from_table(&header, &records, "local_size", "local_md5").unwrap_err();
    assert_eq!(err.0, "invalid CSV row: bad");
}

#[test]
fn any_report_reads_back_as_each_side() {
    let entries = vec![
        DiffEntry {
            relative_path: "a.txt".into(),
            status: DiffStatus::HashMismatch,
            local_size: Some(10),
            remote_size: Some(10),
            local_md5: Some("aaa".into()),
            remote_md5: Some("bbb".into()),
        },
        DiffEntry {
            relative_path: "dir, with comma/b.txt".into(),
            status: DiffStatus::LocalOnly,
            local_size: Some(7),
            remote_size: None,
            local_md5: None,
            remote_md5: None,
        },
        DiffEntry {
            relative_path: "c \"quoted\".txt".into(),
            status: DiffStatus::RemoteOnly,
            local_size: None,
            remote_size: Some(3),
            local_md5: None,
            remote_md5: Some("ccc".into()),
        },
    ];
    let bytes = report_bytes(&entries);

    let (local, local_md5) = read_local_entries(&bytes).unwrap();
    assert_eq!(
        local,
        vec![
            LocalEntry { relative_path: "a.txt".into(), size: 10 },
            LocalEntry { relative_path: "dir, with comma/b.txt".into(), size: 7 },
        ]
    );
    assert_eq!(local_md5.get("a.txt"), Some(&"aaa".to_string()));
    assert_eq!(local_md5.get("dir, with comma/b.txt"), None);

    let (remote, remote_md5) = read_remote_entries(&bytes).unwrap();
    assert_eq!(
        remote,
        vec![
            RemoteEntry { relative_path: "a.txt".into(), size: 10 },
            RemoteEntry { relative_path: "c \"quoted\".txt".into(), size: 3 },
        ]
    );
    assert_eq!(remote_md5.get("a.txt"), Some(&"bbb".to_string()));
    assert_eq!(remote_md5.get("c \"quoted\".txt"), Some(&"ccc".to_string()));
}

#[test]
fn report_read_back_keeps_the_last_hash_of_a_path() {
    let entries = vec![
        DiffEntry {
            relative_path: "a.txt".into(),
            status: DiffStatus::Match,
            local_size: Some(1),
            remote_size: Some(1),
            local_md5: Some("first".into()),
            remote_md5: None,
        },
        DiffEntry {
            relative_path: "a.txt".into(),
            status: DiffStatus::Match,
            local_size: Some(2),
            remote_size: Some(2),
            local_md5: None,
            remote_md5: None,
        },
    ];
    let bytes = report_bytes(&entries);

    let (local, local_md5) = read_local_entries(&bytes).unwrap();
    assert_eq!(
        local,
        vec![
            LocalEntry { relative_path: "a.txt".into(), size: 1 },
            LocalEntry { relative_path: "a.txt".into(), size: 2 },
        ]
    );
    assert_eq!(local_md5.get("a.txt"), Some(&"first".to_string()));
}
