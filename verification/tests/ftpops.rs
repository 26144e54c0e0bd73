use ftp_utils::logged::Logged;
use ftp_utils::diff::{DiffEntry, DiffStatus};
use ftp_utils::ftpdiff::csv_report::report_bytes;
use std::collections::HashMap;

use ftp_utils::ftpops::csv_input::{filter_by_status, read_rows, read_rows_from_file, CsvRow};
use ftp_utils::ftpops::filter::Filter;
use ftp_utils::ftpops::ops::{
    copy_to_local, copy_to_remote, delete_local, file_listed, delete_remote, ensure_remote_dir,
    remote_file_exists, split_parent, LocalFiles, OpOutcome, OpResult,
};
use ftp_utils::ftpops::output::{
    dry_run_lines, format_dry_run_line, format_dry_run_total, format_result, format_summary, summarize, Summary,
};
use ftp_utils::ftpops::validate::{validate_copy, validate_delete, CopyTarget, DeleteTarget};
use ftp_utils::remote::{FtpConnection, FtpConnectionError, RawRemoteEntry};

#[derive(Default)]
struct MockConnection {
    listings: HashMap<String, Vec<RawRemoteEntry>>,
    remote_files: HashMap<String, Vec<u8>>,
    stored: Vec<(String, Vec<u8>)>,
    deleted: Vec<String>,
    created_dirs: Vec<String>,
}

impl FtpConnection for MockConnection {
    fn list_dir(&mut self, path: &str) -> Result<Vec<RawRemoteEntry>, FtpConnectionError> {
        Ok(self.listings.get(path).cloned().unwrap_or_default())
    }

    fn try_hash(&mut self, _path: &str) -> Option<String> {
        None
    }

    fn retr_to_buffer(&mut self, path: &str) -> Result<Vec<u8>, FtpConnectionError> {
        self.remote_files
            .get(path)
            .cloned()
            .ok_or_else(|| FtpConnectionError(format!("no such remote file: {path}")))
    }

    fn store_from_buffer(&mut self, path: &str, data: &[u8]) -> Result<(), FtpConnectionError> {
        self.stored.push((path.to_string(), data.to_vec()));
        Ok(())
    }

    fn delete(&mut self, path: &str) -> Result<(), FtpConnectionError> {
        if path.ends_with("locked.txt") {
            return Err(FtpConnectionError("550 permission denied".to_string()));
        }
        self.deleted.push(path.to_string());
        Ok(())
    }

    fn create_dir(&mut self, path: &str) -> Result<(), FtpConnectionError> {
        self.created_dirs.push(path.to_string());

        let (parent, name) = path.rsplit_once('/').unwrap_or(("", path));
        let parent = if parent.is_empty() { "/" } else { parent };

        self.listings
            .entry(parent.to_string())
            .or_default()
            .push(RawRemoteEntry { name: name.to_string(), is_dir: true, size: 0 });
        self.listings.entry(path.to_string()).or_default();

        Ok(())
    }
}

/// An in-memory local directory: files by relative path, plus the
/// directories that writes created.
#[derive(Default)]
struct MockLocal {
    files: HashMap<String, Vec<u8>>,
    dirs: Vec<String>,
}

impl LocalFiles for MockLocal {
    fn file_exists(&mut self, relative_path: &str) -> bool {
        self.files.contains_key(relative_path)
    }

    fn read_file(&mut self, relative_path: &str) -> Result<Vec<u8>, String> {
        self.files.get(relative_path).cloned().ok_or_else(|| format!("no such file: {relative_path}"))
    }

    fn write_file(&mut self, relative_path: &str, data: &[u8]) -> Result<(), String> {
        if let Some((parent, _)) = relative_path.rsplit_once('/') {
            if !self.dirs.iter().any(|d| d == parent) {
                self.dirs.push(parent.to_string());
            }
        }
        self.files.insert(relative_path.to_string(), data.to_vec());
        Ok(())
    }

    fn remove_file(&mut self, relative_path: &str) -> Result<(), String> {
        self.files.remove(relative_path).map(|_| ()).ok_or_else(|| format!("no such file: {relative_path}"))
    }
}

fn row(relative_path: &str) -> CsvRow {
    CsvRow { relative_path: relative_path.to_string(), status: "RemoteOnly".to_string() }
}

fn result(relative_path: &str, outcome: OpOutcome) -> OpResult {
    OpResult { relative_path: relative_path.to_string(), outcome }
}

#[test]
fn reads_path_and_status_columns() {
    let data = "path,status,local_size,remote_size,local_md5,remote_md5\n\
                a.txt,RemoteOnly,,10,,\n\
                sub/b.txt,LocalOnly,5,,,\n";

    let rows = read_rows(data.as_bytes()).unwrap();

    assert_eq!(
        rows,
        vec![
            CsvRow { relative_path: "a.txt".to_string(), status: "RemoteOnly".to_string() },
            CsvRow { relative_path: "sub/b.txt".to_string(), status: "LocalOnly".to_string() },
        ]
    );
}

#[test]
fn csv_input_errors_when_file_missing() {
    let path = "/nonexistent/report.csv";
    let result = read_rows_from_file(path, Err("No such file or directory (os error 2)".to_string()));

    assert!(result.is_err());
}

#[test]
fn missing_status_column_is_reported() {
    let err = read_rows(b"path,local_size\na,1\n").unwrap_err();
    assert_eq!(err.0, "CSV missing 'status' column");
}

#[test]
fn filter_by_status_selects_matching_rows_only() {
    let rows = vec![
        CsvRow { relative_path: "a.txt".to_string(), status: "RemoteOnly".to_string() },
        CsvRow { relative_path: "b.txt".to_string(), status: "Match".to_string() },
        CsvRow { relative_path: "c.txt".to_string(), status: "RemoteOnly".to_string() },
    ];

    let filtered = filter_by_status(&rows, "RemoteOnly");

    assert_eq!(filtered.len(), 2);
    assert_eq!(filtered[0].relative_path, "a.txt");
    assert_eq!(filtered[1].relative_path, "c.txt");
}

#[test]
fn remote_only_maps_to_csv_status() {
    assert_eq!(Filter::RemoteOnly.status_str(), "RemoteOnly");
}

#[test]
fn local_only_maps_to_csv_status() {
    assert_eq!(Filter::LocalOnly.status_str(), "LocalOnly");
}

#[test]
fn delete_remote_calls_delete_with_full_path() {
    let mut conn = Logged::new(MockConnection::default());

    let rows = vec![row("a.txt"), row("sub/b.txt")];
    let refs: Vec<&CsvRow> = rows.iter().collect();

    let results = delete_remote(&mut conn, "/remote", &refs);

    assert_eq!(
        results,
        vec![
            OpResult { relative_path: "a.txt".to_string(), outcome: OpOutcome::Deleted },
            OpResult { relative_path: "sub/b.txt".to_string(), outcome: OpOutcome::Deleted },
        ]
    );
    assert_eq!(conn.inner.deleted, vec!["/remote/a.txt".to_string(), "/remote/sub/b.txt".to_string()]);
}

#[test]
fn delete_remote_reports_failure_and_continues() {
    let mut conn = Logged::new(MockConnection::default());
    let rows = vec![row("locked.txt"), row("b.txt")];
    let refs: Vec<&CsvRow> = rows.iter().collect();
    let results = delete_remote(&mut conn, "/remote", &refs);
    assert_eq!(results[0].outcome, OpOutcome::Failed("550 permission denied".to_string()));
    assert_eq!(results[1].outcome, OpOutcome::Deleted);
}

#[test]
fn ensure_remote_dir_creates_missing_parents() {
    let mut conn = Logged::new(MockConnection::default());
    conn.inner.listings.insert("/".to_string(), vec![]);

    ensure_remote_dir(&mut conn, "/remote/sub/file.txt").unwrap();

    assert_eq!(conn.inner.created_dirs, vec!["/remote".to_string(), "/remote/sub".to_string()]);
    ensure_remote_dir(&mut conn, "/remote/sub/other.txt").unwrap();
    assert_eq!(conn.inner.created_dirs.len(), 2);
}

#[test]
fn remote_file_exists_looks_in_parent_listing() {
    let mut conn = Logged::new(MockConnection::default());
    conn.inner.listings.insert(
        "/remote".to_string(),
        vec![RawRemoteEntry { name: "file.txt".into(), is_dir: false, size: 5 }],
    );
    assert!(remote_file_exists(&mut conn, "/remote/file.txt"));
    assert!(!remote_file_exists(&mut conn, "/remote/other.txt"));
}

#[test]
fn split_parent_follows_last_slash() {
    assert_eq!(split_parent("/remote/sub/f.txt"), ("/remote/sub".to_string(), "f.txt".to_string()));
    assert_eq!(split_parent("/f.txt"), ("/".to_string(), "f.txt".to_string()));
    assert_eq!(split_parent("f.txt"), ("/".to_string(), "f.txt".to_string()));
}

#[test]
fn formats_each_outcome_with_the_relative_path() {
    colored::control::set_override(false);

    assert!(format_result(&result("a.txt", OpOutcome::Copied)).contains("a.txt"));
    assert!(format_result(&result("b.txt", OpOutcome::Deleted)).contains("b.txt"));
    assert!(format_result(&result("c.txt", OpOutcome::Skipped)).contains("c.txt"));
    assert!(format_result(&result("d.txt", OpOutcome::Failed("boom".to_string()))).contains("d.txt"));
    assert!(format_result(&result("d.txt", OpOutcome::Failed("boom".to_string()))).contains("boom"));
}

#[test]
fn formats_dry_run_line() {
    let line = format_dry_run_line("copy", "a.txt");

    assert_eq!(line, "Would copy: a.txt");
    assert_eq!(format_dry_run_total("delete", 3), "Would delete 3 file(s).");
}

#[test]
fn summarizes_counts_by_outcome() {
    let results = vec![
        result("a", OpOutcome::Copied),
        result("b", OpOutcome::Deleted),
        result("c", OpOutcome::Skipped),
        result("d", OpOutcome::Failed("x".to_string())),
    ];

    let summary = summarize(&results);

    assert_eq!(summary.succeeded, 2);
    assert_eq!(summary.skipped, 1);
    assert_eq!(summary.failed, 1);
}

#[test]
fn ops_output_formats_summary_line() {
    let summary = Summary { succeeded: 3, skipped: 1, failed: 2 };
    let line = format_summary(&summary);

    assert!(line.contains("3 succeeded"));
    assert!(line.contains("1 skipped"));
    assert!(line.contains("2 failed"));
}

#[test]
fn copy_to_local_with_remote_only_is_valid() {
    assert!(validate_copy(CopyTarget::Local, Filter::RemoteOnly).is_ok());
}

#[test]
fn copy_to_remote_with_local_only_is_valid() {
    assert!(validate_copy(CopyTarget::Remote, Filter::LocalOnly).is_ok());
}

#[test]
fn copy_to_local_with_local_only_is_invalid() {
    assert!(validate_copy(CopyTarget::Local, Filter::LocalOnly).is_err());
}

#[test]
fn copy_to_remote_with_remote_only_is_invalid() {
    assert!(validate_copy(CopyTarget::Remote, Filter::RemoteOnly).is_err());
}

#[test]
fn delete_on_remote_with_remote_only_is_valid() {
    assert!(validate_delete(DeleteTarget::Remote, Filter::RemoteOnly).is_ok());
}

#[test]
fn delete_on_local_with_local_only_is_valid() {
    assert!(validate_delete(DeleteTarget::Local, Filter::LocalOnly).is_ok());
}

#[test]
fn delete_on_remote_with_local_only_is_invalid() {
    assert!(validate_delete(DeleteTarget::Remote, Filter::LocalOnly).is_err());
}

#[test]
fn delete_on_local_with_remote_only_is_invalid() {
    assert!(validate_delete(DeleteTarget::Local, Filter::RemoteOnly).is_err());
}

#[test]
fn copy_to_local_downloads_and_creates_parent_dirs() {
    let mut local = Logged::new(MockLocal::default());
    let mut conn = Logged::new(MockConnection::default());
    conn.inner.remote_files.insert("/remote/sub/file.txt".to_string(), b"hello".to_vec());

    let rows = vec![row("sub/file.txt")];
    let refs: Vec<&CsvRow> = rows.iter().collect();

    let results = copy_to_local(&mut conn, "/remote", &mut local, &refs, false);

    assert_eq!(results, vec![OpResult { relative_path: "sub/file.txt".to_string(), outcome: OpOutcome::Copied }]);
    assert_eq!(local.inner.files.get("sub/file.txt"), Some(&b"hello".to_vec()));
    assert_eq!(local.inner.dirs, vec!["sub".to_string()]);
}

#[test]
fn copy_to_local_skips_when_destination_exists_and_skip_existing() {
    let mut local = Logged::new(MockLocal::default());
    local.inner.files.insert("file.txt".to_string(), b"already here".to_vec());
    let mut conn = Logged::new(MockConnection::default());
    conn.inner.remote_files.insert("/remote/file.txt".to_string(), b"new content".to_vec());

    let rows = vec![row("file.txt")];
    let refs: Vec<&CsvRow> = rows.iter().collect();

    let results = copy_to_local(&mut conn, "/remote", &mut local, &refs, true);

    assert_eq!(results, vec![OpResult { relative_path: "file.txt".to_string(), outcome: OpOutcome::Skipped }]);
    assert_eq!(local.inner.files.get("file.txt"), Some(&b"already here".to_vec()));
}

#[test]
fn copy_to_local_overwrites_without_skip_existing() {
    let mut local = Logged::new(MockLocal::default());
    local.inner.files.insert("file.txt".to_string(), b"already here".to_vec());
    let mut conn = Logged::new(MockConnection::default());
    conn.inner.remote_files.insert("/remote/file.txt".to_string(), b"new content".to_vec());

    let rows = vec![row("file.txt")];
    let refs: Vec<&CsvRow> = rows.iter().collect();

    let results = copy_to_local(&mut conn, "/remote", &mut local, &refs, false);

    assert_eq!(results, vec![OpResult { relative_path: "file.txt".to_string(), outcome: OpOutcome::Copied }]);
    assert_eq!(local.inner.files.get("file.txt"), Some(&b"new content".to_vec()));
}

#[test]
fn copy_to_local_reports_failure_for_missing_remote_file() {
    let mut local = Logged::new(MockLocal::default());
    let mut conn = Logged::new(MockConnection::default());

    let rows = vec![row("missing.txt")];
    let refs: Vec<&CsvRow> = rows.iter().collect();

    let results = copy_to_local(&mut conn, "/remote", &mut local, &refs, false);

    assert_eq!(results.len(), 1);
    assert_eq!(results[0].outcome, OpOutcome::Failed("no such remote file: /remote/missing.txt".to_string()));
}

#[test]
fn copy_to_remote_uploads_and_ensures_directories() {
    let mut local = Logged::new(MockLocal::default());
    local.inner.files.insert("sub/file.txt".to_string(), b"hello".to_vec());
    let mut conn = Logged::new(MockConnection::default());
    conn.inner.listings.insert("/".to_string(), vec![]);

    let rows = vec![row("sub/file.txt")];
    let refs: Vec<&CsvRow> = rows.iter().collect();

    let results = copy_to_remote(&mut conn, "/remote", &mut local, &refs, false);

    assert_eq!(results, vec![OpResult { relative_path: "sub/file.txt".to_string(), outcome: OpOutcome::Copied }]);
    assert_eq!(conn.inner.stored, vec![("/remote/sub/file.txt".to_string(), b"hello".to_vec())]);
    assert_eq!(conn.inner.created_dirs, vec!["/remote".to_string(), "/remote/sub".to_string()]);
}

#[test]
fn copy_to_remote_skips_when_destination_exists_and_skip_existing() {
    let mut local = Logged::new(MockLocal::default());
    local.inner.files.insert("file.txt".to_string(), b"local content".to_vec());
    let mut conn = Logged::new(MockConnection::default());
    conn.inner.listings.insert("/remote".to_string(), vec![RawRemoteEntry { name: "file.txt".into(), is_dir: false, size: 5 }]);

    let rows = vec![row("file.txt")];
    let refs: Vec<&CsvRow> = rows.iter().collect();

    let results = copy_to_remote(&mut conn, "/remote", &mut local, &refs, true);

    assert_eq!(results, vec![OpResult { relative_path: "file.txt".to_string(), outcome: OpOutcome::Skipped }]);
    assert!(conn.inner.stored.is_empty());
}

#[test]
fn copy_to_remote_reports_failure_for_missing_local_file() {
    let mut local = Logged::new(MockLocal::default());
    let mut conn = Logged::new(MockConnection::default());

    let rows = vec![row("gone.txt")];
    let refs: Vec<&CsvRow> = rows.iter().collect();

    let results = copy_to_remote(&mut conn, "/remote", &mut local, &refs, false);

    assert_eq!(results, vec![OpResult {
        relative_path: "gone.txt".to_string(),
        outcome: OpOutcome::Failed("no such file: gone.txt".to_string()),
    }]);
    assert!(conn.inner.stored.is_empty());
}

#[test]
fn delete_local_removes_existing_file() {
    let mut local = Logged::new(MockLocal::default());
    local.inner.files.insert("a.txt".to_string(), b"x".to_vec());

    let rows = vec![row("a.txt")];
    let refs: Vec<&CsvRow> = rows.iter().collect();

    let results = delete_local(&mut local, &refs);

    assert_eq!(results, vec![OpResult { relative_path: "a.txt".to_string(), outcome: OpOutcome::Deleted }]);
    assert!(!local.inner.files.contains_key("a.txt"));
}

#[test]
fn delete_local_reports_failure_for_missing_file() {
    let mut local = Logged::new(MockLocal::default());

    let rows = vec![row("missing.txt")];
    let refs: Vec<&CsvRow> = rows.iter().collect();

    let results = delete_local(&mut local, &refs);

    assert_eq!(results.len(), 1);
    assert!(matches!(results[0].outcome, OpOutcome::Failed(_)));
}

#[test]
fn ftpdiff_report_is_ftpops_input() {
    let entry = |p: &str, status: DiffStatus| DiffEntry {
        relative_path: p.to_string(),
        status,
        local_size: Some(1),
        remote_size: None,
        local_md5: None,
        remote_md5: None,
    };
    let entries = vec![
        entry("a.txt", DiffStatus::LocalOnly),
        entry("b.txt", DiffStatus::RemoteOnly),
        entry("c,d.txt", DiffStatus::LocalOnly),
        entry("e.txt", DiffStatus::Match),
    ];
    let rows = read_rows(&report_bytes(&entries)).unwrap();
    assert_eq!(rows.len(), 4);
    assert_eq!(rows[3], CsvRow { relative_path: "e.txt".to_string(), status: "Match".to_string() });
    let picked = filter_by_status(&rows, Filter::LocalOnly.status_str());
    let paths: Vec<&str> = picked.iter().map(|r| r.relative_path.as_str()).collect();
    assert_eq!(paths, vec!["a.txt", "c,d.txt"]);
}

#[test]
fn ensure_remote_dir_needs_nothing_for_top_level_paths() {
    let mut conn = Logged::new(MockConnection::default());
    assert!(ensure_remote_dir(&mut conn, "file.txt").is_ok());
    assert!(ensure_remote_dir(&mut conn, "/file.txt").is_ok());
    assert!(conn.inner.created_dirs.is_empty());
}

#[test]
fn ensure_remote_dir_skips_components_that_already_exist() {
    let mut conn = Logged::new(MockConnection::default());
    conn.inner
        .listings
        .insert("/".to_string(), vec![RawRemoteEntry { name: "a".into(), is_dir: true, size: 0 }]);
    conn.inner.listings.insert("/a".to_string(), vec![]);

    ensure_remote_dir(&mut conn, "/a/b/file.txt").unwrap();

    assert_eq!(conn.inner.created_dirs, vec!["/a/b".to_string()]);
}

#[test]
fn ensure_remote_dir_joins_nonempty_components_from_the_root() {
    let mut conn = Logged::new(MockConnection::default());

    ensure_remote_dir(&mut conn, "remote//sub/file.txt").unwrap();

    assert_eq!(conn.inner.created_dirs, vec!["/remote".to_string(), "/remote/sub".to_string()]);
}

#[test]
fn ensure_remote_dir_ends_at_a_failed_listing() {
    struct NoListing {
        created: Vec<String>,
    }
    impl FtpConnection for NoListing {
        fn list_dir(&mut self, _path: &str) -> Result<Vec<RawRemoteEntry>, FtpConnectionError> {
            Err(FtpConnectionError("550 no access".to_string()))
        }
        fn try_hash(&mut self, _path: &str) -> Option<String> {
            None
        }
        fn retr_to_buffer(&mut self, _path: &str) -> Result<Vec<u8>, FtpConnectionError> {
            Err(FtpConnectionError("unused".to_string()))
        }
        fn store_from_buffer(&mut self, _path: &str, _data: &[u8]) -> Result<(), FtpConnectionError> {
            Ok(())
        }
        fn delete(&mut self, _path: &str) -> Result<(), FtpConnectionError> {
            Ok(())
        }
        fn create_dir(&mut self, path: &str) -> Result<(), FtpConnectionError> {
            self.created.push(path.to_string());
            Ok(())
        }
    }
    let mut conn = Logged::new(NoListing { created: Vec::new() });

    let r = ensure_remote_dir(&mut conn, "/a/b/file.txt");

    assert_eq!(r.err().map(|e| e.0), Some("550 no access".to_string()));
    assert!(conn.inner.created.is_empty());
}

#[test]
fn dry_run_lists_each_row_then_the_total() {
    let rows = vec![row("a.txt"), row("sub/b.txt")];
    let refs: Vec<&CsvRow> = rows.iter().collect();

    let lines = dry_run_lines("copy", &refs);

    assert_eq!(
        lines,
        vec![
            "Would copy: a.txt".to_string(),
            "Would copy: sub/b.txt".to_string(),
            "Would copy 2 file(s).".to_string(),
        ]
    );
    assert_eq!(dry_run_lines("delete", &[]), vec!["Would delete 0 file(s).".to_string()]);
}

#[test]
fn file_listed_needs_a_listed_file_of_that_name() {
    let listing: Result<Vec<RawRemoteEntry>, FtpConnectionError> = Ok(vec![
        RawRemoteEntry { name: "a.txt".into(), is_dir: false, size: 1 },
        RawRemoteEntry { name: "sub".into(), is_dir: true, size: 0 },
    ]);
    assert!(file_listed(&listing, "a.txt"));
    assert!(!file_listed(&listing, "sub"));
    assert!(!file_listed(&listing, "b.txt"));
    assert!(!file_listed(&Err(FtpConnectionError("421".to_string())), "a.txt"));
}
