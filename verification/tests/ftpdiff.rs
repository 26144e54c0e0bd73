use ftp_utils::connection::ConnectionArgs;
use ftp_utils::diff::{DiffEntry, DiffStatus};
use ftp_utils::ftpdiff::cli::Cli;
use ftp_utils::ftpdiff::config::{merge, JsonConfig};
use ftp_utils::ftpdiff::csv_report::report_bytes;
use ftp_utils::ftpdiff::plan::{plan_run, RunMode, Side};
use ftp_utils::ftpdiff::output::{format_entry, format_scan_total, format_summary, summarize, Summary};
use ftp_utils::ftpdiff::run::{compare_exit_code, scan_local};
use ftp_utils::local::LocalEntry;

fn empty_cli() -> Cli {
    Cli {
        connection: ConnectionArgs {
            config: None,
            host: None,
            port: None,
            user: None,
            remote_dir: None,
            local_dir: None,
            ftps: false,
            insecure_tls: false,
            password: None,
        },
        hash: false,
        exclude: Vec::new(),
        csv: None,
        verbose: false,
        local_csv: None,
        remote_csv: None,
        build: false,
    }
}

fn entry(relative_path: &str, status: DiffStatus) -> DiffEntry {
    DiffEntry {
        relative_path: relative_path.to_string(),
        status,
        local_size: None,
        remote_size: None,
        local_md5: None,
        remote_md5: None,
    }
}

#[test]
fn hash_and_verbose_merge_as_or() {
    let mut cli = empty_cli();
    cli.connection.host = Some("h".into());
    cli.connection.user = Some("u".into());
    cli.connection.remote_dir = Some("/r".into());
    cli.connection.local_dir = Some("./l".to_string());
    cli.hash = true;

    let json = JsonConfig { verbose: Some(true), ..Default::default() };

    let effective = merge(&cli, &json).unwrap();

    assert!(effective.hash); // from CLI
    assert!(effective.verbose); // from JSON
}

#[test]
fn exclude_patterns_are_unioned() {
    let mut cli = empty_cli();
    cli.connection.host = Some("h".into());
    cli.connection.user = Some("u".into());
    cli.connection.remote_dir = Some("/r".into());
    cli.connection.local_dir = Some("./l".to_string());
    cli.exclude = vec!["*.tmp".to_string()];

    let json = JsonConfig { exclude: vec![".git/*".to_string()], ..Default::default() };

    let effective = merge(&cli, &json).unwrap();

    assert_eq!(effective.exclude, vec![".git/*".to_string(), "*.tmp".to_string()]);
}

#[test]
fn merge_propagates_connection_errors() {
    let cli = empty_cli();
    let json = JsonConfig::default();

    let result = merge(&cli, &json);

    assert!(result.is_err());
}

#[test]
fn formats_each_status_with_the_relative_path() {
    colored::control::set_override(false);

    assert!(format_entry(&entry("a.txt", DiffStatus::LocalOnly)).contains("a.txt"));
    assert!(format_entry(&entry("b.txt", DiffStatus::RemoteOnly)).contains("b.txt"));
    assert!(format_entry(&entry("c.txt", DiffStatus::SizeMismatch)).contains("c.txt"));
    assert!(format_entry(&entry("d.txt", DiffStatus::HashMismatch)).contains("d.txt"));
    assert!(format_entry(&entry("e.txt", DiffStatus::Match)).contains("e.txt"));
    assert!(format_entry(&entry("f.txt", DiffStatus::Scan)).contains("f.txt"));
}

#[test]
fn plain_entry_lines() {
    colored::control::set_override(false);
    let mut e = entry("c.txt", DiffStatus::SizeMismatch);
    e.local_size = Some(10);
    e.remote_size = Some(20);
    assert_eq!(format_entry(&e), "~ c.txt (local=Some(10), remote=Some(20))");
    assert_eq!(format_entry(&entry("d.txt", DiffStatus::HashMismatch)), "~ d.txt (hash differs)");
    assert_eq!(format_entry(&entry("a.txt", DiffStatus::LocalOnly)), "+ a.txt");
    assert_eq!(format_entry(&entry("e", DiffStatus::SizeMismatch)), "~ e (local=None, remote=None)");
}

#[test]
fn summarizes_counts_by_status() {
    let entries = vec![
        entry("a", DiffStatus::LocalOnly),
        entry("b", DiffStatus::LocalOnly),
        entry("c", DiffStatus::RemoteOnly),
        entry("d", DiffStatus::Match),
    ];

    let summary = summarize(&entries);

    assert_eq!(summary.local_only, 2);
    assert_eq!(summary.remote_only, 1);
    assert_eq!(summary.matched, 1);
    assert_eq!(summary.size_mismatch, 0);
    assert_eq!(summary.hash_mismatch, 0);
}

#[test]
fn output_formats_summary_line() {
    let summary = Summary { local_only: 1, remote_only: 2, size_mismatch: 3, hash_mismatch: 4, matched: 5 };
    let line = format_summary(&summary);

    assert!(line.contains("5 matched"));
    assert!(line.contains("1 local-only"));
    assert!(line.contains("2 remote-only"));
    assert!(line.contains("3 size mismatch"));
    assert!(line.contains("4 hash mismatch"));
    assert_eq!(
        line,
        "Summary: 5 matched, 1 local-only, 2 remote-only, 3 size mismatch, 4 hash mismatch"
    );
}

#[test]
fn writes_header_and_rows() {
    let entries = vec![DiffEntry {
        relative_path: "a.txt".to_string(),
        status: DiffStatus::SizeMismatch,
        local_size: Some(10),
        remote_size: Some(20),
        local_md5: None,
        remote_md5: None,
    }];

    let bytes = report_bytes(&entries);

    let content = String::from_utf8(bytes).unwrap();
    let mut lines = content.lines();
    assert_eq!(lines.next().unwrap(), "path,status,local_size,remote_size,local_md5,remote_md5");
    assert_eq!(lines.next().unwrap(), "a.txt,SizeMismatch,10,20,,");
}

#[test]
fn report_reads_back_as_either_side() {
    let entries = vec![
        DiffEntry {
            relative_path: "a.txt".to_string(),
            status: DiffStatus::Match,
            local_size: Some(10),
            remote_size: Some(10),
            local_md5: Some("abc".to_string()),
            remote_md5: Some("abd".to_string()),
        },
        DiffEntry {
            relative_path: "b, \"quoted\".txt".to_string(),
            status: DiffStatus::RemoteOnly,
            local_size: None,
            remote_size: Some(3),
            local_md5: None,
            remote_md5: None,
        },
    ];
    let bytes = report_bytes(&entries);
    let (local, local_known) = ftp_utils::csv_source::read_local_entries(&bytes).unwrap();
    assert_eq!(local, vec![LocalEntry { relative_path: "a.txt".to_string(), size: 10 }]);
    assert_eq!(local_known.get("a.txt"), Some(&"abc".to_string()));
    let (remote, remote_known) = ftp_utils::csv_source::read_remote_entries(&bytes).unwrap();
    assert_eq!(remote.len(), 2);
    assert_eq!(remote[1].relative_path, "b, \"quoted\".txt");
    assert_eq!(remote_known.get("a.txt"), Some(&"abd".to_string()));
}

#[test]
fn exit_code_reflects_differences() {
    assert_eq!(compare_exit_code(&[entry("a", DiffStatus::Match)]), 0);
    assert_eq!(compare_exit_code(&[]), 0);
    assert_eq!(compare_exit_code(&[entry("a", DiffStatus::Match), entry("b", DiffStatus::HashMismatch)]), 1);
}

#[test]
fn scanned_entries_have_scan_status() {
    let scanned = scan_local(&[LocalEntry { relative_path: "x".to_string(), size: 4 }]);
    assert_eq!(scanned.len(), 1);
    assert_eq!(scanned[0].status, DiffStatus::Scan);
    assert_eq!(scanned[0].local_size, Some(4));
    assert_eq!(scanned[0].remote_size, None);
}

#[test]
fn local_snapshot_reads_back_as_scanned() {
    let files = vec![
        LocalEntry { relative_path: "a.txt".to_string(), size: 0 },
        LocalEntry { relative_path: "dir/b\nc.txt".to_string(), size: 18446744073709551615 },
    ];
    let bytes = report_bytes(&scan_local(&files));
    let (local, known) = ftp_utils::csv_source::read_local_entries(&bytes).unwrap();
    assert_eq!(local, files);
    assert!(known.is_empty());
    let (remote, _) = ftp_utils::csv_source::read_remote_entries(&bytes).unwrap();
    assert!(remote.is_empty());
}

#[test]
fn remote_snapshot_reads_back_as_scanned() {
    let files = vec![ftp_utils::remote::RemoteEntry { relative_path: "x/y.bin".to_string(), size: 7 }];
    let bytes = report_bytes(&ftp_utils::ftpdiff::run::scan_remote(&files));
    let (remote, known) = ftp_utils::csv_source::read_remote_entries(&bytes).unwrap();
    assert_eq!(remote, files);
    assert!(known.is_empty());
}

fn live_cli() -> Cli {
    let mut cli = empty_cli();
    cli.connection.host = Some("ftp.example.com".to_string());
    cli.connection.user = Some("bob".to_string());
    cli.connection.remote_dir = Some("/remote".to_string());
    cli.connection.local_dir = Some("./local".to_string());
    cli
}

fn plan_error(cli: &Cli) -> String {
    match plan_run(cli, &JsonConfig::default()) {
        Ok(_) => panic!("expected an error"),
        Err(e) => e.0,
    }
}

#[test]
fn plan_compares_live_sides() {
    let plan = plan_run(&live_cli(), &JsonConfig::default()).unwrap();
    match plan.mode {
        RunMode::Compare { local: Side::Directory(d), remote: Side::Server(s) } => {
            assert_eq!(d, "./local");
            assert_eq!(s.host, "ftp.example.com");
            assert_eq!(s.port, 21);
            assert_eq!(s.user, "bob");
            assert_eq!(s.remote_dir, "/remote");
        }
        other => panic!("unexpected mode {other:?}"),
    }
}

#[test]
fn remote_report_needs_no_server_settings() {
    let mut cli = empty_cli();
    cli.connection.local_dir = Some("./site".to_string());
    cli.remote_csv = Some("report.csv".to_string());
    let plan = plan_run(&cli, &JsonConfig::default()).unwrap();
    match plan.mode {
        RunMode::Compare { local: Side::Directory(d), remote: Side::Report(p) } => {
            assert_eq!(d, "./site");
            assert_eq!(p, "report.csv");
        }
        other => panic!("unexpected mode {other:?}"),
    }
}

#[test]
fn report_flag_wins_over_live_setting() {
    let mut cli = live_cli();
    cli.local_csv = Some("local.csv".to_string());
    cli.remote_csv = Some("remote.csv".to_string());
    let plan = plan_run(&cli, &JsonConfig::default()).unwrap();
    match plan.mode {
        RunMode::Compare { local: Side::Report(l), remote: Side::Report(r) } => {
            assert_eq!(l, "local.csv");
            assert_eq!(r, "remote.csv");
        }
        other => panic!("unexpected mode {other:?}"),
    }
}

#[test]
fn plan_reports_missing_settings_in_order() {
    assert_eq!(plan_error(&empty_cli()), "missing required setting: host (use --host or config file)");
    let mut cli = live_cli();
    cli.connection.local_dir = None;
    assert_eq!(plan_error(&cli), "missing required setting: local-dir (use --local-dir or config file)");
}

#[test]
fn build_scans_the_local_side() {
    let mut cli = empty_cli();
    cli.connection.local_dir = Some("./site".to_string());
    cli.build = true;
    cli.csv = Some("out.csv".to_string());
    let plan = plan_run(&cli, &JsonConfig::default()).unwrap();
    assert!(matches!(plan.mode, RunMode::Build { side: Side::Directory(ref d) } if d == "./site"));
    assert_eq!(plan.csv.as_deref(), Some("out.csv"));
}

#[test]
fn build_scans_the_remote_side() {
    let mut cli = live_cli();
    cli.connection.local_dir = None;
    cli.build = true;
    cli.csv = Some("out.csv".to_string());
    let plan = plan_run(&cli, &JsonConfig::default()).unwrap();
    assert!(matches!(plan.mode, RunMode::Build { side: Side::Server(ref s) } if s.remote_dir == "/remote"));
}

#[test]
fn build_errors() {
    let mut cli = live_cli();
    cli.build = true;
    assert_eq!(plan_error(&cli), "--build requires --csv");
    cli.csv = Some("out.csv".to_string());
    assert_eq!(
        plan_error(&cli),
        "--build scans exactly one side: give --local-dir or --host/--user/--remote-dir, not both"
    );
    cli.remote_csv = Some("r.csv".to_string());
    assert_eq!(plan_error(&cli), "--build cannot be combined with --local-csv/--remote-csv");

    let mut none = empty_cli();
    none.build = true;
    none.csv = Some("out.csv".to_string());
    assert_eq!(
        plan_error(&none),
        "--build scans exactly one side: give --local-dir or --host/--user/--remote-dir"
    );
    none.connection.host = Some("h".to_string());
    assert_eq!(plan_error(&none), "missing required setting: user (use --user or config file)");
}

#[test]
fn scan_total_line() {
    assert_eq!(format_scan_total(0), "Scanned 0 entries.");
    assert_eq!(format_scan_total(42), "Scanned 42 entries.");
}

#[test]
fn merge_reads_local_side_from_report_without_local_dir() {
    let mut cli = empty_cli();
    cli.connection.host = Some("h".into());
    cli.connection.user = Some("u".into());
    cli.connection.remote_dir = Some("/r".into());
    cli.local_csv = Some("local.csv".to_string());

    let effective = merge(&cli, &JsonConfig::default()).unwrap();

    assert!(matches!(effective.local, Side::Report(ref p) if p == "local.csv"));
    assert!(matches!(effective.remote, Side::Server(ref s) if s.host == "h" && s.remote_dir == "/r"));

    let mut only_reports = empty_cli();
    only_reports.local_csv = Some("l.csv".to_string());
    only_reports.remote_csv = Some("r.csv".to_string());
    assert!(merge(&only_reports, &JsonConfig::default()).is_ok());
}
