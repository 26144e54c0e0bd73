use ftp_utils::logged::Logged;
use ftp_utils::diff::{DiffEntry, DiffStatus};
use ftp_utils::hash::{
    apply_hash_comparison, fetch_remote_md5, remote_md5_from, record_local_hashes, record_remote_hashes, HashPassIo, finish_hash_entry, hash_applies, hash_progress_message, hash_source, md5_hex,
    HashSource,
};
use ftp_utils::known::KnownMd5;
use ftp_utils::remote::{FtpConnection, FtpConnectionError, RawRemoteEntry};

struct MockConnection {
    hash: Option<String>,
    remote_bytes: Vec<u8>,
    requested: Vec<String>,
}

impl FtpConnection for MockConnection {
    fn list_dir(&mut self, _path: &str) -> Result<Vec<RawRemoteEntry>, FtpConnectionError> {
        Ok(Vec::new())
    }

    fn try_hash(&mut self, path: &str) -> Option<String> {
        self.requested.push(path.to_string());
        self.hash.clone()
    }

    fn retr_to_buffer(&mut self, path: &str) -> Result<Vec<u8>, FtpConnectionError> {
        self.requested.push(path.to_string());
        Ok(self.remote_bytes.clone())
    }

    fn store_from_buffer(&mut self, _path: &str, _data: &[u8]) -> Result<(), FtpConnectionError> {
        Ok(())
    }

    fn delete(&mut self, _path: &str) -> Result<(), FtpConnectionError> {
        Ok(())
    }

    fn create_dir(&mut self, _path: &str) -> Result<(), FtpConnectionError> {
        Ok(())
    }
}

fn entry(relative_path: &str) -> DiffEntry {
    DiffEntry {
        relative_path: relative_path.to_string(),
        status: DiffStatus::Match,
        local_size: Some(5),
        remote_size: Some(5),
        local_md5: None,
        remote_md5: None,
    }
}

#[test]
fn md5_hex_of_hello() {
    assert_eq!(md5_hex(b"hello"), "5d41402abc4b2a76b9719d911017c592");
    assert_eq!(md5_hex(b""), "d41d8cd98f00b204e9800998ecf8427e");
}

#[test]
fn server_hash_is_used_when_offered() {
    let mut conn = Logged::new(MockConnection { hash: Some("abc".to_string()), remote_bytes: Vec::new(), requested: Vec::new() });
    let h = fetch_remote_md5(&mut conn, "/remote", "f.txt").unwrap();
    assert_eq!(h, "abc");
    assert_eq!(conn.inner.requested, vec!["/remote/f.txt".to_string()]);
}

#[test]
fn download_is_hashed_when_server_has_no_hash() {
    let mut conn = Logged::new(MockConnection { hash: None, remote_bytes: b"hello".to_vec(), requested: Vec::new() });
    let h = fetch_remote_md5(&mut conn, "/remote", "f.txt").unwrap();
    assert_eq!(h, format!("{:x}", md5::compute(b"hello")));
    assert_eq!(conn.inner.requested, vec!["/remote/f.txt".to_string(), "/remote/f.txt".to_string()]);
}

#[test]
fn known_hash_is_preferred_over_live_source() {
    let mut known = KnownMd5::new();
    known.insert("f.txt".to_string(), "same-hash".to_string());
    match hash_source(&known, true, "f.txt") {
        HashSource::Known(h) => assert_eq!(h, "same-hash"),
        other => panic!("unexpected {other:?}"),
    }
    assert!(matches!(hash_source(&known, true, "g.txt"), HashSource::Live));
    assert!(matches!(hash_source(&known, false, "g.txt"), HashSource::Unresolved));
}

#[test]
fn equal_hashes_keep_match_and_are_recorded() {
    let mut e = entry("f.txt");
    finish_hash_entry(&mut e, Some("same-hash".to_string()), Some("same-hash".to_string()));
    assert_eq!(e.status, DiffStatus::Match);
    assert_eq!(e.local_md5, Some("same-hash".to_string()));
    assert_eq!(e.remote_md5, Some("same-hash".to_string()));
}

#[test]
fn different_hashes_give_hash_mismatch() {
    let mut e = entry("f.txt");
    finish_hash_entry(&mut e, Some(md5_hex(b"hello")), Some(md5_hex(b"different")));
    assert_eq!(e.status, DiffStatus::HashMismatch);
}

#[test]
fn one_unresolved_side_leaves_status() {
    let mut e = entry("f.txt");
    finish_hash_entry(&mut e, None, Some("x".to_string()));
    assert_eq!(e.status, DiffStatus::Match);
    assert_eq!(e.local_md5, None);
    assert_eq!(e.remote_md5, Some("x".to_string()));
}

#[test]
fn only_match_entries_are_hashed() {
    let mut e = entry("only-local.txt");
    assert!(hash_applies(&e));
    e.status = DiffStatus::LocalOnly;
    assert!(!hash_applies(&e));
    assert_eq!(hash_progress_message("f.txt"), "hash: f.txt");
}

/// A local side whose files all hold `local_bytes`; records the progress
/// messages and the files read.
struct MockLocal {
    local_bytes: Option<Vec<u8>>,
    messages: Vec<String>,
    read: Vec<String>,
}

impl MockLocal {
    fn with_file(bytes: &[u8]) -> Logged<MockLocal> {
        Logged::new(MockLocal { local_bytes: Some(bytes.to_vec()), messages: Vec::new(), read: Vec::new() })
    }

    fn empty() -> Logged<MockLocal> {
        Logged::new(MockLocal { local_bytes: None, messages: Vec::new(), read: Vec::new() })
    }
}

impl HashPassIo for MockLocal {
    fn read_local_file(&mut self, relative_path: &str) -> Result<Vec<u8>, String> {
        self.read.push(relative_path.to_string());
        self.local_bytes.clone().ok_or_else(|| format!("cannot read {relative_path}"))
    }

    fn progress(&mut self, message: &str) {
        self.messages.push(message.to_string());
    }
}

fn mock_conn(hash: Option<String>, remote_bytes: &[u8]) -> Logged<MockConnection> {
    Logged::new(MockConnection { hash, remote_bytes: remote_bytes.to_vec(), requested: Vec::new() })
}

#[test]
fn uses_remote_hash_when_available() {
    let expected_hash = md5_hex(b"hello");
    let mut entries = vec![entry("f.txt")];
    let mut conn = mock_conn(Some(expected_hash.clone()), b"");
    let mut local = MockLocal::with_file(b"hello");

    let mut conn = Some(conn);
    apply_hash_comparison(
        &mut conn,
        Some("/remote"),
        true,
        &mut local,
        &KnownMd5::new(),
        &KnownMd5::new(),
        &mut entries,
    )
    .unwrap();

    assert_eq!(entries[0].status, DiffStatus::Match);
    assert_eq!(entries[0].remote_md5, Some(expected_hash));
    assert_eq!(conn.as_ref().unwrap().inner.requested, vec!["/remote/f.txt".to_string()]);
}

#[test]
fn falls_back_to_download_when_hash_unsupported() {
    let mut entries = vec![entry("f.txt")];
    let mut conn = mock_conn(None, b"different");
    let mut local = MockLocal::with_file(b"hello");

    let mut conn = Some(conn);
    apply_hash_comparison(
        &mut conn,
        Some("/remote"),
        true,
        &mut local,
        &KnownMd5::new(),
        &KnownMd5::new(),
        &mut entries,
    )
    .unwrap();

    assert_eq!(entries[0].status, DiffStatus::HashMismatch);
    assert_eq!(entries[0].local_md5, Some("5d41402abc4b2a76b9719d911017c592".to_string()));
    assert_eq!(entries[0].remote_md5, Some(md5_hex(b"different")));
}

#[test]
fn leaves_non_match_entries_untouched() {
    let mut entries = vec![DiffEntry {
        relative_path: "only-local.txt".to_string(),
        status: DiffStatus::LocalOnly,
        local_size: Some(5),
        remote_size: None,
        local_md5: None,
        remote_md5: None,
    }];
    let mut conn = mock_conn(None, b"");
    let mut local = MockLocal::empty();

    let mut conn = Some(conn);
    apply_hash_comparison(
        &mut conn,
        Some("/remote"),
        true,
        &mut local,
        &KnownMd5::new(),
        &KnownMd5::new(),
        &mut entries,
    )
    .unwrap();

    assert_eq!(entries[0].status, DiffStatus::LocalOnly);
    assert_eq!(entries[0].remote_md5, None);
    assert!(conn.as_ref().unwrap().inner.requested.is_empty());
}

#[test]
fn reports_progress_only_for_hashed_entries() {
    let mut entries = vec![
        entry("f.txt"),
        DiffEntry {
            relative_path: "only-local.txt".to_string(),
            status: DiffStatus::LocalOnly,
            local_size: Some(5),
            remote_size: None,
            local_md5: None,
            remote_md5: None,
        },
    ];
    let mut conn = mock_conn(None, b"hello");
    let mut local = MockLocal::with_file(b"hello");

    let mut conn = Some(conn);
    apply_hash_comparison(
        &mut conn,
        Some("/remote"),
        true,
        &mut local,
        &KnownMd5::new(),
        &KnownMd5::new(),
        &mut entries,
    )
    .unwrap();

    assert_eq!(local.inner.messages, vec!["hash: f.txt".to_string()]);
    assert_eq!(entries[0].status, DiffStatus::Match);
}

#[test]
fn known_md5_short_circuits_live_access() {
    // No live connection or local file backing this entry at all -
    // both known-md5 maps must be consulted first.
    let mut entries = vec![entry("f.txt")];
    let mut local_known = KnownMd5::new();
    local_known.insert("f.txt".to_string(), "same-hash".to_string());
    let mut remote_known = KnownMd5::new();
    remote_known.insert("f.txt".to_string(), "same-hash".to_string());
    let mut local = MockLocal::empty();

    apply_hash_comparison::<MockConnection, MockLocal>(
        &mut None,
        None,
        false,
        &mut local,
        &local_known,
        &remote_known,
        &mut entries,
    )
    .unwrap();

    assert_eq!(entries[0].status, DiffStatus::Match);
    assert_eq!(entries[0].local_md5, Some("same-hash".to_string()));
    assert_eq!(entries[0].remote_md5, Some("same-hash".to_string()));
}

#[test]
fn leaves_entry_at_match_when_hash_unresolvable_on_either_side() {
    let mut entries = vec![entry("f.txt")];
    let mut local = MockLocal::empty();

    apply_hash_comparison::<MockConnection, MockLocal>(
        &mut None,
        None,
        false,
        &mut local,
        &KnownMd5::new(),
        &KnownMd5::new(),
        &mut entries,
    )
    .unwrap();

    assert_eq!(entries[0].status, DiffStatus::Match);
    assert_eq!(entries[0].local_md5, None);
    assert_eq!(entries[0].remote_md5, None);
}

#[test]
fn known_remote_hash_with_live_local_side() {
    let mut entries = vec![entry("f.txt")];
    let mut remote_known = KnownMd5::new();
    remote_known.insert("f.txt".to_string(), md5_hex(b"other"));
    let mut local = MockLocal::with_file(b"hello");

    apply_hash_comparison::<MockConnection, MockLocal>(
        &mut None,
        None,
        true,
        &mut local,
        &KnownMd5::new(),
        &remote_known,
        &mut entries,
    )
    .unwrap();

    assert_eq!(local.inner.read, vec!["f.txt".to_string()]);
    assert_eq!(entries[0].status, DiffStatus::HashMismatch);
}

#[test]
fn failed_local_read_stops_the_pass() {
    let mut entries = vec![entry("a.txt"), entry("b.txt")];
    let mut remote_known = KnownMd5::new();
    remote_known.insert("a.txt".to_string(), "x".to_string());
    remote_known.insert("b.txt".to_string(), "y".to_string());
    let mut local = MockLocal::empty();

    let result = apply_hash_comparison::<MockConnection, MockLocal>(
        &mut None,
        None,
        true,
        &mut local,
        &KnownMd5::new(),
        &remote_known,
        &mut entries,
    );

    assert_eq!(result, Err("cannot read a.txt".to_string()));
    assert_eq!(entries[0].remote_md5, None);
    assert_eq!(entries[1].remote_md5, None);
    assert_eq!(local.inner.read, vec!["a.txt".to_string()]);
}

fn scanned(relative_path: &str) -> DiffEntry {
    DiffEntry {
        relative_path: relative_path.to_string(),
        status: DiffStatus::Scan,
        local_size: Some(5),
        remote_size: None,
        local_md5: None,
        remote_md5: None,
    }
}

#[test]
fn scan_records_local_hashes() {
    let mut entries = vec![scanned("a.txt"), scanned("b/c.txt")];
    let mut local = MockLocal::with_file(b"hello");

    record_local_hashes(&mut local, &mut entries).unwrap();

    assert_eq!(local.inner.read, vec!["a.txt".to_string(), "b/c.txt".to_string()]);
    for e in &entries {
        assert_eq!(e.local_md5, Some("5d41402abc4b2a76b9719d911017c592".to_string()));
        assert_eq!(e.status, DiffStatus::Scan);
        assert_eq!(e.remote_md5, None);
    }
}

#[test]
fn scan_local_hash_read_failure_is_reported() {
    let mut entries = vec![scanned("a.txt")];
    let mut local = MockLocal::empty();

    assert_eq!(record_local_hashes(&mut local, &mut entries), Err("cannot read a.txt".to_string()));
    assert_eq!(entries[0].local_md5, None);
}

#[test]
fn scan_records_remote_hashes() {
    let mut entries = vec![scanned("x.bin")];
    entries[0].local_size = None;
    entries[0].remote_size = Some(5);
    let mut conn = mock_conn(None, b"hello");

    record_remote_hashes(&mut conn, "/srv", &mut entries).unwrap();

    assert_eq!(entries[0].remote_md5, Some(md5_hex(b"hello")));
    assert_eq!(conn.inner.requested, vec!["/srv/x.bin".to_string(), "/srv/x.bin".to_string()]);
}

#[test]
fn scan_hash_passes_over_no_entries_succeed() {
    let mut entries: Vec<DiffEntry> = Vec::new();
    let mut local = MockLocal::empty();
    assert_eq!(record_local_hashes(&mut local, &mut entries), Ok(()));
    let mut conn = mock_conn(None, b"");
    assert!(record_remote_hashes(&mut conn, "/srv", &mut entries).is_ok());
    assert!(local.inner.read.is_empty());
    assert!(conn.inner.requested.is_empty());
}

#[test]
fn remote_md5_prefers_the_server_hash_then_the_download() {
    assert_eq!(remote_md5_from(Some("abc".to_string()), None).unwrap(), "abc");
    assert_eq!(
        remote_md5_from(None, Some(Ok(b"hello".to_vec()))).unwrap(),
        "5d41402abc4b2a76b9719d911017c592"
    );
    let err = remote_md5_from(None, Some(Err(FtpConnectionError("550 gone".to_string())))).unwrap_err();
    assert_eq!(err.0, "550 gone");
}

struct FailingDownload {
    requested: Vec<String>,
}

impl FtpConnection for FailingDownload {
    fn list_dir(&mut self, _path: &str) -> Result<Vec<RawRemoteEntry>, FtpConnectionError> {
        Ok(Vec::new())
    }

    fn try_hash(&mut self, path: &str) -> Option<String> {
        self.requested.push(format!("hash {path}"));
        None
    }

    fn retr_to_buffer(&mut self, path: &str) -> Result<Vec<u8>, FtpConnectionError> {
        self.requested.push(format!("retr {path}"));
        Err(FtpConnectionError("550 no such file".to_string()))
    }

    fn store_from_buffer(&mut self, _path: &str, _data: &[u8]) -> Result<(), FtpConnectionError> {
        Ok(())
    }

    fn delete(&mut self, _path: &str) -> Result<(), FtpConnectionError> {
        Ok(())
    }

    fn create_dir(&mut self, _path: &str) -> Result<(), FtpConnectionError> {
        Ok(())
    }
}

#[test]
fn failed_download_stops_the_pass_with_its_error() {
    let mut first = entry("a.txt");
    first.status = DiffStatus::LocalOnly;
    let mut entries = vec![first.clone(), entry("b.txt"), entry("c.txt")];
    let mut conn = Some(Logged::new(FailingDownload { requested: Vec::new() }));
    let mut local = MockLocal::with_file(b"hello");

    let result = apply_hash_comparison(
        &mut conn,
        Some("/remote"),
        true,
        &mut local,
        &KnownMd5::new(),
        &KnownMd5::new(),
        &mut entries,
    );

    assert_eq!(result, Err("550 no such file".to_string()));
    assert_eq!(
        conn.as_ref().unwrap().inner.requested,
        vec!["hash /remote/b.txt".to_string(), "retr /remote/b.txt".to_string()]
    );
    assert_eq!(local.inner.messages, vec!["hash: b.txt".to_string()]);
    assert!(local.inner.read.is_empty());
    assert_eq!(entries[1].remote_md5, None);
    assert_eq!(entries[2].status, DiffStatus::Match);
}
