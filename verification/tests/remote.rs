use ftp_utils::listing::listing_entries;
use ftp_utils::logged::Logged;
use std::collections::HashMap;

use ftp_utils::remote::{
    expand_listing, walk_remote, FtpConnection, FtpConnectionError, RawRemoteEntry, RemoteEntry,
};

struct MockFtpConnection {
    listings: HashMap<String, Vec<RawRemoteEntry>>,
}

impl FtpConnection for MockFtpConnection {
    fn list_dir(&mut self, path: &str) -> Result<Vec<RawRemoteEntry>, FtpConnectionError> {
        self.listings
            .get(path)
            .cloned()
            .ok_or_else(|| FtpConnectionError(format!("no listing for {path}")))
    }

    fn try_hash(&mut self, _path: &str) -> Option<String> {
        None
    }

    fn retr_to_buffer(&mut self, _path: &str) -> Result<Vec<u8>, FtpConnectionError> {
        Ok(Vec::new())
    }

    fn store_from_buffer(&mut self, _path: &str, _data: &[u8]) -> Result<(), FtpConnectionError> {
        Ok(())
    }

    fn delete(&mut self, _path: &str) -> Result<(), FtpConnectionError> {
        Ok(())
    }

    fn create_dir(&mut self, _path: &str) -> Result<(), FtpConnectionError> {
        Ok(())
    }
}

#[test]
fn walks_nested_directories() {
    let mut listings = HashMap::new();
    listings.insert(
        "/remote".to_string(),
        vec![
            RawRemoteEntry { name: "a.txt".into(), is_dir: false, size: 10 },
            RawRemoteEntry { name: "sub".into(), is_dir: true, size: 0 },
        ],
    );
    listings.insert(
        "/remote/sub".to_string(),
        vec![RawRemoteEntry { name: "b.txt".into(), is_dir: false, size: 20 }],
    );
    let mut conn = Logged::new(MockFtpConnection { listings });

    let mut entries = walk_remote(&mut conn, "/remote", &[]).unwrap();
    entries.sort_by(|a, b| a.relative_path.cmp(&b.relative_path));

    assert_eq!(
        entries,
        vec![
            RemoteEntry { relative_path: "a.txt".to_string(), size: 10 },
            RemoteEntry { relative_path: "sub/b.txt".to_string(), size: 20 },
        ]
    );
}

#[test]
fn applies_exclude_patterns() {
    let mut listings = HashMap::new();
    listings.insert(
        "/remote".to_string(),
        vec![
            RawRemoteEntry { name: "keep.txt".into(), is_dir: false, size: 1 },
            RawRemoteEntry { name: "skip.tmp".into(), is_dir: false, size: 1 },
        ],
    );
    let mut conn = Logged::new(MockFtpConnection { listings });

    let entries = walk_remote(&mut conn, "/remote", &["*.tmp".to_string()]).unwrap();

    assert_eq!(entries.len(), 1);
    assert_eq!(entries[0].relative_path, "keep.txt");
}

#[test]
fn listing_error_ends_the_walk() {
    let mut listings = HashMap::new();
    listings.insert(
        "/remote".to_string(),
        vec![RawRemoteEntry { name: "gone".into(), is_dir: true, size: 0 }],
    );
    let mut conn = Logged::new(MockFtpConnection { listings });
    let err = walk_remote(&mut conn, "/remote", &[]).unwrap_err();
    assert_eq!(err.0, "no listing for /remote/gone");
}

#[test]
fn expand_listing_joins_paths_and_filters() {
    let items = vec![
        RawRemoteEntry { name: "d".into(), is_dir: true, size: 0 },
        RawRemoteEntry { name: "f.txt".into(), is_dir: false, size: 3 },
        RawRemoteEntry { name: "g.tmp".into(), is_dir: false, size: 4 },
    ];
    let (dirs, files) = expand_listing("sub", &items, &["*.tmp".to_string()]);
    assert_eq!(dirs, vec!["sub/d".to_string()]);
    assert_eq!(files, vec![RemoteEntry { relative_path: "sub/f.txt".to_string(), size: 3 }]);
    let (dirs, _) = expand_listing("", &items, &[]);
    assert_eq!(dirs, vec!["d".to_string()]);
}

#[test]
fn listing_lines_become_entries_without_dot_entries() {
    let lines: Vec<String> = vec![
        "drwxr-xr-x    2 user     group        4096 Nov  5  2020 .".to_string(),
        "drwxr-xr-x    2 user     group        4096 Nov  5  2020 ..".to_string(),
        "-rw-r--r--    1 user     group        1234 Nov  5  2020 file.txt".to_string(),
        "drwxr-xr-x    2 user     group        4096 Nov  5  2020 sub".to_string(),
        "total 8".to_string(),
    ];

    let entries = listing_entries(&lines);

    let seen: Vec<(String, bool, u64)> =
        entries.iter().map(|e| (e.name.clone(), e.is_dir, e.size)).collect();
    assert_eq!(seen, vec![("file.txt".to_string(), false, 1234), ("sub".to_string(), true, 4096)]);
}
