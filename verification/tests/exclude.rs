use ftp_utils::exclude::{drop_excluded_local, drop_excluded_remote, is_excluded};
use ftp_utils::local::LocalEntry;
use ftp_utils::remote::RemoteEntry;

#[test]
fn matches_simple_glob() {
    let patterns = vec!["*.tmp".to_string()];
    assert!(is_excluded("file.tmp", &patterns));
    assert!(!is_excluded("file.txt", &patterns));
}

#[test]
fn matches_nested_path_pattern() {
    let patterns = vec![".git/*".to_string()];
    assert!(is_excluded(".git/config", &patterns));
    assert!(!is_excluded("src/.git/config", &patterns));
}

#[test]
fn no_patterns_excludes_nothing() {
    assert!(!is_excluded("anything.txt", &[]));
}

#[test]
fn invalid_pattern_excludes_nothing_but_others_still_apply() {
    let patterns = vec!["***".to_string(), "*.log".to_string()];
    assert!(!is_excluded("a.txt", &patterns));
    assert!(is_excluded("a.log", &patterns));
}

#[test]
fn report_entries_are_excluded_like_walked_ones() {
    let patterns = vec!["*.tmp".to_string(), ".git/*".to_string()];
    let local = vec![
        LocalEntry { relative_path: "a.tmp".to_string(), size: 1 },
        LocalEntry { relative_path: "b.txt".to_string(), size: 2 },
        LocalEntry { relative_path: ".git/HEAD".to_string(), size: 3 },
        LocalEntry { relative_path: "c/d.txt".to_string(), size: 4 },
    ];
    assert_eq!(
        drop_excluded_local(&local, &patterns),
        vec![
            LocalEntry { relative_path: "b.txt".to_string(), size: 2 },
            LocalEntry { relative_path: "c/d.txt".to_string(), size: 4 },
        ]
    );
    let remote = vec![
        RemoteEntry { relative_path: "x.tmp".to_string(), size: 5 },
        RemoteEntry { relative_path: "y".to_string(), size: 6 },
    ];
    assert_eq!(drop_excluded_remote(&remote, &patterns), vec![RemoteEntry { relative_path: "y".to_string(), size: 6 }]);
    assert_eq!(drop_excluded_remote(&remote, &[]), remote);
}
