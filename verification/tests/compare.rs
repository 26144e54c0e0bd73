use ftp_utils::compare::compare_entries;
use ftp_utils::diff::DiffStatus;
use ftp_utils::local::LocalEntry;
use ftp_utils::remote::RemoteEntry;

#[test]
fn detects_local_only() {
    let local = vec![LocalEntry { relative_path: "a.txt".into(), size: 5 }];
    let result = compare_entries(&local, &[]);

    assert_eq!(result.len(), 1);
    assert_eq!(result[0].status, DiffStatus::LocalOnly);
    assert_eq!(result[0].local_size, Some(5));
    assert_eq!(result[0].remote_size, None);
}

#[test]
fn detects_remote_only() {
    let remote = vec![RemoteEntry { relative_path: "a.txt".into(), size: 5 }];
    let result = compare_entries(&[], &remote);

    assert_eq!(result.len(), 1);
    assert_eq!(result[0].status, DiffStatus::RemoteOnly);
    assert_eq!(result[0].remote_size, Some(5));
}

#[test]
fn detects_match_and_size_mismatch() {
    let local = vec![
        LocalEntry { relative_path: "match.txt".into(), size: 10 },
        LocalEntry { relative_path: "diff.txt".into(), size: 10 },
    ];
    let remote = vec![
        RemoteEntry { relative_path: "match.txt".into(), size: 10 },
        RemoteEntry { relative_path: "diff.txt".into(), size: 20 },
    ];

    let result = compare_entries(&local, &remote);

    let matched = result.iter().find(|e| e.relative_path == "match.txt").unwrap();
    assert_eq!(matched.status, DiffStatus::Match);

    let mismatched = result.iter().find(|e| e.relative_path == "diff.txt").unwrap();
    assert_eq!(mismatched.status, DiffStatus::SizeMismatch);
}

#[test]
fn entries_come_out_sorted_and_unique() {
    let local = vec![
        LocalEntry { relative_path: "b".into(), size: 1 },
        LocalEntry { relative_path: "a/x".into(), size: 2 },
        LocalEntry { relative_path: "a".into(), size: 3 },
    ];
    let remote = vec![
        RemoteEntry { relative_path: "a".into(), size: 3 },
        RemoteEntry { relative_path: "c".into(), size: 4 },
        RemoteEntry { relative_path: "b".into(), size: 9 },
    ];
    let result = compare_entries(&local, &remote);
    let paths: Vec<&str> = result.iter().map(|e| e.relative_path.as_str()).collect();
    assert_eq!(paths, vec!["a", "a/x", "b", "c"]);
    let statuses: Vec<DiffStatus> = result.iter().map(|e| e.status).collect();
    assert_eq!(
        statuses,
        vec![DiffStatus::Match, DiffStatus::LocalOnly, DiffStatus::SizeMismatch, DiffStatus::RemoteOnly]
    );
    assert_eq!(result[2].local_size, Some(1));
    assert_eq!(result[2].remote_size, Some(9));
    assert!(result.iter().all(|e| e.local_md5.is_none() && e.remote_md5.is_none()));
}

#[test]
fn later_duplicate_entry_wins() {
    let local = vec![
        LocalEntry { relative_path: "f".into(), size: 1 },
        LocalEntry { relative_path: "f".into(), size: 7 },
    ];
    let remote = vec![RemoteEntry { relative_path: "f".into(), size: 7 }];
    let result = compare_entries(&local, &remote);
    assert_eq!(result.len(), 1);
    assert_eq!(result[0].status, DiffStatus::Match);
    assert_eq!(result[0].local_size, Some(7));
}

#[test]
fn identical_sides_all_match() {
    let local = vec![
        LocalEntry { relative_path: "x".into(), size: 1 },
        LocalEntry { relative_path: "y/z".into(), size: 2 },
    ];
    let remote = vec![
        RemoteEntry { relative_path: "x".into(), size: 1 },
        RemoteEntry { relative_path: "y/z".into(), size: 2 },
    ];
    let result = compare_entries(&local, &remote);
    assert_eq!(result.len(), 2);
    assert!(result.iter().all(|e| e.status == DiffStatus::Match));
}

#[test]
fn empty_sides_give_no_entries() {
    assert!(compare_entries(&[], &[]).is_empty());
}

#[test]
fn order_is_by_code_point() {
    let local = vec![
        LocalEntry { relative_path: "é".into(), size: 1 },
        LocalEntry { relative_path: "Z".into(), size: 1 },
        LocalEntry { relative_path: "a".into(), size: 1 },
    ];
    let result = compare_entries(&local, &[]);
    let paths: Vec<&str> = result.iter().map(|e| e.relative_path.as_str()).collect();
    assert_eq!(paths, vec!["Z", "a", "é"]);
}

#[test]
fn swapping_sides_swaps_only_one_sided_statuses() {
    let a = vec![
        LocalEntry { relative_path: "both.txt".into(), size: 3 },
        LocalEntry { relative_path: "left.txt".into(), size: 1 },
        LocalEntry { relative_path: "sized.txt".into(), size: 2 },
    ];
    let b = vec![
        RemoteEntry { relative_path: "both.txt".into(), size: 3 },
        RemoteEntry { relative_path: "right.txt".into(), size: 4 },
        RemoteEntry { relative_path: "sized.txt".into(), size: 9 },
    ];
    let a_as_remote: Vec<RemoteEntry> =
        a.iter().map(|e| RemoteEntry { relative_path: e.relative_path.clone(), size: e.size }).collect();
    let b_as_local: Vec<LocalEntry> =
        b.iter().map(|e| LocalEntry { relative_path: e.relative_path.clone(), size: e.size }).collect();

    let forward = compare_entries(&a, &b);
    let backward = compare_entries(&b_as_local, &a_as_remote);

    let statuses = |v: &Vec<ftp_utils::diff::DiffEntry>| -> Vec<(String, DiffStatus)> {
        v.iter().map(|e| (e.relative_path.clone(), e.status)).collect()
    };
    assert_eq!(
        statuses(&forward),
        vec![
            ("both.txt".to_string(), DiffStatus::Match),
            ("left.txt".to_string(), DiffStatus::LocalOnly),
            ("right.txt".to_string(), DiffStatus::RemoteOnly),
            ("sized.txt".to_string(), DiffStatus::SizeMismatch),
        ]
    );
    assert_eq!(
        statuses(&backward),
        vec![
            ("both.txt".to_string(), DiffStatus::Match),
            ("left.txt".to_string(), DiffStatus::RemoteOnly),
            ("right.txt".to_string(), DiffStatus::LocalOnly),
            ("sized.txt".to_string(), DiffStatus::SizeMismatch),
        ]
    );
}

#[test]
fn exchanging_sides_exchanges_sizes_and_one_sided_statuses() {
    let local = vec![
        LocalEntry { relative_path: "a.txt".into(), size: 1 },
        LocalEntry { relative_path: "b.txt".into(), size: 2 },
        LocalEntry { relative_path: "c.txt".into(), size: 3 },
    ];
    let remote = vec![
        RemoteEntry { relative_path: "b.txt".into(), size: 2 },
        RemoteEntry { relative_path: "c.txt".into(), size: 4 },
        RemoteEntry { relative_path: "d.txt".into(), size: 5 },
    ];
    let local2: Vec<LocalEntry> = remote
        .iter()
        .map(|e| LocalEntry { relative_path: e.relative_path.clone(), size: e.size })
        .collect();
    let remote2: Vec<RemoteEntry> = local
        .iter()
        .map(|e| RemoteEntry { relative_path: e.relative_path.clone(), size: e.size })
        .collect();

    let forward = compare_entries(&local, &remote);
    let backward = compare_entries(&local2, &remote2);

    assert_eq!(forward.len(), 4);
    assert_eq!(backward.len(), 4);
    for (f, b) in forward.iter().zip(backward.iter()) {
        assert_eq!(f.relative_path, b.relative_path);
        assert_eq!(f.local_size, b.remote_size);
        assert_eq!(f.remote_size, b.local_size);
        let swapped = match f.status {
            DiffStatus::LocalOnly => DiffStatus::RemoteOnly,
            DiffStatus::RemoteOnly => DiffStatus::LocalOnly,
            other => other,
        };
        assert_eq!(b.status, swapped);
    }
    assert_eq!(forward[0].status, DiffStatus::LocalOnly);
    assert_eq!(backward[0].status, DiffStatus::RemoteOnly);
    assert_eq!(forward[2].status, DiffStatus::SizeMismatch);
}
