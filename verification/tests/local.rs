use ftp_utils::local::normalize_separators;

#[test]
fn backslashes_become_slashes() {
    assert_eq!(normalize_separators("sub\\dir\\a.txt"), "sub/dir/a.txt");
    assert_eq!(normalize_separators("plain/a.txt"), "plain/a.txt");
}
