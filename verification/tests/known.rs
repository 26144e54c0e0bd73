use ftp_utils::known::KnownMd5;

#[test]
fn get_after_insert_gives_the_hash() {
    let mut m = KnownMd5::new();
    assert!(m.is_empty());
    assert_eq!(m.get("a"), None);
    m.insert("a".to_string(), "1".to_string());
    m.insert("b".to_string(), "2".to_string());
    m.insert("a".to_string(), "3".to_string());
    assert!(!m.is_empty());
    assert_eq!(m.get("a"), Some(&"3".to_string()));
    assert_eq!(m.get("b"), Some(&"2".to_string()));
    assert_eq!(m.get("c"), None);
}
