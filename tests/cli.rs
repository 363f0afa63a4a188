use quest::{parse_key_val, print_version, QuestError};

#[test]
fn key_val_splits_at_first_equals() {
    let (k, v) = parse_key_val("id=99").unwrap();
    assert_eq!(k, "id");
    assert_eq!(v, "99");
    let (k, v) = parse_key_val("q=a=b").unwrap();
    assert_eq!(k, "q");
    assert_eq!(v, "a=b");
    let (k, v) = parse_key_val("=").unwrap();
    assert_eq!(k, "");
    assert_eq!(v, "");
}

#[test]
fn key_val_without_equals_fails() {
    let r = parse_key_val("novalue");
    assert!(matches!(r, Err(QuestError::InvalidKeyValue(s)) if s == "novalue"));
}

#[test]
fn version_has_prefix() {
    assert_eq!(print_version("1.2.3"), "v1.2.3");
}
