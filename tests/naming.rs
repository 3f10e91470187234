use zippynfs::name::{classify_leaf, fid_leaf, is_legal_name, named_file_leaf, same_text, LeafKind};

#[test]
fn fid_leaf_is_decimal() {
    assert_eq!(fid_leaf(0), "0");
    assert_eq!(fid_leaf(1), "1");
    assert_eq!(fid_leaf(1234), "1234");
    assert_eq!(fid_leaf(u64::MAX), "18446744073709551615");
}

#[test]
fn named_leaf_joins_fid_and_name() {
    assert_eq!(named_file_leaf(8, "foo"), "8.foo");
    assert_eq!(named_file_leaf(4, "baz.txt"), "4.baz.txt");
    assert_eq!(named_file_leaf(1, "root"), "1.root");
}

#[test]
fn classify_numbered_and_named() {
    assert!(matches!(classify_leaf("8"), LeafKind::Numbered(8)));
    assert!(matches!(classify_leaf("18446744073709551615"), LeafKind::Numbered(u64::MAX)));
    match classify_leaf("4.baz.txt") {
        LeafKind::Named(f, n) => {
            assert_eq!(f, 4);
            assert_eq!(n, "baz.txt");
        }
        _ => panic!("not a named leaf"),
    }
    match classify_leaf("7.deleted.txt") {
        LeafKind::Named(f, n) => {
            assert_eq!(f, 7);
            assert_eq!(n, "deleted.txt");
        }
        _ => panic!("not a named leaf"),
    }
}

#[test]
fn classify_foreign() {
    assert!(matches!(classify_leaf(""), LeafKind::Foreign));
    assert!(matches!(classify_leaf("tmp"), LeafKind::Foreign));
    assert!(matches!(classify_leaf("counter"), LeafKind::Foreign));
    assert!(matches!(classify_leaf("007"), LeafKind::Foreign));
    assert!(matches!(classify_leaf(".hidden"), LeafKind::Foreign));
    assert!(matches!(classify_leaf("18446744073709551616"), LeafKind::Foreign));
    assert!(matches!(classify_leaf("12a.x"), LeafKind::Foreign));
}

#[test]
fn legal_names() {
    assert!(is_legal_name("foo"));
    assert!(is_legal_name("baz.txt"));
    assert!(is_legal_name("1a"));
    assert!(!is_legal_name(""));
    assert!(!is_legal_name("123"));
    assert!(!is_legal_name("a/b"));
}

#[test]
fn text_equality() {
    assert!(same_text("abc", "abc"));
    assert!(!same_text("abc", "abd"));
    assert!(!same_text("abc", "ab"));
    assert!(same_text("", ""));
}
