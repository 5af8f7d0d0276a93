use importer_rebike::strmap::StrMap;
use importer_rebike::text::{decimal_chars, join_strings, replace_spaces};

#[test]
fn decimal_notation() {
    assert_eq!(decimal_chars(0), vec!['0']);
    assert_eq!(decimal_chars(407), vec!['4', '0', '7']);
}

#[test]
fn joining_parts() {
    let parts = vec!["a".to_string(), "bc".to_string(), "".to_string()];
    assert_eq!(join_strings(&parts, "."), "a.bc.");
    assert_eq!(join_strings(&vec![], "."), "");
}

#[test]
fn spaces_become_dashes() {
    assert_eq!(replace_spaces("a b  c"), "a-b--c");
}

#[test]
fn map_insert_and_get() {
    let mut m: StrMap<usize> = StrMap::new();
    assert!(m.is_empty());
    m.insert("k".to_string(), 1);
    m.insert("j".to_string(), 2);
    m.insert("k".to_string(), 3);
    assert!(!m.is_empty());
    assert_eq!(m.get("k"), Some(&3));
    assert_eq!(m.get("j"), Some(&2));
    assert_eq!(m.get("x"), None);
}
