use kvs::{KeyIndex, Pos};

fn pos(term: u64, offset: u64, len: u64) -> Pos {
    Pos { term, offset, len }
}

#[test]
fn new_index_is_empty() {
    let index = KeyIndex::new();
    assert_eq!(index.get("a"), None);
    assert!(!index.contains_key("a"));
    assert!(index.entries().is_empty());
}

#[test]
fn insert_binds_and_returns_what_it_displaced() {
    let mut index = KeyIndex::new();
    assert_eq!(index.insert("a".to_string(), pos(1, 0, 10)), None);
    assert_eq!(index.insert("b".to_string(), pos(1, 10, 5)), None);
    assert_eq!(index.insert("a".to_string(), pos(1, 15, 7)), Some(pos(1, 0, 10)));
    assert_eq!(index.get("a"), Some(pos(1, 15, 7)));
    assert_eq!(index.get("b"), Some(pos(1, 10, 5)));
    assert!(index.contains_key("b"));
}

#[test]
fn remove_unbinds_and_returns_what_was_bound() {
    let mut index = KeyIndex::new();
    index.insert("a".to_string(), pos(1, 0, 10));
    assert_eq!(index.remove("b"), None);
    assert_eq!(index.remove("a"), Some(pos(1, 0, 10)));
    assert_eq!(index.remove("a"), None);
    assert_eq!(index.get("a"), None);
}

#[test]
fn entries_list_each_key_once() {
    let mut index = KeyIndex::new();
    index.insert("b".to_string(), pos(1, 0, 1));
    index.insert("c".to_string(), pos(1, 1, 2));
    index.insert("a".to_string(), pos(1, 3, 3));
    index.insert("b".to_string(), pos(1, 6, 4));
    index.remove("c");
    let entries = index.entries();
    assert_eq!(
        entries,
        vec![("a".to_string(), pos(1, 3, 3)), ("b".to_string(), pos(1, 6, 4))]
    );
}
