use devconsole::Trie;

#[test]
fn test_trie_basic() {
    let mut trie = Trie::new();
    assert!(trie.is_empty());

    trie.insert("hello", 1);
    assert_eq!(trie.len(), 1);
    assert!(!trie.is_empty());

    assert_eq!(trie.get("hello"), Some(&1));
    assert_eq!(trie.get("world"), None);
    assert!(trie.contains("hello"));
    assert!(!trie.contains("world"));
}

#[test]
fn test_trie_overwrite() {
    let mut trie = Trie::new();
    assert_eq!(trie.insert("key", 1), None);
    assert_eq!(trie.insert("key", 2), Some(1));
    assert_eq!(trie.get("key"), Some(&2));
    assert_eq!(trie.len(), 1);
}

#[test]
fn test_trie_remove() {
    let mut trie = Trie::new();
    trie.insert("hello", 1);
    trie.insert("world", 2);

    assert_eq!(trie.remove("hello"), Some(1));
    assert_eq!(trie.get("hello"), None);
    assert_eq!(trie.len(), 1);

    assert_eq!(trie.remove("nonexistent"), None);
}

#[test]
fn test_trie_prefix_iter() {
    let mut trie = Trie::new();
    trie.insert("sv_gravity", 800);
    trie.insert("sv_cheats", 0);
    trie.insert("sv_maxrate", 0);
    trie.insert("cl_fov", 90);
    trie.insert("cl_showfps", 0);

    let sv_entries = trie.prefix_iter("sv_");
    assert_eq!(sv_entries.len(), 3);

    let cl_entries = trie.prefix_iter("cl_");
    assert_eq!(cl_entries.len(), 2);

    let empty_entries = trie.prefix_iter("xyz");
    assert!(empty_entries.is_empty());
}

#[test]
fn test_trie_iter() {
    let mut trie = Trie::new();
    trie.insert("a", 1);
    trie.insert("b", 2);
    trie.insert("c", 3);

    let entries = trie.iter();
    assert_eq!(entries.len(), 3);

    let keys = trie.keys();
    assert_eq!(keys.len(), 3);
}

#[test]
fn test_trie_get_mut() {
    let mut trie = Trie::new();
    trie.insert("key", 1);

    if let Some(v) = trie.get_mut("key") {
        *v = 42;
    }

    assert_eq!(trie.get("key"), Some(&42));
}

#[test]
fn test_trie_shared_prefix() {
    let mut trie = Trie::new();
    trie.insert("test", 1);
    trie.insert("testing", 2);
    trie.insert("tested", 3);

    assert_eq!(trie.get("test"), Some(&1));
    assert_eq!(trie.get("testing"), Some(&2));
    assert_eq!(trie.get("tested"), Some(&3));
    assert_eq!(trie.get("tes"), None);

    let prefix_entries = trie.prefix_iter("test");
    assert_eq!(prefix_entries.len(), 3);
}

#[test]
fn prefix_iter_returns_exactly_the_matching_keys() {
    let mut trie = Trie::new();
    trie.insert("test", 1);
    trie.insert("testing", 2);
    trie.insert("tested", 3);
    trie.insert("other", 4);
    let mut found: Vec<(String, i32)> = trie.prefix_iter("test").into_iter().map(|(k, v)| (k, *v)).collect();
    found.sort();
    assert_eq!(
        found,
        vec![("test".to_string(), 1), ("tested".to_string(), 3), ("testing".to_string(), 2)]
    );
    assert_eq!(trie.get("tes"), None);
}

#[test]
fn removed_key_leaves_prefix_listing_and_len() {
    let mut trie = Trie::new();
    trie.insert("ab", 1);
    trie.insert("abc", 2);
    assert_eq!(trie.remove("ab"), Some(1));
    assert_eq!(trie.len(), 1);
    let keys = trie.prefix_iter("a");
    assert_eq!(keys.len(), 1);
    assert_eq!(keys[0].0, "abc");
}

#[test]
fn clear_empties_the_trie() {
    let mut trie = Trie::new();
    trie.insert("x", 1);
    trie.insert("y", 2);
    trie.clear();
    assert!(trie.is_empty());
    assert_eq!(trie.get("x"), None);
    assert!(trie.values().is_empty());
}

#[test]
fn empty_key_is_a_key() {
    let mut trie = Trie::new();
    trie.insert("", 7);
    assert_eq!(trie.get(""), Some(&7));
    assert_eq!(trie.len(), 1);
}
