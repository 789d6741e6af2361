use workspace_bump::change_set::{ChangeSet, DeltaPath};
use workspace_bump::text::{chars_of, contains};

fn text(p: &str) -> DeltaPath {
    DeltaPath::Text(p.to_string())
}

fn listed(set: &ChangeSet) -> Vec<String> {
    let mut out: Vec<String> = (0..set.len()).map(|i| set.get(i).clone()).collect();
    out.sort();
    out
}

#[test]
fn contains_finds_a_substring_anywhere() {
    assert!(contains("crates/a/src/lib.rs", "crates/a"));
    assert!(contains("x/crates/a/src/lib.rs", "crates/a"));
    assert!(contains("src/crates/a", "crates/a"));
    assert!(contains("crates/a", "crates/a"));
    assert!(!contains("crates/b/src/lib.rs", "crates/a"));
    assert!(!contains("crates/", "crates/a"));
    assert!(!contains("crate/sa", "crates/a"));
    assert!(!contains("aab", "aba"));
    assert!(contains("aabab", "aba"));
}

#[test]
fn contains_with_empty_strings() {
    assert!(contains("abc", ""));
    assert!(contains("", ""));
    assert!(!contains("", "a"));
}

#[test]
fn contains_compares_characters_not_bytes() {
    assert!(contains("päckchen/ä/lib.rs", "ä/"));
    assert!(contains("日本語/パス", "本語"));
    assert!(!contains("日本語", "語日"));
    assert!(!contains("a", "ä"));
}

#[test]
fn chars_of_lists_the_characters() {
    assert_eq!(chars_of("aß語"), vec!['a', 'ß', '語']);
    assert_eq!(chars_of(""), Vec::<char>::new());
}

#[test]
fn new_change_set_is_empty() {
    let set = ChangeSet::new();
    assert_eq!(set.len(), 0);
    assert!(!set.contains(&"a".to_string()));
    assert!(!set.touches("a"));
}

#[test]
fn insert_keeps_each_path_once() {
    let mut set = ChangeSet::new();
    assert!(set.insert("a/x.rs".to_string()));
    assert!(set.insert("b/y.rs".to_string()));
    assert!(!set.insert("a/x.rs".to_string()));
    assert_eq!(set.len(), 2);
    assert!(set.contains(&"a/x.rs".to_string()));
    assert!(set.contains(&"b/y.rs".to_string()));
    assert!(!set.contains(&"a".to_string()));
    assert_eq!(set.get(0), "a/x.rs");
    assert_eq!(set.get(1), "b/y.rs");
}

#[test]
fn touches_tells_whether_a_path_holds_the_root() {
    let mut set = ChangeSet::new();
    set.insert("crates/a/src/lib.rs".to_string());
    set.insert("README.md".to_string());
    assert!(set.touches("crates/a"));
    assert!(set.touches("README"));
    assert!(set.touches(""));
    assert!(!set.touches("crates/b"));
    assert!(!ChangeSet::new().touches(""));
}

#[test]
fn rename_brings_in_both_of_its_paths() {
    let set = ChangeSet::from_deltas(vec![(text("new/name.rs"), text("old/name.rs"))]);
    assert_eq!(listed(&set), vec!["new/name.rs".to_string(), "old/name.rs".to_string()]);
}

#[test]
fn from_deltas_removes_repeated_paths() {
    let set = ChangeSet::from_deltas(vec![
        (text("a.rs"), text("a.rs")),
        (text("b.rs"), text("a.rs")),
        (text("a.rs"), text("c.rs")),
    ]);
    assert_eq!(listed(&set), vec!["a.rs".to_string(), "b.rs".to_string(), "c.rs".to_string()]);
    assert_eq!(set.len(), 3);
}

#[test]
fn change_without_a_path_on_one_side_brings_in_nothing() {
    let set = ChangeSet::from_deltas(vec![
        (text("a.rs"), DeltaPath::Absent),
        (DeltaPath::Absent, text("b.rs")),
        (DeltaPath::Absent, DeltaPath::Absent),
    ]);
    assert_eq!(set.len(), 0);
}

#[test]
fn path_that_is_not_text_is_left_out_but_its_other_side_counts() {
    let set = ChangeSet::from_deltas(vec![
        (DeltaPath::NotText, text("old.rs")),
        (text("new.rs"), DeltaPath::NotText),
        (DeltaPath::NotText, DeltaPath::NotText),
    ]);
    assert_eq!(listed(&set), vec!["new.rs".to_string(), "old.rs".to_string()]);
}

#[test]
fn from_deltas_of_nothing_is_empty() {
    let set = ChangeSet::from_deltas(Vec::new());
    assert_eq!(set.len(), 0);
}
