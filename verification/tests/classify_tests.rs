use pcloud_sync::classify::{classify, contains_name};
use std::collections::BTreeSet;

fn names(list: &[&str]) -> Vec<String> {
    list.iter().map(|name| name.to_string()).collect()
}

fn set(list: &[String]) -> BTreeSet<String> {
    list.iter().cloned().collect()
}

#[test]
fn classify_partitions_names() {
    let remote = names(&["a", "b", "c"]);
    let local = names(&["b", "d"]);
    let classes = classify(&remote, &local);
    assert_eq!(classes.remote_only, names(&["a", "c"]));
    assert_eq!(classes.local_only, names(&["d"]));
    assert_eq!(classes.common, names(&["b"]));
}

#[test]
fn classes_cover_both_listings_and_are_disjoint() {
    let remote = names(&["x", "shared", "y", "also"]);
    let local = names(&["also", "z", "shared"]);
    let classes = classify(&remote, &local);
    let remote_only = set(&classes.remote_only);
    let local_only = set(&classes.local_only);
    let common = set(&classes.common);
    let mut union = remote_only.clone();
    union.extend(local_only.iter().cloned());
    union.extend(common.iter().cloned());
    let mut all = set(&remote);
    all.extend(local.iter().cloned());
    assert_eq!(union, all);
    assert!(remote_only.is_disjoint(&local_only));
    assert!(remote_only.is_disjoint(&common));
    assert!(local_only.is_disjoint(&common));
    assert_eq!(remote_only.len() + local_only.len() + common.len(), 5);
}

#[test]
fn classify_disjoint_listings_has_nothing_in_common() {
    let classes = classify(&names(&["a", "b"]), &names(&["c"]));
    assert_eq!(classes.remote_only, names(&["a", "b"]));
    assert_eq!(classes.local_only, names(&["c"]));
    assert!(classes.common.is_empty());
}

#[test]
fn classify_empty_listings() {
    let classes = classify(&names(&[]), &names(&[]));
    assert!(classes.remote_only.is_empty());
    assert!(classes.local_only.is_empty());
    assert!(classes.common.is_empty());
    let classes = classify(&names(&[]), &names(&["a"]));
    assert_eq!(classes.local_only, names(&["a"]));
    assert!(classes.remote_only.is_empty());
}

#[test]
fn classify_converged_listings_leave_nothing_to_transfer() {
    let classes = classify(&names(&["a", "b"]), &names(&["b", "a"]));
    assert!(classes.remote_only.is_empty());
    assert!(classes.local_only.is_empty());
    assert_eq!(classes.common, names(&["a", "b"]));
}

#[test]
fn classify_tells_names_by_every_character() {
    let classes = classify(&names(&["File.txt", "é"]), &names(&["file.txt", "e"]));
    assert_eq!(classes.remote_only, names(&["File.txt", "é"]));
    assert_eq!(classes.local_only, names(&["file.txt", "e"]));
}

#[test]
fn contains_name_finds_only_whole_names() {
    let list = names(&["foo", "bar"]);
    assert!(contains_name(&list, &"bar".to_string()));
    assert!(!contains_name(&list, &"ba".to_string()));
    assert!(!contains_name(&names(&[]), &"bar".to_string()));
}
