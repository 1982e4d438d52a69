use nzb_news::trylist::TryList;

#[test]
fn empty_on_construction() {
    let tl = TryList::new();
    assert!(tl.is_empty());
    assert_eq!(tl.len(), 0);
    assert!(!tl.contains("any"));
}

#[test]
fn add_returns_true_once() {
    let mut tl = TryList::new();
    assert!(tl.add("s1"));
    assert!(!tl.add("s1")); // duplicate → false
    assert!(tl.contains("s1"));
    assert_eq!(tl.len(), 1);
}

#[test]
fn reset_clears() {
    let mut tl = TryList::new();
    tl.add("s1");
    tl.add("s2");
    assert_eq!(tl.len(), 2);
    tl.reset();
    assert!(tl.is_empty());
    assert!(!tl.contains("s1"));
}

#[test]
fn remove_single() {
    let mut tl = TryList::new();
    tl.add("s1");
    tl.add("s2");
    assert!(tl.remove("s1"));
    assert!(!tl.contains("s1"));
    assert!(tl.contains("s2"));
    assert!(!tl.remove("s1"));
}

#[test]
fn clone_is_snapshot_not_shared() {
    let mut tl = TryList::new();
    tl.add("s1");
    let mut clone = tl.clone();
    clone.add("s2");
    assert!(!tl.contains("s2"), "clone should be independent");
    assert!(clone.contains("s1"));
}

#[test]
fn default_is_empty() {
    assert!(TryList::default().is_empty());
}

#[test]
fn snapshot_lists_each_server_once() {
    let mut tl = TryList::new();
    tl.add("s2");
    tl.add("s1");
    tl.add("s2");
    let snapshot = tl.snapshot();
    assert_eq!(snapshot, vec!["s2".to_string(), "s1".to_string()]);
    tl.reset();
    assert_eq!(snapshot.len(), 2);
}

#[test]
fn removing_from_the_middle_keeps_the_rest() {
    let mut tl = TryList::new();
    tl.add("a");
    tl.add("b");
    tl.add("c");
    assert!(tl.remove("b"));
    assert_eq!(tl.len(), 2);
    assert!(tl.contains("a"));
    assert!(tl.contains("c"));
    assert!(tl.add("b"));
}

#[test]
fn length_counts_each_server_once() {
    let mut tl = TryList::new();
    for (server, len) in [("s1", 1), ("s2", 2), ("s1", 2), ("s3", 3)] {
        tl.add(server);
        assert_eq!(tl.len(), len);
    }
}
