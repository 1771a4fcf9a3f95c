use stremio_core::types::library::{LibraryBucket, LibraryItem, LibraryItemState};
use stremio_core::types::notifications::NotificationsBucket;

fn item(id: &str, name: &str) -> LibraryItem {
    LibraryItem {
        id: id.to_string(),
        type_: "movie".to_string(),
        name: name.to_string(),
        removed: false,
        state: LibraryItemState {
            last_watched: None,
            time_offset: 0,
            times_watched: 0,
        },
    }
}

#[test]
fn new_bucket_is_empty() {
    let bucket = LibraryBucket::new();
    assert_eq!(bucket.len(), 0);
    assert!(bucket.items().is_empty());
    assert!(bucket.get(&"a".to_string()).is_none());
}

#[test]
fn insert_adds_an_item_with_a_new_identity() {
    let mut bucket = LibraryBucket::new();
    assert!(bucket.insert(item("a", "A")));
    assert!(bucket.insert(item("b", "B")));
    assert_eq!(bucket.len(), 2);
    assert_eq!(bucket.get(&"a".to_string()), Some(&item("a", "A")));
    assert_eq!(bucket.get(&"b".to_string()), Some(&item("b", "B")));
    assert!(bucket.get(&"c".to_string()).is_none());
}

#[test]
fn insert_replaces_the_item_with_the_same_identity() {
    let mut bucket = LibraryBucket::new();
    bucket.insert(item("a", "A"));
    bucket.insert(item("b", "B"));
    assert!(bucket.insert(item("a", "Other")));
    assert_eq!(bucket.len(), 2);
    assert_eq!(bucket.get(&"a".to_string()), Some(&item("a", "Other")));
    assert_eq!(bucket.get(&"b".to_string()), Some(&item("b", "B")));
}

#[test]
fn insert_of_an_equal_item_changes_nothing() {
    let mut bucket = LibraryBucket::new();
    bucket.insert(item("a", "A"));
    assert!(!bucket.insert(item("a", "A")));
    assert_eq!(bucket.len(), 1);
}

#[test]
fn items_are_compared_by_all_they_hold() {
    let mut other = item("a", "A");
    assert_eq!(item("a", "A"), other.clone());
    other.state.times_watched = 1;
    assert_ne!(item("a", "A"), other);
    let mut removed = item("a", "A");
    removed.removed = true;
    assert_ne!(item("a", "A"), removed);
}

#[test]
fn continue_watching_needs_a_position() {
    let mut watched = item("a", "A");
    assert!(!watched.is_in_continue_watching());
    watched.state.time_offset = 1;
    assert!(watched.is_in_continue_watching());
}

#[test]
fn notifications_are_pending_where_markers_wait() {
    let mut bucket = NotificationsBucket::new();
    assert!(!bucket.is_pending(&"a".to_string()));
    bucket.insert("a".to_string(), vec!["video1".to_string()]);
    bucket.insert("b".to_string(), vec![]);
    assert!(bucket.is_pending(&"a".to_string()));
    assert!(!bucket.is_pending(&"b".to_string()));
    assert!(!bucket.is_pending(&"c".to_string()));
}

#[test]
fn notifications_insert_replaces_what_stood_under_the_identity() {
    let mut bucket = NotificationsBucket::new();
    bucket.insert("a".to_string(), vec!["video1".to_string()]);
    bucket.insert("a".to_string(), vec![]);
    assert!(!bucket.is_pending(&"a".to_string()));
    bucket.insert("a".to_string(), vec!["video2".to_string(), "video3".to_string()]);
    assert!(bucket.is_pending(&"a".to_string()));
}
