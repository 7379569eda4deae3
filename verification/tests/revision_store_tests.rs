use sysconfig::revision_store::{latest_revision, revisions_to_remove, state_revision_dir, MAX_DISK_REVISIONS};

#[test]
fn test_revision_dir_for_root() {
    assert_eq!(state_revision_dir(true, Some("/x"), Some("/y"), Some("/home/u")), "/var/lib/sysconfig");
}

#[test]
fn test_revision_dir_prefers_state_home() {
    assert_eq!(
        state_revision_dir(false, Some("/home/u/.state"), Some("/home/u/.data"), Some("/home/u")),
        "/home/u/.state/sysconfig"
    );
    assert_eq!(state_revision_dir(false, Some("/s/"), None, None), "/s/sysconfig");
}

#[test]
fn test_revision_dir_falls_back_in_order() {
    assert_eq!(state_revision_dir(false, None, Some("/d"), Some("/home/u")), "/d/sysconfig");
    assert_eq!(state_revision_dir(false, None, None, Some("/home/u")), "/home/u/.local/state/sysconfig");
    assert_eq!(state_revision_dir(false, None, None, None), "/tmp/sysconfig-state");
}

#[test]
fn test_latest_revision_picks_first_newest() {
    assert_eq!(latest_revision(&vec![]), None);
    assert_eq!(latest_revision(&vec![5]), Some(0));
    assert_eq!(latest_revision(&vec![3, 9, 2, 9, 1]), Some(1));
    assert_eq!(latest_revision(&vec![1, 2, 3]), Some(2));
}

#[test]
fn test_nothing_removed_under_the_limit() {
    let entries: Vec<(String, u64)> = (0..10u64).map(|i| (format!("r{}.json", i), i)).collect();
    assert!(revisions_to_remove(&entries).is_empty());
}

#[test]
fn test_oldest_revisions_removed_over_the_limit() {
    // newest first, so the oldest are at the end of the listing
    let total = MAX_DISK_REVISIONS as u64 + 3;
    let mut entries: Vec<(String, u64)> = (0..total).rev().map(|i| (format!("r{}.json", i), 100 + i)).collect();
    entries.push(("latest.json".to_string(), 0));
    entries.push(("notes.txt".to_string(), 1));
    let removed = revisions_to_remove(&entries);
    assert_eq!(removed, vec!["r0.json".to_string(), "r1.json".to_string(), "r2.json".to_string()]);
}

#[test]
fn test_equal_times_keep_listing_order() {
    let total = MAX_DISK_REVISIONS as u64 + 2;
    let entries: Vec<(String, u64)> = (0..total).map(|i| (format!("r{}.json", i), 7)).collect();
    let removed = revisions_to_remove(&entries);
    assert_eq!(removed, vec!["r0.json".to_string(), "r1.json".to_string()]);
}
