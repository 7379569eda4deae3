use sysconfig::error::Error;
use sysconfig::json::Json;
use sysconfig::state::SystemState;
use sysconfig::state_manager::{calculate_hash, diff_states, StateManager, StateRevision};

fn state_with(key: &str, value: Json) -> SystemState {
    let mut s = SystemState::new();
    s.set(key, value).unwrap();
    s
}

fn uint_of(j: &Json) -> u64 {
    match j {
        Json::PosInt(n) => *n,
        _ => panic!("not an unsigned number"),
    }
}

fn str_of(j: &Json) -> &str {
    match j {
        Json::Str(s) => s.as_str(),
        _ => panic!("not a string"),
    }
}

#[test]
fn test_state_manager_creation() {
    let manager = StateManager::new("/tmp/sysconfig-state-test");
    let state = manager.get_current_state();
    match state.data {
        Json::Object(members) => assert!(members.is_empty()),
        _ => panic!("the state is not an object"),
    }
    assert!(manager.current_revision_id().is_none());
    assert!(manager.auto_persist());
    assert_eq!(manager.state_dir(), "/tmp/sysconfig-state-test");
}

#[test]
fn test_state_update() {
    let mut manager = StateManager::new("/tmp/sysconfig-state-test");
    let new_state = state_with("test", Json::Str("value".to_string()));
    let revision_id = manager.update_state(
        new_state,
        "test".to_string(),
        Some("Test update".to_string()),
    );
    assert!(!revision_id.is_empty());
    assert_eq!(revision_id.len(), 36);
    assert_eq!(manager.current_revision_id(), Some(revision_id.clone()));

    let current = manager.get_current_state();
    assert_eq!(str_of(&current.get("test").unwrap()), "value");

    let revision = manager.cached_revision(&revision_id).unwrap();
    assert_eq!(revision.changed_by, "test");
    assert_eq!(revision.description, Some("Test update".to_string()));
    assert_eq!(revision.previous_revision_id, None);
    assert_eq!(revision.state_hash, calculate_hash("{\"test\":\"value\"}"));
}

#[test]
fn test_state_diff() {
    let mut state1 = SystemState::new();
    state1.set("key1", Json::Str("value1".to_string())).unwrap();
    state1.set("key2", Json::Str("value2".to_string())).unwrap();

    let mut state2 = SystemState::new();
    state2.set("key1", Json::Str("modified".to_string())).unwrap();
    state2.set("key3", Json::Str("value3".to_string())).unwrap();

    let diff = diff_states(&state1, &state2);

    assert_eq!(diff.removed, vec!["key2"]);
    assert_eq!(diff.added, vec!["key3"]);
    assert_eq!(diff.modified.len(), 1);
    assert_eq!(diff.modified[0].0, "key1");
    assert_eq!(str_of(&diff.modified[0].1), "value1");
    assert_eq!(str_of(&diff.modified[0].2), "modified");
}

#[test]
fn test_state_diff_nested_and_summary() {
    let mut state1 = SystemState::new();
    state1.set("network.dns", Json::Str("1.1.1.1".to_string())).unwrap();
    let mut state2 = SystemState::new();
    state2.set("network.dns", Json::Str("8.8.8.8".to_string())).unwrap();
    state2.set("network.mtu", Json::PosInt(1500)).unwrap();
    let diff = diff_states(&state1, &state2);
    assert_eq!(diff.added, vec!["network.mtu"]);
    assert!(diff.removed.is_empty());
    assert_eq!(diff.modified.len(), 1);
    assert_eq!(diff.modified[0].0, "network.dns");
    assert!(!diff.is_empty());
    assert_eq!(diff.summary(), "Added 1 paths:\n  + network.mtu\nModified 1 paths:\n  ~ network.dns\n");

    let same = diff_states(&state1, &state1);
    assert!(same.is_empty());
    assert_eq!(same.summary(), "No differences");
}

#[test]
fn test_rollback() {
    let mut manager = StateManager::new("/tmp/sysconfig-state-test");

    let revision1 = manager.update_state(
        state_with("version", Json::PosInt(1)),
        "test".to_string(),
        Some("Version 1".to_string()),
    );
    let revision2 = manager.update_state(
        state_with("version", Json::PosInt(2)),
        "test".to_string(),
        Some("Version 2".to_string()),
    );

    let current = manager.get_current_state();
    assert_eq!(uint_of(&current.get("version").unwrap()), 2);

    let revision = manager.cached_revision(&revision1).unwrap();
    let rolled = manager.rollback_to_revision(&revision1, revision).unwrap();

    let current = manager.get_current_state();
    assert_eq!(uint_of(&current.get("version").unwrap()), 1);
    assert_eq!(manager.current_revision_id(), Some(rolled.clone()));

    let newest = manager.cached_revision(&rolled).unwrap();
    assert_eq!(newest.changed_by, "system");
    assert_eq!(newest.description, Some(format!("Rollback to revision {}", revision1)));
    assert_eq!(newest.previous_revision_id, Some(revision2));
}

#[test]
fn test_rollback_refused_on_integrity_failure() {
    let mut manager = StateManager::new("/tmp/sysconfig-state-test");
    let revision1 = manager.update_state(
        state_with("version", Json::PosInt(1)),
        "test".to_string(),
        None,
    );
    manager.update_state(
        state_with("version", Json::PosInt(2)),
        "test".to_string(),
        None,
    );
    let mut revision = manager.cached_revision(&revision1).unwrap();
    revision.state = state_with("version", Json::PosInt(3));
    match manager.rollback_to_revision(&revision1, revision) {
        Err(Error::State(m)) => assert_eq!(m, format!("Revision {} failed integrity check", revision1)),
        _ => panic!("expected an integrity failure"),
    }
    let current = manager.get_current_state();
    assert_eq!(uint_of(&current.get("version").unwrap()), 2);
}

#[test]
fn test_history() {
    let mut manager = StateManager::new("/tmp/sysconfig-state-test");
    for i in 1..=5u64 {
        let state = state_with("count", Json::PosInt(i));
        manager.update_state(state, "test".to_string(), Some(format!("Update {}", i)));
    }

    let history = manager.get_history(10);
    assert_eq!(history.len(), 5);
    assert_eq!(history[0].description, Some("Update 5".to_string()));
    assert_eq!(history[4].description, Some("Update 1".to_string()));

    let latest = manager.get_history(2);
    assert_eq!(latest.len(), 2);
    assert_eq!(latest[1].description, Some("Update 4".to_string()));
}

#[test]
fn test_calculate_hash_values() {
    assert_eq!(calculate_hash(""), "e3b0c44298fc1c149afbf4c8996fb92427ae41e4649b934ca495991b7852b855");
    assert_eq!(calculate_hash("abc"), "ba7816bf8f01cfea414140de5dae2223b00361a396177a9cb410ff61f20015ad");
}

#[test]
fn test_revision_integrity() {
    let rev = StateRevision::new(state_with("a", Json::Bool(true)), "tester".to_string(), None);
    assert_eq!(rev.id.len(), 36);
    assert_eq!(rev.state_hash, calculate_hash("{\"a\":true}"));
    assert!(rev.verify_integrity());
    let mut tampered = rev.duplicate();
    tampered.state = state_with("a", Json::Bool(false));
    assert!(!tampered.verify_integrity());
    let copy = rev.duplicate();
    assert_eq!(copy.id, rev.id);
    assert_eq!(copy.state_hash, rev.state_hash);
}

#[test]
fn test_import_history() {
    let mut manager = StateManager::new("/tmp/sysconfig-state-test");
    let r1 = StateRevision::new(state_with("n", Json::PosInt(1)), "a".to_string(), None);
    let r2 = StateRevision::new(state_with("n", Json::PosInt(2)), "b".to_string(), None);
    let id1 = r1.id.clone();
    let mut tampered = r2.duplicate();
    tampered.state = state_with("n", Json::PosInt(9));
    let bad = vec![r1.duplicate(), tampered];
    assert!(manager.import_history(bad).is_err());
    assert_eq!(manager.get_history(10).len(), 0);

    let good = vec![r1, r2];
    assert!(manager.import_history(good).is_ok());
    let history = manager.get_history(10);
    assert_eq!(history.len(), 2);
    assert_eq!(history[1].id, id1);
    assert_eq!(history[0].changed_by, "b");
}

#[test]
fn test_auto_persist_setting() {
    let mut manager = StateManager::new("/tmp/sysconfig-state-test");
    assert!(manager.auto_persist());
    manager.set_auto_persist(false);
    assert!(!manager.auto_persist());
    assert!(manager.current_revision_id().is_none());
}

#[test]
fn test_load_latest_state_taken_up() {
    let mut manager = StateManager::new("/tmp/sysconfig-state-test");
    let latest = StateRevision::new(state_with("n", Json::PosInt(7)), "system".to_string(), Some("Latest state".to_string()));
    let id = latest.id.clone();
    assert!(manager.load_latest_state(latest));
    assert_eq!(uint_of(&manager.get_current_state().get("n").unwrap()), 7);
    assert_eq!(manager.current_revision_id(), Some(id.clone()));
    assert_eq!(manager.get_history(10).len(), 1);
    assert!(manager.cached_revision(&id).is_some());
}

#[test]
fn test_load_latest_state_refused_on_integrity_failure() {
    let mut manager = StateManager::new("/tmp/sysconfig-state-test");
    let mut latest = StateRevision::new(state_with("n", Json::PosInt(7)), "system".to_string(), None);
    latest.state = state_with("n", Json::PosInt(8));
    assert!(!manager.load_latest_state(latest));
    assert!(manager.current_revision_id().is_none());
    assert!(manager.get_history(10).is_empty());
    assert!(manager.get_current_state().get("n").is_none());
}

#[test]
fn test_rollback_refused_for_another_revision() {
    let mut manager = StateManager::new("/tmp/sysconfig-state-test");
    let revision1 = manager.update_state(state_with("version", Json::PosInt(1)), "test".to_string(), None);
    let revision2 = manager.update_state(state_with("version", Json::PosInt(2)), "test".to_string(), None);
    let other = manager.cached_revision(&revision2).unwrap();
    match manager.rollback_to_revision(&revision1, other) {
        Err(Error::State(m)) => assert_eq!(m, format!("Revision {} not found", revision1)),
        _ => panic!("expected a not-found error"),
    }
    assert_eq!(manager.current_revision_id(), Some(revision2));
}

#[test]
fn revision_id_is_a_hyphenated_v4_uuid() {
    let rev = StateRevision::new(state_with("a", Json::Bool(true)), "tester".to_string(), None);
    let id: Vec<char> = rev.id.chars().collect();
    assert_eq!(id.len(), 36);
    for (i, c) in id.iter().enumerate() {
        if i == 8 || i == 13 || i == 18 || i == 23 {
            assert_eq!(*c, '-');
        } else {
            assert!(c.is_ascii_digit() || ('a'..='f').contains(c));
        }
    }
    assert_eq!(id[14], '4');
    assert!(matches!(id[19], '8' | '9' | 'a' | 'b'));
}
